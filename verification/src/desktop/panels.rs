//! What the application center and the Relink nodes window show.
use vstd::prelude::*;

use crate::apps::{AppRegistry, InstalledApp};
use crate::relink::{peer_view, PeerNode};
use crate::text::{concat2, concat3, decimal, owned, push_decimal, push_str};
use crate::MandelCore;

verus! {

/// One application card: name, version label, kind label, id, and one
/// label per permission.
#[derive(Debug)]
pub struct AppCard {
    pub name: String,
    pub version: String,
    pub kind: String,
    pub id: String,
    pub permissions: Vec<String>,
}

/// The value of a card.
pub struct CardView {
    pub name: Seq<char>,
    pub version: Seq<char>,
    pub kind: Seq<char>,
    pub id: Seq<char>,
    pub permissions: Seq<Seq<char>>,
}

impl AppCard {
    /// The value of the card.
    pub open spec fn view(&self) -> CardView {
        CardView {
            name: self.name@,
            version: self.version@,
            kind: self.kind@,
            id: self.id@,
            permissions: self.permissions@.map_values(|p: String| p@),
        }
    }
}

/// The card of an installed application.
pub open spec fn card_spec(a: InstalledApp) -> CardView {
    CardView {
        name: a.manifest.name@,
        version: "v"@ + a.manifest.version@,
        kind: "["@ + a.manifest.kind@ + "]"@,
        id: a.manifest.id@,
        permissions: a.manifest.permissions@.map_values(|p: String| "🔑 "@ + p@),
    }
}

/// The application center's count label: `（n 个）`.
pub open spec fn app_count_label(n: nat) -> Seq<char> {
    "（"@ + decimal(n) + " 个）"@
}

/// The card of an installed application.
pub fn app_card(a: &InstalledApp) -> (r: AppCard)
    ensures
        r@ == card_spec(*a),
{
    let mut permissions: Vec<String> = Vec::new();
    let ghost ps = a.manifest.permissions@.map_values(|p: String| "🔑 "@ + p@);
    let mut i: usize = 0;
    while i < a.manifest.permissions.len()
        invariant
            i <= a.manifest.permissions.len(),
            ps == a.manifest.permissions@.map_values(|p: String| "🔑 "@ + p@),
            permissions@.map_values(|p: String| p@) == ps.take(i as int),
        decreases a.manifest.permissions.len() - i,
    {
        let ghost before = permissions@;
        permissions.push(concat2("🔑 ", a.manifest.permissions[i].as_str()));
        assert(permissions@.map_values(|p: String| p@) =~= before.map_values(|p: String| p@).push(ps[i as int]));
        assert(ps.take(i + 1) =~= ps.take(i as int).push(ps[i as int]));
        i = i + 1;
    }
    assert(ps.take(i as int) =~= ps);
    AppCard {
        name: owned(a.manifest.name.as_str()),
        version: concat2("v", a.manifest.version.as_str()),
        kind: concat3("[", a.manifest.kind.as_str(), "]"),
        id: owned(a.manifest.id.as_str()),
        permissions,
    }
}

/// The application center: the count label and one card per application,
/// in id order.
pub fn app_center(reg: &AppRegistry) -> (r: (String, Vec<AppCard>))
    ensures
        r.0@ == app_count_label(reg.entries().len()),
        r.1@.len() == reg.entries().len(),
        forall|i: int| 0 <= i < r.1@.len() ==> (#[trigger] r.1@[i])@ == card_spec(reg.entries()[i]),
{
    let mut label = owned("（");
    push_decimal(&mut label, reg.count() as u64);
    push_str(&mut label, " 个）");
    let all = reg.all();
    let mut cards: Vec<AppCard> = Vec::new();
    let mut i: usize = 0;
    while i < all.len()
        invariant
            i <= all.len(),
            all@ == reg.entries(),
            cards@.len() == i,
            forall|k: int| 0 <= k < i ==> (#[trigger] cards@[k])@ == card_spec(reg.entries()[k]),
        decreases all.len() - i,
    {
        cards.push(app_card(&all[i]));
        i = i + 1;
    }
    (label, cards)
}

/// The Relink nodes window's text: the online count label, one row per peer
/// (id, address, version label), the line shown when no peer is online,
/// and the footer.
#[derive(Debug)]
pub struct NodesPanel {
    pub count_label: String,
    pub rows: Vec<(String, String, String)>,
    pub alone_line: String,
    pub footer: String,
}

/// The row of a peer.
pub open spec fn peer_row(p: (Seq<char>, Seq<char>, Seq<char>, Seq<char>, u64)) -> (Seq<char>, Seq<char>, Seq<char>) {
    (p.0, p.1, "v"@ + p.3)
}

/// The rows as values.
pub open spec fn rows_view(v: Seq<(String, String, String)>) -> Seq<(Seq<char>, Seq<char>, Seq<char>)> {
    v.map_values(|r: (String, String, String)| (r.0@, r.1@, r.2@))
}

/// The Relink nodes window's text for the peers `peers`.
pub fn nodes_panel(core: &MandelCore, peers: &[PeerNode]) -> (r: NodesPanel)
    ensures
        r.count_label@ == "（在线 "@ + decimal(peers@.len()) + " 个）"@,
        rows_view(r.rows@) == peers@.map_values(|p: PeerNode| peer_view(p)).map_values(
            |p: (Seq<char>, Seq<char>, Seq<char>, Seq<char>, u64)| peer_row(p),
        ),
        r.alone_line@ == "本机节点 ID: "@ + core.node.node_id@,
        r.footer@ == "本机: "@ + core.node.node_id@ + " · Relink 端口 "@ + decimal(core.relink.discovery_port as nat),
{
    let mut count_label = owned("（在线 ");
    push_decimal(&mut count_label, peers.len() as u64);
    push_str(&mut count_label, " 个）");
    let ghost want = peers@.map_values(|p: PeerNode| peer_view(p)).map_values(
        |p: (Seq<char>, Seq<char>, Seq<char>, Seq<char>, u64)| peer_row(p),
    );
    let mut rows: Vec<(String, String, String)> = Vec::new();
    let mut i: usize = 0;
    while i < peers.len()
        invariant
            i <= peers.len(),
            want == peers@.map_values(|p: PeerNode| peer_view(p)).map_values(
                |p: (Seq<char>, Seq<char>, Seq<char>, Seq<char>, u64)| peer_row(p),
            ),
            rows_view(rows@) == want.take(i as int),
        decreases peers.len() - i,
    {
        let ghost before = rows@;
        let row = (owned(peers[i].id.as_str()), owned(peers[i].addr.as_str()), concat2("v", peers[i].version.as_str()));
        rows.push(row);
        assert(rows_view(rows@) =~= rows_view(before).push(want[i as int]));
        assert(want.take(i + 1) =~= want.take(i as int).push(want[i as int]));
        i = i + 1;
    }
    assert(want.take(i as int) =~= want);
    let alone_line = concat2("本机节点 ID: ", core.node.node_id.as_str());
    let mut footer = concat3("本机: ", core.node.node_id.as_str(), " · Relink 端口 ");
    push_decimal(&mut footer, core.relink.discovery_port as u64);
    NodesPanel { count_label, rows, alone_line, footer }
}

} // verus!
