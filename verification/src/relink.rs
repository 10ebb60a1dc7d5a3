//! The Relink bus: node discovery by `Hello` datagrams on the LAN, the table
//! of peers heard from, and the relay client's connection state.
//!
//! Sockets and threads stay with the caller; this module decides what a
//! received message does to the peer table, which peers have timed out, and
//! what a relay server does with a message.
use vstd::prelude::*;

use crate::config::MandelConfig;
use crate::text::{concat2, owned, str_eq};

verus! {

/// The id of a remote HAAVK node.
#[derive(Debug, PartialEq, Eq, Hash)]
pub struct NodeId(pub String);

impl NodeId {
    /// The id as a string.
    pub fn as_str(&self) -> (r: &str)
        ensures
            r@ == self.0@,
    {
        self.0.as_str()
    }
}

/// A message on the bus.
#[derive(Debug)]
pub enum RelinkMessage {
    /// A node announces itself.
    Hello { node_id: String, product: String, version: String },
    /// A message from one application to another.
    AppMessage { from: String, to: String, kind: String, payload: String },
}

/// A peer heard from.
#[derive(Debug)]
pub struct PeerNode {
    pub id: String,
    pub addr: String,
    pub product: String,
    pub version: String,
    /// When it was last heard from, in milliseconds of a monotonic clock.
    pub last_seen_ms: u64,
}

/// Milliseconds after which a silent peer is dropped.
pub open spec fn peer_timeout_ms() -> u64 {
    10000
}

/// The value of a peer: id, address, product, version, last seen.
pub open spec fn peer_view(p: PeerNode) -> (Seq<char>, Seq<char>, Seq<char>, Seq<char>, u64) {
    (p.id@, p.addr@, p.product@, p.version@, p.last_seen_ms)
}

/// The peers are keyed by id: no id twice.
pub open spec fn ids_distinct(s: Seq<(Seq<char>, Seq<char>, Seq<char>, Seq<char>, u64)>) -> bool {
    forall|i: int, j: int| 0 <= i < j < s.len() ==> (#[trigger] s[i]).0 != (#[trigger] s[j]).0
}

/// `after` is the table `before` once `entry` was heard from: the entry
/// with its id is replaced, or it is added at the end.
pub open spec fn recorded(
    before: Seq<(Seq<char>, Seq<char>, Seq<char>, Seq<char>, u64)>,
    after: Seq<(Seq<char>, Seq<char>, Seq<char>, Seq<char>, u64)>,
    entry: (Seq<char>, Seq<char>, Seq<char>, Seq<char>, u64),
) -> bool {
    match index_of_peer(before, entry.0) {
        Some(i) => after == before.update(i, entry),
        None => after == before.push(entry),
    }
}

/// A peer heard from at `now` is still alive.
pub open spec fn alive(last_seen: u64, now: u64) -> bool {
    now < last_seen || now - last_seen < peer_timeout_ms()
}

/// The peers heard from, by node id.
pub struct PeerTable {
    peers: Vec<PeerNode>,
}

impl PeerTable {
    /// No node id is in the table twice.
    #[verifier::type_invariant]
    spec fn ids_unique(&self) -> bool {
        ids_distinct(self.view())
    }

    /// The peers, in the order they were first heard from.
    pub closed spec fn view(&self) -> Seq<(Seq<char>, Seq<char>, Seq<char>, Seq<char>, u64)> {
        self.peers@.map_values(|p: PeerNode| peer_view(p))
    }

    /// An empty table.
    pub fn new() -> (r: Self)
        ensures
            r.view() == Seq::<(Seq<char>, Seq<char>, Seq<char>, Seq<char>, u64)>::empty(),
    {
        let r = PeerTable { peers: Vec::new() };
        assert(r.view() =~= Seq::<(Seq<char>, Seq<char>, Seq<char>, Seq<char>, u64)>::empty());
        r
    }

    /// Records a `Hello` from `node_id` at `addr`: the peer's entry is
    /// replaced where it is known, added at the end otherwise.
    pub fn record_hello(&mut self, node_id: &str, addr: &str, product: &str, version: &str, now_ms: u64)
        ensures
            ids_distinct(final(self).view()),
            recorded(old(self).view(), final(self).view(), (node_id@, addr@, product@, version@, now_ms)),
    {
        proof {
            use_type_invariant(&*self);
        }
        let ghost old_v = self.view();
        let mut v: Vec<PeerNode> = Vec::new();
        std::mem::swap(&mut v, &mut self.peers);
        assert(v@.map_values(|p: PeerNode| peer_view(p)) == old_v);
        let mut i: usize = 0;
        while i < v.len()
            invariant
                i <= v.len(),
                v@.map_values(|p: PeerNode| peer_view(p)) == old_v,
                old_v == old(self).view(),
                ids_distinct(old_v),
                forall|k: int| 0 <= k < i ==> old_v[k].0 != node_id@,
            decreases v.len() - i,
        {
            if str_eq(v[i].id.as_str(), node_id) {
                proof {
                    lemma_index_of_peer_at(old_v, node_id@, i as int);
                }
                let p = PeerNode {
                    id: owned(node_id),
                    addr: owned(addr),
                    product: owned(product),
                    version: owned(version),
                    last_seen_ms: now_ms,
                };
                v.set(i, p);
                let ghost nv = v@.map_values(|p: PeerNode| peer_view(p));
                assert(nv =~= old_v.update(i as int, (node_id@, addr@, product@, version@, now_ms)));
                assert forall|a: int, b: int| 0 <= a < b < nv.len() implies (#[trigger] nv[a]).0
                    != (#[trigger] nv[b]).0 by {
                    assert(old_v[i as int].0 == node_id@);
                }
                self.peers = v;
                return;
            }
            i = i + 1;
        }
        proof {
            lemma_index_of_peer_none(old_v, node_id@);
        }
        v.push(
            PeerNode {
                id: owned(node_id),
                addr: owned(addr),
                product: owned(product),
                version: owned(version),
                last_seen_ms: now_ms,
            },
        );
        assert(v@.map_values(|p: PeerNode| peer_view(p)) =~= old_v.push((node_id@, addr@, product@, version@, now_ms)));
        self.peers = v;
    }

    /// Drops every peer not heard from within the timeout before `now_ms`.
    pub fn prune(&mut self, now_ms: u64)
        ensures
            ids_distinct(final(self).view()),
            final(self).view() == old(self).view().filter(
                |p: (Seq<char>, Seq<char>, Seq<char>, Seq<char>, u64)| alive(p.4, now_ms),
            ),
    {
        proof {
            use_type_invariant(&*self);
        }
        let ghost old_v = self.view();
        let ghost f = |p: (Seq<char>, Seq<char>, Seq<char>, Seq<char>, u64)| alive(p.4, now_ms);
        let mut kept: Vec<PeerNode> = Vec::new();
        let mut rest: Vec<PeerNode> = Vec::new();
        std::mem::swap(&mut rest, &mut self.peers);
        let mut rev: Vec<PeerNode> = Vec::new();
        while rest.len() > 0
            invariant
                rest@.map_values(|p: PeerNode| peer_view(p)) + rev@.map_values(|p: PeerNode| peer_view(p)).reverse() == old_v,
            decreases rest.len(),
        {
            let ghost r0 = rest@;
            let ghost v0 = rev@;
            let p = rest.pop().unwrap();
            rev.push(p);
            assert(r0 =~= rest@.push(p));
            assert(rev@.map_values(|p: PeerNode| peer_view(p)).reverse() =~= seq![peer_view(p)] + v0.map_values(
                |p: PeerNode| peer_view(p),
            ).reverse());
            assert(r0.map_values(|p: PeerNode| peer_view(p)) =~= rest@.map_values(|p: PeerNode| peer_view(p)).push(peer_view(p)));
        }
        assert(rest@.map_values(|p: PeerNode| peer_view(p)) =~= Seq::<(Seq<char>, Seq<char>, Seq<char>, Seq<char>, u64)>::empty());
        let ghost mut done: Seq<(Seq<char>, Seq<char>, Seq<char>, Seq<char>, u64)> = seq![];
        assert(done + rev@.map_values(|p: PeerNode| peer_view(p)).reverse() =~= old_v);
        while rev.len() > 0
            invariant
                done + rev@.map_values(|p: PeerNode| peer_view(p)).reverse() == old_v,
                kept@.map_values(|p: PeerNode| peer_view(p)) == done.filter(f),
                f == (|p: (Seq<char>, Seq<char>, Seq<char>, Seq<char>, u64)| alive(p.4, now_ms)),
            decreases rev.len(),
        {
            let ghost v0 = rev@;
            let p = rev.pop().unwrap();
            let ghost pv = peer_view(p);
            assert(v0 =~= rev@.push(p));
            assert(v0.map_values(|p: PeerNode| peer_view(p)).reverse() =~= seq![pv] + rev@.map_values(
                |p: PeerNode| peer_view(p),
            ).reverse());
            let ghost d0 = done;
            proof {
                done = done.push(pv);
                assert(done.drop_last() =~= d0);
                assert(done + rev@.map_values(|p: PeerNode| peer_view(p)).reverse() =~= d0 + (seq![pv] + rev@.map_values(
                    |p: PeerNode| peer_view(p),
                ).reverse()));
            }
            let keep = now_ms < p.last_seen_ms || now_ms - p.last_seen_ms < 10000;
            if keep {
                let ghost k0 = kept@;
                kept.push(p);
                assert(kept@.map_values(|p: PeerNode| peer_view(p)) =~= k0.map_values(|p: PeerNode| peer_view(p)).push(pv));
            }
            assert(done.last() == pv);
            proof {
                reveal(Seq::filter);
            }
            assert(done.filter(f) == if f(pv) { d0.filter(f).push(pv) } else { d0.filter(f) });
        }
        assert(done =~= old_v);
        proof {
            let kv = kept@.map_values(|p: PeerNode| peer_view(p));
            assert forall|i: int, j: int| 0 <= i < j < kv.len() implies (#[trigger] kv[i]).0 != (#[trigger] kv[j]).0 by {
                lemma_filter_distinct(old_v, f, i, j);
            }
        }
        self.peers = kept;
    }

    /// The number of peers.
    pub fn count(&self) -> (r: usize)
        ensures
            r == self.view().len(),
    {
        self.peers.len()
    }

    /// The peers.
    pub fn peers(&self) -> (r: &[PeerNode])
        ensures
            r@.map_values(|p: PeerNode| peer_view(p)) == self.view(),
    {
        self.peers.as_slice()
    }

    /// What a received message does: a `Hello` records its sender at `addr`
    /// (what `record_hello` does); an application message leaves the table
    /// as it is.
    pub fn apply(&mut self, msg: &RelinkMessage, addr: &str, now_ms: u64)
        ensures
            ids_distinct(final(self).view()),
            match msg {
                RelinkMessage::Hello { node_id, product, version } => recorded(
                    old(self).view(),
                    final(self).view(),
                    (node_id@, addr@, product@, version@, now_ms),
                ),
                RelinkMessage::AppMessage { .. } => final(self).view() == old(self).view(),
            },
    {
        proof {
            use_type_invariant(&*self);
        }
        match msg {
            RelinkMessage::Hello { node_id, product, version } => {
                self.record_hello(node_id.as_str(), addr, product.as_str(), version.as_str(), now_ms);
            },
            RelinkMessage::AppMessage { .. } => {},
        }
    }
}

/// Filtering keeps distinct ids distinct.
proof fn lemma_filter_distinct(
    s: Seq<(Seq<char>, Seq<char>, Seq<char>, Seq<char>, u64)>,
    f: spec_fn((Seq<char>, Seq<char>, Seq<char>, Seq<char>, u64)) -> bool,
    i: int,
    j: int,
)
    requires
        ids_distinct(s),
        0 <= i < j < s.filter(f).len(),
    ensures
        s.filter(f)[i].0 != s.filter(f)[j].0,
    decreases s.len(),
{
    reveal(Seq::filter);
    let t = s.drop_last().filter(f);
    assert(ids_distinct(s.drop_last())) by {
        assert forall|a: int, b: int| 0 <= a < b < s.drop_last().len() implies (#[trigger] s.drop_last()[a]).0
            != (#[trigger] s.drop_last()[b]).0 by {
            assert(s.drop_last()[a] == s[a] && s.drop_last()[b] == s[b]);
        }
    }
    if f(s.last()) && j == t.len() {
        assert(s.filter(f)[j] == s.last());
        assert(s.filter(f)[i] == t[i]);
        assert(t.contains(t[i]));
        s.drop_last().lemma_filter_contains_rev(f, t[i]);
        assert(s.drop_last().contains(t[i]));
        let k = choose|k: int| 0 <= k < s.drop_last().len() && s.drop_last()[k] == t[i];
        assert(s[k] == t[i]);
        assert(s[s.len() - 1] == s.last());
    } else {
        lemma_filter_distinct(s.drop_last(), f, i, j);
    }
}

/// The index of the peer with id `id`.
pub open spec fn index_of_peer(s: Seq<(Seq<char>, Seq<char>, Seq<char>, Seq<char>, u64)>, id: Seq<char>) -> Option<int>
    decreases s.len(),
{
    if s.len() == 0 {
        None
    } else if s[0].0 == id {
        Some(0)
    } else {
        match index_of_peer(s.drop_first(), id) {
            Some(i) => Some(i + 1),
            None => None,
        }
    }
}

proof fn lemma_index_of_peer_at(s: Seq<(Seq<char>, Seq<char>, Seq<char>, Seq<char>, u64)>, id: Seq<char>, i: int)
    requires
        0 <= i < s.len(),
        s[i].0 == id,
        forall|k: int| 0 <= k < i ==> s[k].0 != id,
    ensures
        index_of_peer(s, id) == Some(i),
    decreases i,
{
    if i > 0 {
        lemma_index_of_peer_at(s.drop_first(), id, i - 1);
    }
}

proof fn lemma_index_of_peer_none(s: Seq<(Seq<char>, Seq<char>, Seq<char>, Seq<char>, u64)>, id: Seq<char>)
    requires
        forall|k: int| 0 <= k < s.len() ==> s[k].0 != id,
    ensures
        index_of_peer(s, id) is None,
    decreases s.len(),
{
    if s.len() > 0 {
        lemma_index_of_peer_none(s.drop_first(), id);
    }
}

/// The bus settings and its running state.
pub struct RelinkBus {
    pub enabled: bool,
    pub node_discovery: bool,
    pub discovery_port: u16,
    pub max_connections: u32,
    pub running: bool,
    /// Whether the bus has been asked to stop (its threads then end).
    pub stop_requested: bool,
    /// The peers heard from.
    pub peers: PeerTable,
}

impl RelinkBus {
    /// Whether the bus runs.
    pub open spec fn running_spec(&self) -> bool {
        self.running
    }

    /// A stopped bus with the configured settings.
    pub fn new(config: &MandelConfig) -> (r: Self)
        ensures
            r.enabled == config.relink_bus.enable,
            r.node_discovery == config.relink_bus.node_discovery,
            r.discovery_port == config.relink_bus.discovery_port,
            r.max_connections == config.relink_bus.max_connections,
            !r.running_spec(),
            !r.stop_requested,
            r.peers.view() == Seq::<(Seq<char>, Seq<char>, Seq<char>, Seq<char>, u64)>::empty(),
    {
        RelinkBus {
            enabled: config.relink_bus.enable,
            node_discovery: config.relink_bus.node_discovery,
            discovery_port: config.relink_bus.discovery_port,
            max_connections: config.relink_bus.max_connections,
            running: false,
            stop_requested: false,
            peers: PeerTable::new(),
        }
    }

    /// The peers online now.
    pub fn peers(&self) -> (r: &[PeerNode])
        ensures
            r@.map_values(|p: PeerNode| peer_view(p)) == self.peers.view(),
    {
        self.peers.peers()
    }

    /// The number of peers online.
    pub fn peer_count(&self) -> (r: usize)
        ensures
            r == self.peers.view().len(),
    {
        self.peers.count()
    }

    /// Asks the bus to stop; the settings and the running flag stay as they are.
    pub fn stop(&mut self)
        ensures
            final(self).stop_requested,
            final(self).running == old(self).running,
            final(self).enabled == old(self).enabled,
            final(self).node_discovery == old(self).node_discovery,
            final(self).discovery_port == old(self).discovery_port,
            final(self).max_connections == old(self).max_connections,
            final(self).peers == old(self).peers,
    {
        self.stop_requested = true;
    }

    /// Starting: returns whether the caller should bind the socket and start
    /// the threads (not where the bus runs already); marks the bus running.
    pub fn begin_start(&mut self) -> (go: bool)
        ensures
            go == !old(self).running_spec(),
            final(self).running_spec(),
            final(self).stop_requested == old(self).stop_requested,
            final(self).enabled == old(self).enabled,
            final(self).node_discovery == old(self).node_discovery,
            final(self).discovery_port == old(self).discovery_port,
            final(self).max_connections == old(self).max_connections,
            final(self).peers == old(self).peers,
    {
        if self.running {
            return false;
        }
        self.running = true;
        true
    }

    /// The socket could not be bound: the bus falls back to offline.
    pub fn bind_failed(&mut self)
        ensures
            !final(self).running_spec(),
            final(self).stop_requested == old(self).stop_requested,
            final(self).enabled == old(self).enabled,
            final(self).node_discovery == old(self).node_discovery,
            final(self).discovery_port == old(self).discovery_port,
            final(self).max_connections == old(self).max_connections,
            final(self).peers == old(self).peers,
    {
        self.running = false;
    }

    /// Whether the bus runs.
    pub fn is_running(&self) -> (r: bool)
        ensures
            r == self.running_spec(),
    {
        self.running
    }
}

/// The first wait before connecting to the relay again, in milliseconds.
pub const RECONNECT_FIRST_MS: u64 = 1000;

/// The longest wait between attempts to connect to the relay, in
/// milliseconds.
pub const RECONNECT_MAX_MS: u64 = 30000;

/// The wait after a failed attempt that followed a wait of `d`: twice `d`,
/// at most `RECONNECT_MAX_MS`.
pub open spec fn next_delay_spec(d: int) -> int {
    if 2 * d < RECONNECT_MAX_MS {
        2 * d
    } else {
        RECONNECT_MAX_MS as int
    }
}

/// The wait that follows a wait of `d` milliseconds: doubled, capped at
/// `RECONNECT_MAX_MS`.
pub fn next_delay(d: u64) -> (r: u64)
    ensures
        r == next_delay_spec(d as int),
{
    if d < RECONNECT_MAX_MS / 2 {
        2 * d
    } else {
        RECONNECT_MAX_MS
    }
}

/// The waits between attempts stay between the first wait and the cap, never
/// shrink, and double until they reach the cap.
pub proof fn law_backoff_doubles_to_cap(d: int)
    requires
        RECONNECT_FIRST_MS <= d <= RECONNECT_MAX_MS,
    ensures
        RECONNECT_FIRST_MS <= next_delay_spec(d) <= RECONNECT_MAX_MS,
        d <= next_delay_spec(d),
        next_delay_spec(d) == 2 * d || next_delay_spec(d) == RECONNECT_MAX_MS,
{
}

/// The relay client's state: where the relay is, whether it is used,
/// whether it is connected, and how long to wait after the next failed
/// attempt.
pub struct RelayClient {
    pub server_addr: String,
    pub enabled: bool,
    pub connected: bool,
    pub retry_delay_ms: u64,
}

impl RelayClient {
    /// Whether the client is connected.
    pub open spec fn connected_spec(&self) -> bool {
        self.connected
    }

    /// A client for `server_addr`, not connected.
    pub fn new(server_addr: &str, enabled: bool) -> (r: Self)
        ensures
            r.server_addr@ == server_addr@,
            r.enabled == enabled,
            !r.connected_spec(),
            r.retry_delay_ms == RECONNECT_FIRST_MS,
    {
        RelayClient { server_addr: owned(server_addr), enabled, connected: false, retry_delay_ms: RECONNECT_FIRST_MS }
    }

    /// Whether connecting means opening a connection (only where enabled;
    /// a disabled client connects trivially).
    pub fn needs_connection(&self) -> (r: bool)
        ensures
            r == self.enabled,
    {
        self.enabled
    }

    /// Records the outcome of opening the connection (`Err` with the
    /// failure's text) and gives what `connect` returns.
    pub fn finish_connect(&mut self, outcome: Result<(), String>) -> (r: Result<(), String>)
        ensures
            final(self).server_addr == old(self).server_addr,
            final(self).enabled == old(self).enabled,
            final(self).connected_spec() == outcome is Ok,
            final(self).retry_delay_ms == if outcome is Ok {
                RECONNECT_FIRST_MS
            } else {
                old(self).retry_delay_ms
            },
            match outcome {
                Ok(()) => r is Ok,
                Err(e) => r matches Err(m) && m@ == "中继连接失败: "@ + e@,
            },
    {
        match outcome {
            Ok(()) => {
                self.connected = true;
                self.retry_delay_ms = RECONNECT_FIRST_MS;
                Ok(())
            },
            Err(e) => {
                self.connected = false;
                Err(concat2("中继连接失败: ", e.as_str()))
            },
        }
    }

    /// One step of the background connection, after an attempt with
    /// `outcome`: the outcome is recorded as by `finish_connect`; on success
    /// there is no wait (`None`) and the next failure waits the first wait
    /// again; on failure the step gives the wait before the next attempt and
    /// the wait after that is doubled, up to the cap.
    pub fn retry_after(&mut self, outcome: Result<(), String>) -> (wait: Option<u64>)
        ensures
            final(self).server_addr == old(self).server_addr,
            final(self).enabled == old(self).enabled,
            final(self).connected_spec() == outcome is Ok,
            outcome is Ok ==> wait is None && final(self).retry_delay_ms == RECONNECT_FIRST_MS,
            outcome is Err ==> wait == Some(old(self).retry_delay_ms)
                && final(self).retry_delay_ms == next_delay_spec(old(self).retry_delay_ms as int),
    {
        let ok = outcome.is_ok();
        let d = self.retry_delay_ms;
        let _ = self.finish_connect(outcome);
        if ok {
            None
        } else {
            self.retry_delay_ms = next_delay(d);
            Some(d)
        }
    }

    /// The connection was lost: the client is no longer connected.
    pub fn connection_lost(&mut self)
        ensures
            final(self).server_addr == old(self).server_addr,
            final(self).enabled == old(self).enabled,
            !final(self).connected_spec(),
            final(self).retry_delay_ms == old(self).retry_delay_ms,
    {
        self.connected = false;
    }

    /// Whether the client is connected.
    pub fn is_connected(&self) -> (r: bool)
        ensures
            r == self.connected_spec(),
    {
        self.connected
    }
}

/// What a relay server does with a message from a client.
#[derive(Debug, PartialEq, Eq)]
pub enum RelayAction {
    /// Register the client under this node id, and forward the message to
    /// every other registered client (see `broadcast_targets`).
    RegisterAndBroadcast(String),
    /// Forward the message to the client registered as this node id.
    Forward(String),
}

/// The relay server's decision: a `Hello` registers its sender and is
/// forwarded to every other registered node; an application message is
/// forwarded to its addressee.
pub fn relay_action(msg: &RelinkMessage) -> (r: RelayAction)
    ensures
        match msg {
            RelinkMessage::Hello { node_id, .. } => r matches RelayAction::RegisterAndBroadcast(id) && id@ == node_id@,
            RelinkMessage::AppMessage { to, .. } => r matches RelayAction::Forward(id) && id@ == to@,
        },
{
    match msg {
        RelinkMessage::Hello { node_id, .. } => RelayAction::RegisterAndBroadcast(owned(node_id.as_str())),
        RelinkMessage::AppMessage { to, .. } => RelayAction::Forward(owned(to.as_str())),
    }
}

/// The registered node ids other than `sender`, in order.
pub open spec fn others(registered: Seq<Seq<char>>, sender: Seq<char>) -> Seq<Seq<char>>
    decreases registered.len(),
{
    if registered.len() == 0 {
        Seq::empty()
    } else {
        let rest = others(registered.drop_last(), sender);
        if registered.last() == sender {
            rest
        } else {
            rest.push(registered.last())
        }
    }
}

/// Where a `Hello` from `sender` is forwarded: every registered node but
/// the sender itself.
pub fn broadcast_targets(registered: &Vec<String>, sender: &str) -> (r: Vec<String>)
    ensures
        r@.map_values(|s: String| s@) == others(registered@.map_values(|s: String| s@), sender@),
{
    let ghost all = registered@.map_values(|s: String| s@);
    let mut r: Vec<String> = Vec::new();
    let mut i: usize = 0;
    while i < registered.len()
        invariant
            i <= registered.len(),
            all == registered@.map_values(|s: String| s@),
            r@.map_values(|s: String| s@) == others(all.take(i as int), sender@),
        decreases registered.len() - i,
    {
        assert(all.take(i as int + 1).drop_last() =~= all.take(i as int));
        assert(all.take(i as int + 1).last() == registered@[i as int]@);
        if !str_eq(registered[i].as_str(), sender) {
            let x = owned(registered[i].as_str());
            let ghost before = r@;
            r.push(x);
            assert(r@.map_values(|s: String| s@) =~= before.map_values(|s: String| s@).push(x@));
        }
        i = i + 1;
    }
    assert(all.take(i as int) =~= all);
    r
}

/// One relay connection: the node id its client goes by (`node-` and the
/// client's address until the client says hello).
pub struct RelaySession {
    pub node_id: String,
}

impl RelaySession {
    /// A new connection from `peer_addr`.
    pub fn new(peer_addr: &str) -> (r: Self)
        ensures
            r.node_id@ == "node-"@ + peer_addr@,
    {
        RelaySession { node_id: concat2("node-", peer_addr) }
    }

    /// A message from the client: a `Hello` makes its node id the
    /// session's; returns what the server does with the message (a `Hello`
    /// is registered and forwarded to the other nodes, an application
    /// message is forwarded to its addressee).
    pub fn on_message(&mut self, msg: &RelinkMessage) -> (r: RelayAction)
        ensures
            match msg {
                RelinkMessage::Hello { node_id, .. } => {
                    &&& final(self).node_id@ == node_id@
                    &&& r matches RelayAction::RegisterAndBroadcast(id) && id@ == node_id@
                },
                RelinkMessage::AppMessage { to, .. } => {
                    &&& final(self).node_id@ == old(self).node_id@
                    &&& r matches RelayAction::Forward(id) && id@ == to@
                },
            },
    {
        if let RelinkMessage::Hello { node_id, .. } = msg {
            self.node_id = owned(node_id.as_str());
        }
        relay_action(msg)
    }
}

/// After a `Hello`, the sender is in the table with what it announced, once:
/// a node heard from again is not listed twice.
pub proof fn law_hello_recorded(
    before: Seq<(Seq<char>, Seq<char>, Seq<char>, Seq<char>, u64)>,
    after: Seq<(Seq<char>, Seq<char>, Seq<char>, Seq<char>, u64)>,
    entry: (Seq<char>, Seq<char>, Seq<char>, Seq<char>, u64),
)
    requires
        ids_distinct(before),
        recorded(before, after, entry),
    ensures
        after.contains(entry),
        after.len() == before.len() + if index_of_peer(before, entry.0) is Some { 0int } else { 1int },
        ids_distinct(after),
{
    lemma_index_of_peer_range(before, entry.0);
    match index_of_peer(before, entry.0) {
        Some(i) => {
            assert(after[i] == entry);
            assert forall|a: int, b: int| 0 <= a < b < after.len() implies (#[trigger] after[a]).0 != (#[trigger] after[b]).0 by {
                assert(after[a].0 == before[a].0 && after[b].0 == before[b].0);
            }
        },
        None => {
            assert(after[before.len() as int] == entry);
            assert forall|a: int, b: int| 0 <= a < b < after.len() implies (#[trigger] after[a]).0 != (#[trigger] after[b]).0 by {
                if b == before.len() {
                    assert(before[a].0 != entry.0);
                } else {
                    assert(after[a] == before[a] && after[b] == before[b]);
                }
            }
        },
    }
}

proof fn lemma_index_of_peer_range(s: Seq<(Seq<char>, Seq<char>, Seq<char>, Seq<char>, u64)>, id: Seq<char>)
    ensures
        index_of_peer(s, id) matches Some(i) ==> 0 <= i < s.len() && s[i].0 == id,
        index_of_peer(s, id) is None ==> forall|k: int| 0 <= k < s.len() ==> (#[trigger] s[k]).0 != id,
    decreases s.len(),
{
    if s.len() > 0 && s[0].0 != id {
        lemma_index_of_peer_range(s.drop_first(), id);
        if index_of_peer(s, id) is None {
            assert forall|k: int| 0 <= k < s.len() implies (#[trigger] s[k]).0 != id by {
                if k > 0 {
                    assert(s[k] == s.drop_first()[k - 1]);
                }
            }
        }
    }
}

} // verus!
