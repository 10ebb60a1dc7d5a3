//! Application windows on the desktop: opening, activating, minimising,
//! closing, and switching with Alt+Tab.
use vstd::prelude::*;

use crate::desktop::files::{FilesState, FilesView};
use crate::desktop::browser::{browser_start, BrowserState, BrowserView};
use crate::desktop::shell::{terminal_start, TerminalState, TerminalView};

verus! {

/// The kinds of application window.
#[derive(Debug, Clone, Copy, PartialEq, Eq, Structural)]
pub enum AppKind {
    Files,
    Settings,
    About,
    Terminal,
    AppCenter,
    Nodes,
    Browser,
}

/// The title of a window of kind `k`.
pub open spec fn title_spec(k: AppKind) -> Seq<char> {
    match k {
        AppKind::Files => "HAAVK 文件管理器 - 全域节点"@,
        AppKind::Settings => "HAAVK 系统设置"@,
        AppKind::About => "关于全域算力节点"@,
        AppKind::Terminal => "HAAVK 终端"@,
        AppKind::AppCenter => "HAAVK 应用中心"@,
        AppKind::Nodes => "Relink 同频节点"@,
        AppKind::Browser => "HAAVK 全域浏览器"@,
    }
}

impl AppKind {
    /// The window title.
    pub fn title(&self) -> (r: &'static str)
        ensures
            r@ == title_spec(*self),
    {
        match self {
            AppKind::Files => "HAAVK 文件管理器 - 全域节点",
            AppKind::Settings => "HAAVK 系统设置",
            AppKind::About => "关于全域算力节点",
            AppKind::Terminal => "HAAVK 终端",
            AppKind::AppCenter => "HAAVK 应用中心",
            AppKind::Nodes => "Relink 同频节点",
            AppKind::Browser => "HAAVK 全域浏览器",
        }
    }
}

/// One application window.
#[derive(Debug)]
pub struct AppWindow {
    pub id: u64,
    pub kind: AppKind,
    pub open: bool,
    pub minimized: bool,
    pub files: Option<FilesState>,
    pub terminal: Option<TerminalState>,
    pub browser: Option<BrowserState>,
}

/// The value of a window.
pub struct WindowView {
    pub id: u64,
    pub kind: AppKind,
    pub open: bool,
    pub minimized: bool,
    pub files: Option<FilesView>,
    pub terminal: Option<TerminalView>,
    pub browser: Option<BrowserView>,
}

impl AppWindow {
    /// The value of the window.
    pub open spec fn view(&self) -> WindowView {
        WindowView {
            id: self.id,
            kind: self.kind,
            open: self.open,
            minimized: self.minimized,
            files: match self.files {
                Some(f) => Some(f@),
                None => None,
            },
            terminal: match self.terminal {
                Some(t) => Some(t@),
                None => None,
            },
            browser: match self.browser {
                Some(b) => Some(b@),
                None => None,
            },
        }
    }
}

/// What the desktop, the task bar or the start menu asks for.
#[derive(Debug)]
pub enum Action {
    /// Nothing to do.
    NoAction,
    Open(AppKind),
    ToggleStart,
    Activate(u64),
    ToggleMinimize(u64),
    Exit,
}

/// The index of the first window that `p` holds of.
pub open spec fn first_match(ws: Seq<WindowView>, p: spec_fn(WindowView) -> bool) -> Option<int>
    decreases ws.len(),
{
    if ws.len() == 0 {
        None
    } else if p(ws[0]) {
        Some(0)
    } else {
        match first_match(ws.drop_first(), p) {
            Some(i) => Some(i + 1),
            None => None,
        }
    }
}

proof fn lemma_first_match_at(ws: Seq<WindowView>, p: spec_fn(WindowView) -> bool, i: int)
    requires
        0 <= i < ws.len(),
        p(ws[i]),
        forall|k: int| 0 <= k < i ==> !p(#[trigger] ws[k]),
    ensures
        first_match(ws, p) == Some(i),
    decreases i,
{
    if i > 0 {
        assert(!p(ws[0]));
        assert forall|k: int| 0 <= k < i - 1 implies !p(#[trigger] ws.drop_first()[k]) by {
            assert(ws.drop_first()[k] == ws[k + 1]);
        }
        lemma_first_match_at(ws.drop_first(), p, i - 1);
    }
}

proof fn lemma_first_match_none(ws: Seq<WindowView>, p: spec_fn(WindowView) -> bool)
    requires
        forall|k: int| 0 <= k < ws.len() ==> !p(#[trigger] ws[k]),
    ensures
        first_match(ws, p) is None,
    decreases ws.len(),
{
    if ws.len() > 0 {
        assert(!p(ws[0]));
        assert forall|k: int| 0 <= k < ws.len() - 1 implies !p(#[trigger] ws.drop_first()[k]) by {
            assert(ws.drop_first()[k] == ws[k + 1]);
        }
        lemma_first_match_none(ws.drop_first(), p);
    }
}

/// An open window of kind `k`.
pub open spec fn open_of(k: AppKind) -> spec_fn(WindowView) -> bool {
    |w: WindowView| w.kind == k && w.open
}

/// A window of kind `k`.
pub open spec fn of_kind(k: AppKind) -> spec_fn(WindowView) -> bool {
    |w: WindowView| w.kind == k
}

/// The window with id `id`.
pub open spec fn with_id(id: u64) -> spec_fn(WindowView) -> bool {
    |w: WindowView| w.id == id
}

/// The open window with id `id`.
pub open spec fn open_with_id(id: u64) -> spec_fn(WindowView) -> bool {
    |w: WindowView| w.id == id && w.open
}

/// A window that is shown: open and not minimised.
pub open spec fn visible() -> spec_fn(WindowView) -> bool {
    |w: WindowView| w.open && !w.minimized
}

/// A shown window other than `id`.
pub open spec fn visible_except(id: u64) -> spec_fn(WindowView) -> bool {
    |w: WindowView| w.id != id && w.open && !w.minimized
}

/// The window `w`, shown (restored from minimised).
pub open spec fn restored(w: WindowView) -> WindowView {
    WindowView { minimized: false, ..w }
}

/// The window `w`, reopened and shown.
pub open spec fn reopened(w: WindowView) -> WindowView {
    WindowView { open: true, minimized: false, ..w }
}

/// The window `w`, closed.
pub open spec fn closed(w: WindowView) -> WindowView {
    WindowView { open: false, ..w }
}

/// The shown window with id `id`.
pub open spec fn visible_with_id(id: u64) -> spec_fn(WindowView) -> bool {
    |w: WindowView| w.id == id && w.open && !w.minimized
}

/// The window `w` with its minimised flag flipped.
pub open spec fn flipped(w: WindowView) -> WindowView {
    WindowView { minimized: !w.minimized, ..w }
}

/// The window a new application of kind `k` opens as, with id `id`.
pub open spec fn new_window(id: u64, k: AppKind) -> WindowView {
    WindowView {
        id,
        kind: k,
        open: true,
        minimized: false,
        files: if k == AppKind::Files {
            Some(files_root())
        } else {
            None
        },
        terminal: if k == AppKind::Terminal {
            Some(terminal_start())
        } else {
            None
        },
        browser: if k == AppKind::Browser {
            Some(browser_start())
        } else {
            None
        },
    }
}

/// The state a new file manager starts in.
pub open spec fn files_root() -> FilesView {
    FilesView { vpath: "haavk://home"@, history: seq!["haavk://home"@], hist_idx: 0, selected: None }
}

/// The id of the window that `p` first holds of, if any.
pub open spec fn first_id(ws: Seq<WindowView>, p: spec_fn(WindowView) -> bool) -> Option<u64> {
    match first_match(ws, p) {
        Some(i) => Some(ws[i].id),
        None => None,
    }
}

/// The ids of the shown windows, in window order.
pub open spec fn visible_ids(ws: Seq<WindowView>) -> Seq<u64>
    decreases ws.len(),
{
    if ws.len() == 0 {
        Seq::empty()
    } else {
        let r = visible_ids(ws.drop_last());
        if ws.last().open && !ws.last().minimized {
            r.push(ws.last().id)
        } else {
            r
        }
    }
}

/// The open windows, in window order.
pub open spec fn open_windows(ws: Seq<WindowView>) -> Seq<WindowView>
    decreases ws.len(),
{
    if ws.len() == 0 {
        Seq::empty()
    } else {
        let r = open_windows(ws.drop_last());
        if ws.last().open {
            r.push(ws.last())
        } else {
            r
        }
    }
}

/// Whether some closed window has id `id`.
pub open spec fn closed_id(ws: Seq<WindowView>, id: u64) -> bool {
    exists|i: int| 0 <= i < ws.len() && !(#[trigger] ws[i]).open && ws[i].id == id
}

/// The first index of `a` in `s`, if any.
pub open spec fn position_of(s: Seq<u64>, a: u64) -> Option<int>
    decreases s.len(),
{
    if s.len() == 0 {
        None
    } else if s[0] == a {
        Some(0)
    } else {
        match position_of(s.drop_first(), a) {
            Some(i) => Some(i + 1),
            None => None,
        }
    }
}

proof fn lemma_position_of_at(s: Seq<u64>, a: u64, i: int)
    requires
        0 <= i < s.len(),
        s[i] == a,
        forall|k: int| 0 <= k < i ==> #[trigger] s[k] != a,
    ensures
        position_of(s, a) == Some(i),
    decreases i,
{
    if i > 0 {
        assert(s[0] != a);
        assert forall|k: int| 0 <= k < i - 1 implies #[trigger] s.drop_first()[k] != a by {
            assert(s.drop_first()[k] == s[k + 1]);
        }
        lemma_position_of_at(s.drop_first(), a, i - 1);
    }
}

proof fn lemma_position_of_none(s: Seq<u64>, a: u64)
    requires
        forall|k: int| 0 <= k < s.len() ==> #[trigger] s[k] != a,
    ensures
        position_of(s, a) is None,
    decreases s.len(),
{
    if s.len() > 0 {
        assert(s[0] != a);
        assert forall|k: int| 0 <= k < s.len() - 1 implies #[trigger] s.drop_first()[k] != a by {
            assert(s.drop_first()[k] == s[k + 1]);
        }
        lemma_position_of_none(s.drop_first(), a);
    }
}

/// Where Alt+Tab starts counting: the place of the active window among the
/// shown ones, or the first place when it is not shown.
pub open spec fn alt_tab_from(ids: Seq<u64>, active: Option<u64>) -> int {
    match active {
        Some(a) => match position_of(ids, a) {
            Some(i) => i,
            None => 0,
        },
        None => 0,
    }
}

/// The window Alt+Tab switches to: the shown window after the active one,
/// wrapping round at the end.
pub open spec fn alt_tab_target(ids: Seq<u64>, active: Option<u64>) -> u64 {
    ids[(alt_tab_from(ids, active) + 1) % (ids.len() as int)]
}

/// Window ids are distinct and below `next`.
pub open spec fn ids_ok(ws: Seq<WindowView>, next: u64) -> bool {
    &&& forall|i: int, j: int| 0 <= i < j < ws.len() ==> (#[trigger] ws[i]).id != (#[trigger] ws[j]).id
    &&& forall|i: int| 0 <= i < ws.len() ==> (#[trigger] ws[i]).id < next
}

/// Changing a window but not its id keeps the ids well-formed.
proof fn lemma_ids_ok_update(ws: Seq<WindowView>, next: u64, i: int, w: WindowView)
    requires
        ids_ok(ws, next),
        0 <= i < ws.len(),
        w.id == ws[i].id,
    ensures
        ids_ok(ws.update(i, w), next),
{
    let t = ws.update(i, w);
    assert forall|a: int, b: int| 0 <= a < b < t.len() implies (#[trigger] t[a]).id != (#[trigger] t[b]).id by {
        assert(t[a].id == ws[a].id && t[b].id == ws[b].id);
    }
    assert forall|a: int| 0 <= a < t.len() implies (#[trigger] t[a]).id < next by {
        assert(t[a].id == ws[a].id);
    }
}

/// Every open window is one of the windows.
proof fn lemma_open_windows_from(ws: Seq<WindowView>)
    ensures
        forall|k: int| 0 <= k < open_windows(ws).len() ==>
            exists|j: int| 0 <= j < ws.len() && #[trigger] open_windows(ws)[k] == ws[j],
    decreases ws.len(),
{
    if ws.len() > 0 {
        let d = ws.drop_last();
        lemma_open_windows_from(d);
        let r = open_windows(d);
        assert forall|k: int| 0 <= k < open_windows(ws).len() implies
            exists|j: int| 0 <= j < ws.len() && #[trigger] open_windows(ws)[k] == ws[j] by {
            if k < r.len() {
                let j = choose|j: int| 0 <= j < d.len() && #[trigger] r[k] == d[j];
                assert(open_windows(ws)[k] == ws[j]);
            } else {
                assert(open_windows(ws)[k] == ws[ws.len() - 1]);
            }
        }
    }
}

/// Dropping the closed windows keeps the ids well-formed.
proof fn lemma_open_windows_ids(ws: Seq<WindowView>, next: u64)
    requires
        ids_ok(ws, next),
    ensures
        ids_ok(open_windows(ws), next),
    decreases ws.len(),
{
    if ws.len() > 0 {
        let d = ws.drop_last();
        assert(ids_ok(d, next)) by {
            assert forall|i: int, j: int| 0 <= i < j < d.len() implies (#[trigger] d[i]).id != (#[trigger] d[j]).id by {
                assert(d[i] == ws[i] && d[j] == ws[j]);
            }
            assert forall|i: int| 0 <= i < d.len() implies (#[trigger] d[i]).id < next by {
                assert(d[i] == ws[i]);
            }
        }
        lemma_open_windows_ids(d, next);
        lemma_open_windows_from(d);
        let r = open_windows(d);
        let o = open_windows(ws);
        if ws.last().open {
            assert forall|a: int, b: int| 0 <= a < b < o.len() implies (#[trigger] o[a]).id != (#[trigger] o[b]).id by {
                if b == r.len() {
                    let j = choose|j: int| 0 <= j < d.len() && #[trigger] r[a] == d[j];
                    assert(o[a] == ws[j]);
                    assert(o[b] == ws[ws.len() - 1]);
                } else {
                    assert(o[a] == r[a] && o[b] == r[b]);
                }
            }
            assert forall|a: int| 0 <= a < o.len() implies (#[trigger] o[a]).id < next by {
                if a < r.len() {
                    assert(o[a] == r[a]);
                } else {
                    assert(o[a] == ws[ws.len() - 1]);
                }
            }
        }
    }
}

proof fn lemma_first_match(ws: Seq<WindowView>, p: spec_fn(WindowView) -> bool)
    ensures
        match first_match(ws, p) {
            Some(i) => {
                &&& 0 <= i < ws.len()
                &&& p(ws[i])
                &&& forall|k: int| 0 <= k < i ==> !p(#[trigger] ws[k])
            },
            None => forall|k: int| 0 <= k < ws.len() ==> !p(#[trigger] ws[k]),
        },
    decreases ws.len(),
{
    if ws.len() > 0 {
        let d = ws.drop_first();
        lemma_first_match(d, p);
        if !p(ws[0]) {
            match first_match(d, p) {
                Some(i) => {
                    assert(ws[i + 1] == d[i]);
                    assert forall|k: int| 0 <= k < i + 1 implies !p(#[trigger] ws[k]) by {
                        if k > 0 {
                            assert(ws[k] == d[k - 1]);
                        }
                    }
                },
                None => {
                    assert forall|k: int| 0 <= k < ws.len() implies !p(#[trigger] ws[k]) by {
                        if k > 0 {
                            assert(ws[k] == d[k - 1]);
                        }
                    }
                },
            }
        }
    }
}

/// Opening the same application twice in a row changes nothing the second
/// time: no window is added and the same window stays active.
pub proof fn law_open_app_idempotent(s0: UiState, s1: UiState, s2: UiState, kind: AppKind)
    requires
        app_opened(s0, s1, kind),
        app_opened(s1, s2, kind),
    ensures
        s2.wins() == s1.wins(),
        s2.active == s1.active,
        s2.next_id == s1.next_id,
{
    let ws = s0.wins();
    let vs = s1.wins();
    lemma_first_match(ws, open_of(kind));
    lemma_first_match(ws, of_kind(kind));
    match first_match(ws, open_of(kind)) {
        Some(i) => {
            assert forall|k: int| 0 <= k < i implies !open_of(kind)(#[trigger] vs[k]) by {
                assert(vs[k] == ws[k]);
            }
            lemma_first_match_at(vs, open_of(kind), i);
            assert(vs.update(i, restored(vs[i])) =~= vs);
        },
        None => match first_match(ws, of_kind(kind)) {
            Some(i) => {
                assert forall|k: int| 0 <= k < i implies !open_of(kind)(#[trigger] vs[k]) by {
                    assert(vs[k] == ws[k]);
                    assert(!of_kind(kind)(ws[k]));
                }
                lemma_first_match_at(vs, open_of(kind), i);
                assert(vs.update(i, restored(vs[i])) =~= vs);
            },
            None => {
                let n = ws.len() as int;
                assert forall|k: int| 0 <= k < n implies !open_of(kind)(#[trigger] vs[k]) by {
                    assert(vs[k] == ws[k]);
                }
                lemma_first_match_at(vs, open_of(kind), n);
                assert(vs.update(n, restored(vs[n])) =~= vs);
            },
        },
    }
}

/// Flipping a window's minimised flag twice gives back the windows as they
/// were (which window is active may differ).
pub proof fn law_toggle_twice_restores_windows(s0: UiState, s1: UiState, s2: UiState, id: u64)
    requires
        minimize_toggled(s0, s1, id),
        minimize_toggled(s1, s2, id),
    ensures
        s2.wins() == s0.wins(),
{
    let ws = s0.wins();
    let vs = s1.wins();
    lemma_first_match(ws, with_id(id));
    match first_match(ws, with_id(id)) {
        None => {},
        Some(i) => {
            assert forall|k: int| 0 <= k < i implies !with_id(id)(#[trigger] vs[k]) by {
                assert(vs[k] == ws[k]);
            }
            lemma_first_match_at(vs, with_id(id), i);
            assert(vs.update(i, flipped(vs[i])) =~= ws);
        },
    }
}

/// With distinct shown windows, Alt+Tab from the `k`-th shown window goes
/// to the next one, and from the last back to the first.
pub proof fn law_alt_tab_next(ids: Seq<u64>, k: int)
    requires
        forall|i: int, j: int| 0 <= i < j < ids.len() ==> ids[i] != ids[j],
        0 <= k < ids.len(),
    ensures
        alt_tab_target(ids, Some(ids[k])) == ids[(k + 1) % (ids.len() as int)],
        k + 1 == ids.len() ==> alt_tab_target(ids, Some(ids[k])) == ids[0],
{
    assert forall|j: int| 0 <= j < k implies #[trigger] ids[j] != ids[k] by {}
    lemma_position_of_at(ids, ids[k], k);
}

/// The values of the windows `v`, in order.
pub open spec fn window_views(v: Seq<AppWindow>) -> Seq<WindowView> {
    v.map_values(|w: AppWindow| w@)
}

/// The fields that only the window operations leave alone are unchanged.
pub open spec fn same_extras(a: UiState, b: UiState) -> bool {
    &&& b.start_open == a.start_open
    &&& b.search@ == a.search@
    &&& b.alt_tab_hint == a.alt_tab_hint
}

/// `after` is `before` once the application `kind` has been opened: an open
/// window of that kind is restored and activated; else a closed one is
/// reopened and activated; else a new window is added and activated.
pub open spec fn app_opened(before: UiState, after: UiState, kind: AppKind) -> bool {
    let ws = before.wins();
    &&& same_extras(before, after)
    &&& match first_match(ws, open_of(kind)) {
        Some(i) => {
            &&& after.wins() == ws.update(i, restored(ws[i]))
            &&& after.active == Some(ws[i].id)
            &&& after.next_id == before.next_id
        },
        None => match first_match(ws, of_kind(kind)) {
            Some(i) => {
                &&& after.wins() == ws.update(i, reopened(ws[i]))
                &&& after.active == Some(ws[i].id)
                &&& after.next_id == before.next_id
            },
            None => {
                &&& after.wins() == ws.push(new_window(before.next_id, kind))
                &&& after.active == Some(before.next_id)
                &&& after.next_id == before.next_id + 1
            },
        },
    }
}

/// `after` is `before` once window `id` has had its minimised flag flipped;
/// minimising the active window activates the first other shown window.
pub open spec fn minimize_toggled(before: UiState, after: UiState, id: u64) -> bool {
    let ws = before.wins();
    &&& same_extras(before, after)
    &&& after.next_id == before.next_id
    &&& match first_match(ws, with_id(id)) {
        None => after.wins() == ws && after.active == before.active,
        Some(i) => {
            &&& after.wins() == ws.update(i, flipped(ws[i]))
            &&& after.active == if !ws[i].minimized && before.active == Some(id) {
                first_id(after.wins(), visible_except(id))
            } else {
                before.active
            }
        },
    }
}

/// `after` is `before` once the open window `id` has been activated (and
/// restored); nothing changes when there is no such window.
pub open spec fn window_activated(before: UiState, after: UiState, id: u64) -> bool {
    let ws = before.wins();
    &&& same_extras(before, after)
    &&& after.next_id == before.next_id
    &&& match first_match(ws, open_with_id(id)) {
        None => after.wins() == ws && after.active == before.active,
        Some(i) => after.wins() == ws.update(i, restored(ws[i])) && after.active == Some(id),
    }
}

/// The desktop's window state.
#[derive(Debug)]
pub struct UiState {
    pub start_open: bool,
    pub search: String,
    pub windows: Vec<AppWindow>,
    pub next_id: u64,
    pub active: Option<u64>,
    /// The window that Alt+Tab last switched to.
    pub alt_tab_hint: Option<u64>,
}

impl UiState {
    /// The windows' values, in order.
    pub open spec fn wins(&self) -> Seq<WindowView> {
        window_views(self.windows@)
    }

    /// Well-formedness: window ids are distinct and below `next_id`.
    pub open spec fn wf(&self) -> bool {
        ids_ok(self.wins(), self.next_id)
    }

    /// A desktop with no windows; the next window gets id 1.
    pub fn new() -> (r: Self)
        ensures
            r.wf(),
            r.wins() == Seq::<WindowView>::empty(),
            r.next_id == 1,
            r.active is None,
            !r.start_open,
            r.search@ == Seq::<char>::empty(),
            r.alt_tab_hint is None,
    {
        let r = UiState {
            start_open: false,
            search: String::new(),
            windows: Vec::new(),
            next_id: 1,
            active: None,
            alt_tab_hint: None,
        };
        assert(r.wins() =~= Seq::<WindowView>::empty());
        r
    }

    /// Replaces window `i` by itself with `minimized` (and `open`) set.
    fn set_flags(&mut self, i: usize, open: bool, minimized: bool)
        requires
            i < old(self).windows.len(),
        ensures
            final(self).wins() == old(self).wins().update(
                i as int,
                WindowView { open, minimized, ..old(self).wins()[i as int] },
            ),
            final(self).next_id == old(self).next_id,
            final(self).active == old(self).active,
            final(self).start_open == old(self).start_open,
            final(self).search == old(self).search,
            final(self).alt_tab_hint == old(self).alt_tab_hint,
    {
        let mut w = self.windows.remove(i);
        w.open = open;
        w.minimized = minimized;
        self.windows.insert(i, w);
        assert(self.wins() =~= old(self).wins().update(
            i as int,
            WindowView { open, minimized, ..old(self).wins()[i as int] },
        ));
    }

    /// Opens an application: an open window of that kind is restored and
    /// activated; else a closed one is reopened and activated; else a new
    /// window is made (a file manager at `haavk://home`, a fresh terminal or
    /// browser). Only a new window takes an id, so only then must `next_id`
    /// have room to grow.
    #[verifier::loop_isolation(false)]
    pub fn open_app(&mut self, kind: AppKind)
        requires
            old(self).wf(),
            first_match(old(self).wins(), of_kind(kind)) is None ==> old(self).next_id < u64::MAX,
        ensures
            final(self).wf(),
            app_opened(*old(self), *final(self), kind),
    {
        let ghost ws = self.wins();
        let mut i: usize = 0;
        while i < self.windows.len()
            invariant
                i <= self.windows.len(),
                ws == self.wins(),
                *self == *old(self),
                forall|k: int| 0 <= k < i ==> !open_of(kind)(#[trigger] ws[k]),
            decreases self.windows.len() - i,
        {
            if self.windows[i].kind == kind && self.windows[i].open {
                proof {
                    lemma_first_match_at(ws, open_of(kind), i as int);
                }
                let id = self.windows[i].id;
                let open = self.windows[i].open;
                self.set_flags(i, open, false);
                self.active = Some(id);
                assert(self.wins() =~= ws.update(i as int, restored(ws[i as int])));
                proof {
                    lemma_ids_ok_update(ws, self.next_id, i as int, restored(ws[i as int]));
                }
                return;
            }
            i = i + 1;
        }
        proof {
            lemma_first_match_none(ws, open_of(kind));
        }
        let mut j: usize = 0;
        while j < self.windows.len()
            invariant
                j <= self.windows.len(),
                ws == self.wins(),
                *self == *old(self),
                forall|k: int| 0 <= k < j ==> !of_kind(kind)(#[trigger] ws[k]),
            decreases self.windows.len() - j,
        {
            if self.windows[j].kind == kind {
                proof {
                    lemma_first_match_at(ws, of_kind(kind), j as int);
                }
                let id = self.windows[j].id;
                self.set_flags(j, true, false);
                self.active = Some(id);
                assert(self.wins() =~= ws.update(j as int, reopened(ws[j as int])));
                proof {
                    lemma_ids_ok_update(ws, self.next_id, j as int, reopened(ws[j as int]));
                }
                return;
            }
            j = j + 1;
        }
        proof {
            lemma_first_match_none(ws, of_kind(kind));
        }
        let id = self.next_id;
        self.next_id = self.next_id + 1;
        let files = if kind == AppKind::Files {
            Some(FilesState::root())
        } else {
            None
        };
        let terminal = if kind == AppKind::Terminal {
            Some(TerminalState::default())
        } else {
            None
        };
        let browser = if kind == AppKind::Browser {
            Some(BrowserState::default())
        } else {
            None
        };
        self.windows.push(AppWindow { id, kind, open: true, minimized: false, files, terminal, browser });
        self.active = Some(id);
        assert(self.wins() =~= ws.push(new_window(id, kind)));
        assert(ids_ok(self.wins(), self.next_id)) by {
            let t = self.wins();
            assert forall|a: int, b: int| 0 <= a < b < t.len() implies (#[trigger] t[a]).id != (#[trigger] t[b]).id by {
                if b == ws.len() {
                    assert(ws[a].id < id);
                } else {
                    assert(t[a] == ws[a] && t[b] == ws[b]);
                }
            }
            assert forall|a: int| 0 <= a < t.len() implies (#[trigger] t[a]).id < self.next_id by {
                if a < ws.len() {
                    assert(t[a] == ws[a]);
                }
            }
        }
    }

    /// Flips whether window `id` is minimised; minimising the active window
    /// activates the first other shown window (or none).
    #[verifier::loop_isolation(false)]
    pub fn toggle_minimize(&mut self, id: u64)
        requires
            old(self).wf(),
        ensures
            final(self).wf(),
            minimize_toggled(*old(self), *final(self), id),
    {
        let ghost ws = self.wins();
        let mut i: usize = 0;
        while i < self.windows.len()
            invariant
                i <= self.windows.len(),
                ws == self.wins(),
                *self == *old(self),
                forall|k: int| 0 <= k < i ==> !with_id(id)(#[trigger] ws[k]),
            decreases self.windows.len() - i,
        {
            if self.windows[i].id == id {
                proof {
                    lemma_first_match_at(ws, with_id(id), i as int);
                }
                let open = self.windows[i].open;
                let now_min = !self.windows[i].minimized;
                self.set_flags(i, open, now_min);
                assert(self.wins() =~= ws.update(i as int, flipped(ws[i as int])));
                proof {
                    lemma_ids_ok_update(ws, self.next_id, i as int, flipped(ws[i as int]));
                }
                if now_min && self.active == Some(id) {
                    self.active = self.first_visible_except(id);
                }
                return;
            }
            i = i + 1;
        }
        proof {
            lemma_first_match_none(ws, with_id(id));
        }
    }

    /// The id of the first shown window other than `id`.
    #[verifier::loop_isolation(false)]
    fn first_visible_except(&self, id: u64) -> (r: Option<u64>)
        ensures
            r == first_id(self.wins(), visible_except(id)),
    {
        let ghost ws = self.wins();
        let mut i: usize = 0;
        while i < self.windows.len()
            invariant
                i <= self.windows.len(),
                ws == self.wins(),
                forall|k: int| 0 <= k < i ==> !visible_except(id)(#[trigger] ws[k]),
            decreases self.windows.len() - i,
        {
            if self.windows[i].id != id && self.windows[i].open && !self.windows[i].minimized {
                proof {
                    lemma_first_match_at(ws, visible_except(id), i as int);
                }
                return Some(self.windows[i].id);
            }
            i = i + 1;
        }
        proof {
            lemma_first_match_none(ws, visible_except(id));
        }
        None
    }

    /// The id of the first shown window.
    #[verifier::loop_isolation(false)]
    fn first_visible(&self) -> (r: Option<u64>)
        ensures
            r == first_id(self.wins(), visible()),
    {
        let ghost ws = self.wins();
        let mut i: usize = 0;
        while i < self.windows.len()
            invariant
                i <= self.windows.len(),
                ws == self.wins(),
                forall|k: int| 0 <= k < i ==> !visible()(#[trigger] ws[k]),
            decreases self.windows.len() - i,
        {
            if self.windows[i].open && !self.windows[i].minimized {
                proof {
                    lemma_first_match_at(ws, visible(), i as int);
                }
                return Some(self.windows[i].id);
            }
            i = i + 1;
        }
        proof {
            lemma_first_match_none(ws, visible());
        }
        None
    }

    /// Activates the open window `id`, restoring it if minimised.
    #[verifier::loop_isolation(false)]
    pub fn activate(&mut self, id: u64)
        requires
            old(self).wf(),
        ensures
            final(self).wf(),
            window_activated(*old(self), *final(self), id),
    {
        let ghost ws = self.wins();
        let mut i: usize = 0;
        while i < self.windows.len()
            invariant
                i <= self.windows.len(),
                ws == self.wins(),
                *self == *old(self),
                forall|k: int| 0 <= k < i ==> !open_with_id(id)(#[trigger] ws[k]),
            decreases self.windows.len() - i,
        {
            if self.windows[i].id == id && self.windows[i].open {
                proof {
                    lemma_first_match_at(ws, open_with_id(id), i as int);
                }
                let open = self.windows[i].open;
                self.set_flags(i, open, false);
                self.active = Some(id);
                assert(self.wins() =~= ws.update(i as int, restored(ws[i as int])));
                proof {
                    lemma_ids_ok_update(ws, self.next_id, i as int, restored(ws[i as int]));
                }
                return;
            }
            i = i + 1;
        }
        proof {
            lemma_first_match_none(ws, open_with_id(id));
        }
    }

    /// The ids of the shown windows, in window order.
    fn visible_window_ids(&self) -> (r: Vec<u64>)
        ensures
            r@ == visible_ids(self.wins()),
    {
        let ghost ws = self.wins();
        let mut ids: Vec<u64> = Vec::new();
        let mut i: usize = 0;
        while i < self.windows.len()
            invariant
                i <= self.windows.len(),
                ws == self.wins(),
                ids@ == visible_ids(ws.take(i as int)),
            decreases self.windows.len() - i,
        {
            assert(ws.take(i as int + 1).drop_last() =~= ws.take(i as int));
            if self.windows[i].open && !self.windows[i].minimized {
                ids.push(self.windows[i].id);
            }
            i = i + 1;
        }
        assert(ws.take(i as int) =~= ws);
        ids
    }

    /// Alt+Tab: activates the shown window after the active one (cyclically)
    /// and remembers it as the switch hint; nothing happens when no window
    /// is shown.
    #[verifier::loop_isolation(false)]
    pub fn alt_tab(&mut self)
        ensures
            final(self).wins() == old(self).wins(),
            final(self).next_id == old(self).next_id,
            final(self).start_open == old(self).start_open,
            final(self).search@ == old(self).search@,
            visible_ids(old(self).wins()).len() == 0 ==> {
                &&& final(self).active == old(self).active
                &&& final(self).alt_tab_hint == old(self).alt_tab_hint
            },
            visible_ids(old(self).wins()).len() > 0 ==> {
                &&& final(self).active == Some(alt_tab_target(visible_ids(old(self).wins()), old(self).active))
                &&& final(self).alt_tab_hint == final(self).active
            },
    {
        let ids = self.visible_window_ids();
        if ids.len() == 0 {
            return;
        }
        let mut from: usize = 0;
        if let Some(a) = self.active {
            let mut k: usize = 0;
            while k < ids.len()
                invariant
                    k <= ids.len(),
                    from == 0,
                    forall|j: int| 0 <= j < k ==> #[trigger] ids@[j] != a,
                decreases ids.len() - k,
            {
                if ids[k] == a {
                    proof {
                        lemma_position_of_at(ids@, a, k as int);
                    }
                    from = k;
                    break;
                }
                k = k + 1;
            }
            if k == ids.len() {
                proof {
                    lemma_position_of_none(ids@, a);
                }
            }
        }
        assert(from == alt_tab_from(ids@, self.active));
        let next = ids[(from + 1) % ids.len()];
        self.active = Some(next);
        self.alt_tab_hint = Some(next);
    }

    /// Drops the closed windows, keeping the others in order. An active
    /// window that was dropped is no longer active, and when no window is
    /// active the first shown one becomes active.
    pub fn remove_closed(&mut self)
        requires
            old(self).wf(),
        ensures
            final(self).wf(),
            final(self).wins() == open_windows(old(self).wins()),
            final(self).next_id == old(self).next_id,
            same_extras(*old(self), *final(self)),
            final(self).active == {
                let kept = match old(self).active {
                    Some(a) => if closed_id(old(self).wins(), a) {
                        None
                    } else {
                        Some(a)
                    },
                    None => None,
                };
                if kept is None {
                    first_id(final(self).wins(), visible())
                } else {
                    kept
                }
            },
    {
        let ghost ws = self.wins();
        let ghost a0 = self.active;
        assert(ws.len() == self.windows.len());
        let mut rest: Vec<AppWindow> = Vec::new();
        std::mem::swap(&mut rest, &mut self.windows);
        assert(window_views(rest@) =~= ws.skip(0));
        assert(self.wins() =~= open_windows(ws.take(0)));
        let mut i: usize = 0;
        while rest.len() > 0
            invariant
                i <= ws.len(),
                ws.len() <= usize::MAX,
                window_views(rest@) == ws.skip(i as int),
                self.wins() == open_windows(ws.take(i as int)),
                self.next_id == old(self).next_id,
                same_extras(*old(self), *self),
                ws == old(self).wins(),
                a0 == old(self).active,
                self.active == match a0 {
                    Some(a) => if closed_id(ws.take(i as int), a) {
                        None
                    } else {
                        Some(a)
                    },
                    None => None,
                },
            decreases rest.len(),
        {
            let ghost before = self.wins();
            let ghost rv = rest@;
            proof {
                assert(window_views(rv).len() == ws.skip(i as int).len());
                assert(window_views(rv)[0] == ws.skip(i as int)[0]);
            }
            let w = rest.remove(0);
            let ghost wv = w@;
            proof {
                assert(rv[0] == w);
                assert(w@ == ws[i as int]);
                assert forall|k: int| 0 <= k < rest@.len() implies #[trigger] window_views(rest@)[k] == ws.skip(i as int + 1)[k] by {
                    assert(rest@[k] == rv[k + 1]);
                    assert(window_views(rv)[k + 1] == ws.skip(i as int)[k + 1]);
                }
                assert(window_views(rest@) =~= ws.skip(i as int + 1));
                assert(ws.take(i as int + 1).drop_last() =~= ws.take(i as int));
                assert(ws.take(i as int + 1).last() == ws[i as int]);
            }
            if w.open {
                self.windows.push(w);
                assert(self.wins() =~= before.push(w@));
            } else {
                if let Some(a) = self.active {
                    if a == w.id {
                        self.active = None;
                    }
                }
            }
            proof {
                let t = ws.take(i as int);
                let t1 = ws.take(i as int + 1);
                if let Some(a) = a0 {
                    if closed_id(t, a) {
                        let j = choose|j: int| 0 <= j < t.len() && !(#[trigger] t[j]).open && t[j].id == a;
                        assert(t1[j] == t[j]);
                    }
                    if closed_id(t1, a) && !closed_id(t, a) {
                        let j = choose|j: int| 0 <= j < t1.len() && !(#[trigger] t1[j]).open && t1[j].id == a;
                        if j < i {
                            assert(t[j] == t1[j]);
                        }
                    }
                    if !wv.open && wv.id == a {
                        assert(t1[i as int] == wv);
                    }
                }
            }
            i = i + 1;
        }
        assert(ws.take(i as int) =~= ws);
        proof {
            lemma_open_windows_ids(ws, self.next_id);
        }
        if self.active.is_none() {
            self.active = self.first_visible();
        }
    }

    /// Carries out a desktop action; returns whether the action asks the
    /// desktop to exit (the caller then shuts the core down).
    pub fn apply(&mut self, action: Action) -> (exit: bool)
        requires
            old(self).wf(),
            action matches Action::Open(k) ==> (first_match(old(self).wins(), of_kind(k)) is None
                ==> old(self).next_id < u64::MAX),
        ensures
            final(self).wf(),
            exit == (action is Exit),
            match action {
                Action::NoAction => *final(self) == *old(self),
                Action::Exit => *final(self) == *old(self),
                Action::Open(kind) => app_opened(*old(self), *final(self), kind),
                Action::ToggleStart => {
                    &&& final(self).start_open == !old(self).start_open
                    &&& final(self).wins() == old(self).wins()
                    &&& final(self).search@ == old(self).search@
                    &&& final(self).active == old(self).active
                    &&& final(self).alt_tab_hint == old(self).alt_tab_hint
                    &&& final(self).next_id == old(self).next_id
                },
                Action::Activate(id) => window_activated(*old(self), *final(self), id),
                Action::ToggleMinimize(id) => minimize_toggled(*old(self), *final(self), id),
            },
    {
        match action {
            Action::NoAction => false,
            Action::Open(kind) => {
                self.open_app(kind);
                false
            },
            Action::ToggleStart => {
                self.start_open = !self.start_open;
                false
            },
            Action::Activate(id) => {
                self.activate(id);
                false
            },
            Action::ToggleMinimize(id) => {
                self.toggle_minimize(id);
                false
            },
            Action::Exit => true,
        }
    }

    /// Closes the shown window `id` (its close button): it is marked closed,
    /// and is no longer active if it was; `remove_closed` drops it later.
    #[verifier::loop_isolation(false)]
    pub fn close(&mut self, id: u64)
        requires
            old(self).wf(),
        ensures
            final(self).wf(),
            final(self).next_id == old(self).next_id,
            same_extras(*old(self), *final(self)),
            match first_match(old(self).wins(), visible_with_id(id)) {
                None => final(self).wins() == old(self).wins() && final(self).active == old(self).active,
                Some(i) => {
                    &&& final(self).wins() == old(self).wins().update(i, closed(old(self).wins()[i]))
                    &&& final(self).active == if old(self).active == Some(id) {
                        None
                    } else {
                        old(self).active
                    }
                },
            },
    {
        let ghost ws = self.wins();
        let mut i: usize = 0;
        while i < self.windows.len()
            invariant
                i <= self.windows.len(),
                ws == self.wins(),
                *self == *old(self),
                forall|k: int| 0 <= k < i ==> !visible_with_id(id)(#[trigger] ws[k]),
            decreases self.windows.len() - i,
        {
            if self.windows[i].id == id && self.windows[i].open && !self.windows[i].minimized {
                proof {
                    lemma_first_match_at(ws, visible_with_id(id), i as int);
                }
                let minimized = self.windows[i].minimized;
                self.set_flags(i, false, minimized);
                assert(self.wins() =~= ws.update(i as int, closed(ws[i as int])));
                proof {
                    lemma_ids_ok_update(ws, self.next_id, i as int, closed(ws[i as int]));
                }
                if let Some(a) = self.active {
                    if a == id {
                        self.active = None;
                    }
                }
                return;
            }
            i = i + 1;
        }
        proof {
            lemma_first_match_none(ws, visible_with_id(id));
        }
    }
}

} // verus!
