//! The file manager's navigation state: the current `haavk://` path and a
//! history with back and forward.
use vstd::prelude::*;

use crate::text::{
    chars_le, chars_of, owned, push_char, push_chars, push_str, seq_le, str_eq, string_of,
    strip_trailing, strip_trailing_end, trim_prefix_all, trim_start_matches,
};
use crate::vfs::{mount_view, resolve_spec, MountPoint, Vfs};

verus! {

/// The state of one file manager window.
#[derive(Debug)]
pub struct FilesState {
    /// The path shown (the address bar may edit it).
    pub vpath: String,
    pub history: Vec<String>,
    pub hist_idx: usize,
    pub selected: Option<String>,
}

/// The value of a file manager state: path, history, position, selection.
pub struct FilesView {
    pub vpath: Seq<char>,
    pub history: Seq<Seq<char>>,
    pub hist_idx: int,
    pub selected: Option<Seq<char>>,
}

/// `after` is `before` once `vpath` has been navigated to: what lay ahead
/// in the history is dropped, `vpath` becomes the newest entry and the
/// current path, and the selection is cleared.
pub open spec fn navigated(before: FilesView, after: FilesView, vpath: Seq<char>) -> bool {
    &&& after.history == before.history.take(before.hist_idx + 1).push(vpath)
    &&& after.hist_idx == before.hist_idx + 1
    &&& after.vpath == vpath
    &&& after.selected is None
}

/// `after` is `before` once "back" was pressed: one step back in the
/// history where there is one, else nothing changes.
pub open spec fn went_back(before: FilesView, after: FilesView) -> bool {
    if before.hist_idx > 0 {
        &&& after.history == before.history
        &&& after.hist_idx == before.hist_idx - 1
        &&& after.vpath == before.history[before.hist_idx - 1]
        &&& after.selected is None
    } else {
        after == before
    }
}

/// `after` is `before` once "forward" was pressed: one step forward in the
/// history where there is one, else nothing changes.
pub open spec fn went_forward(before: FilesView, after: FilesView) -> bool {
    if before.hist_idx + 1 < before.history.len() {
        &&& after.history == before.history
        &&& after.hist_idx == before.hist_idx + 1
        &&& after.vpath == before.history[before.hist_idx + 1]
        &&& after.selected is None
    } else {
        after == before
    }
}

impl FilesState {
    /// The value of the state.
    pub open spec fn view(&self) -> FilesView {
        FilesView {
            vpath: self.vpath@,
            history: self.history@.map_values(|h: String| h@),
            hist_idx: self.hist_idx as int,
            selected: match self.selected {
                Some(s) => Some(s@),
                None => None,
            },
        }
    }

    /// Well-formedness: the position is inside the history.
    pub open spec fn wf(&self) -> bool {
        self.hist_idx < self.history.len()
    }

    /// The state a new window starts in: at `haavk://home`.
    pub fn root() -> (r: Self)
        ensures
            r.wf(),
            r@.vpath == "haavk://home"@,
            r@.history == seq!["haavk://home"@],
            r@.hist_idx == 0,
            r@.selected is None,
    {
        let mut history: Vec<String> = Vec::new();
        history.push(owned("haavk://home"));
        let r = FilesState { vpath: owned("haavk://home"), history, hist_idx: 0, selected: None };
        assert(r@.history =~= seq!["haavk://home"@]);
        r
    }

    /// The host directory the current path resolves to.
    pub fn current_host(&self, vfs: &Vfs) -> (r: Option<String>)
        ensures
            match resolve_spec(vfs.prefix(), vfs.table(), self.vpath@) {
                Some(p) => r matches Some(s) && s@ == p,
                None => r is None,
            },
    {
        vfs.resolve(self.vpath.as_str())
    }

    /// Goes to `vpath`: what lay ahead in the history is dropped, `vpath`
    /// becomes the newest entry, and the selection is cleared.
    pub fn navigate(&mut self, vpath: String)
        requires
            old(self).wf(),
        ensures
            final(self).wf(),
            navigated(old(self)@, final(self)@, vpath@),
    {
        let ghost before = self.history@;
        self.history.truncate(self.hist_idx + 1);
        let copy = owned(vpath.as_str());
        self.history.push(copy);
        assert(self.history@ =~= before.take(old(self).hist_idx + 1).push(copy));
        assert(self@.history =~= old(self)@.history.take(old(self)@.hist_idx + 1).push(vpath@));
        self.hist_idx = self.hist_idx + 1;
        self.vpath = vpath;
        self.selected = None;
    }

    /// Goes into the entry `name` of the current directory: the current
    /// path without trailing `/`, then `/`, then `name`.
    pub fn enter(&mut self, name: &str)
        requires
            old(self).wf(),
        ensures
            final(self).wf(),
            navigated(old(self)@, final(self)@, strip_trailing(old(self)@.vpath, seq!['/']) + seq!['/'] + name@),
    {
        let v = chars_of(self.vpath.as_str());
        let slash = chars_of("/");
        proof {
            reveal_strlit("/");
        }
        assert(slash@ =~= seq!['/']);
        let e = crate::text::strip_trailing_end(&v, 0, v.len(), &slash);
        assert(v@.subrange(0, v.len() as int) =~= v@);
        let mut target = String::new();
        push_chars(&mut target, &v, 0, e);
        push_char(&mut target, '/');
        push_str(&mut target, name);
        assert(target@ =~= crate::text::strip_trailing(old(self)@.vpath, seq!['/']) + seq!['/'] + name@);
        self.navigate(target);
    }

    /// Goes one step back in the history, where there is a step back.
    pub fn back(&mut self)
        requires
            old(self).wf(),
        ensures
            final(self).wf(),
            went_back(old(self)@, final(self)@),
    {
        if self.hist_idx > 0 {
            self.hist_idx = self.hist_idx - 1;
            self.vpath = owned(self.history[self.hist_idx].as_str());
            self.selected = None;
        }
    }

    /// Goes one step forward in the history, where there is a step forward.
    pub fn forward(&mut self)
        requires
            old(self).wf(),
        ensures
            final(self).wf(),
            went_forward(old(self)@, final(self)@),
    {
        if self.hist_idx + 1 < self.history.len() {
            self.hist_idx = self.hist_idx + 1;
            self.vpath = owned(self.history[self.hist_idx].as_str());
            self.selected = None;
        }
    }

    /// Whether there is a step back.
    pub fn can_back(&self) -> (r: bool)
        ensures
            r == (self@.hist_idx > 0),
    {
        self.hist_idx > 0
    }

    /// Whether there is a step forward.
    pub fn can_forward(&self) -> (r: bool)
        requires
            self.wf(),
        ensures
            r == (self@.hist_idx + 1 < self@.history.len()),
    {
        self.hist_idx + 1 < self.history.len()
    }
}

/// Going back after navigating returns to the path the history held at the
/// position navigated from, and then going forward returns to the path
/// navigated to, at the newest end of the history.
pub proof fn law_navigate_back_forward(s0: FilesView, s1: FilesView, v: Seq<char>, s2: FilesView, s3: FilesView)
    requires
        0 <= s0.hist_idx < s0.history.len(),
        navigated(s0, s1, v),
        went_back(s1, s2),
        went_forward(s2, s3),
    ensures
        s2.vpath == s0.history[s0.hist_idx],
        s3.vpath == v,
        s3.hist_idx == s1.hist_idx,
        s3.hist_idx + 1 == s3.history.len(),
{
}

// ---------------------------------------------------------------------------
// The navigation panel and the directory listing
// ---------------------------------------------------------------------------

/// The navigation panel's entry for a mount with virtual path `vp` while
/// the window shows `current`: its label (the path without `haavk://`) and
/// whether it is the current place (the shown path without trailing `/`
/// is the mount's path).
pub open spec fn nav_entry(vp: Seq<char>, current: Seq<char>) -> (Seq<char>, bool) {
    (trim_prefix_all(vp, "haavk://"@), strip_trailing(current, seq!['/']) == vp)
}

/// A row of the directory listing: name, whether it is a directory, and
/// the modification time as shown.
pub type RowView = (Seq<char>, bool, Seq<char>);

/// The value of a row.
pub open spec fn row_view(r: (String, bool, String)) -> RowView {
    (r.0@, r.1, r.2@)
}

/// The values of rows.
pub open spec fn rows_view(s: Seq<(String, bool, String)>) -> Seq<RowView> {
    s.map_values(|r: (String, bool, String)| row_view(r))
}

/// `s` with `x` placed after every row whose name is not above its name.
pub open spec fn row_insert(s: Seq<RowView>, x: RowView) -> Seq<RowView>
    decreases s.len(),
{
    if s.len() == 0 {
        seq![x]
    } else if seq_le(s.last().0, x.0) {
        s.push(x)
    } else {
        row_insert(s.drop_last(), x).push(s.last())
    }
}

/// The rows ordered by name, rows with equal names keeping their order.
pub open spec fn sort_rows(s: Seq<RowView>) -> Seq<RowView>
    decreases s.len(),
{
    if s.len() == 0 {
        seq![]
    } else {
        row_insert(sort_rows(s.drop_last()), s.last())
    }
}

/// The rows that are (`dirs`) or are not directories, in order.
pub open spec fn rows_of_kind(s: Seq<RowView>, dirs: bool) -> Seq<RowView>
    decreases s.len(),
{
    if s.len() == 0 {
        seq![]
    } else {
        let r = rows_of_kind(s.drop_last(), dirs);
        if s.last().1 == dirs {
            r.push(s.last())
        } else {
            r
        }
    }
}

/// The listing as shown: the directories by name, then the files by name.
pub open spec fn listing_order(s: Seq<RowView>) -> Seq<RowView> {
    sort_rows(rows_of_kind(s, true)) + sort_rows(rows_of_kind(s, false))
}

proof fn lemma_row_insert_at(s: Seq<RowView>, x: RowView, j: int)
    requires
        0 <= j <= s.len(),
        forall|k: int| j <= k < s.len() ==> !seq_le(#[trigger] s[k].0, x.0),
        j > 0 ==> seq_le(s[j - 1].0, x.0),
    ensures
        row_insert(s, x) == s.take(j) + seq![x] + s.skip(j),
    decreases s.len() - j,
{
    if j == s.len() {
        assert(s.take(j) =~= s);
        if s.len() > 0 {
            assert(s.take(j) + seq![x] + s.skip(j) =~= s.push(x));
        } else {
            assert(s.take(j) + seq![x] + s.skip(j) =~= seq![x]);
        }
    } else {
        lemma_row_insert_at(s.drop_last(), x, j);
        assert(s.drop_last().take(j) + seq![x] + s.drop_last().skip(j) + seq![s.last()] =~= s.take(j)
            + seq![x] + s.skip(j));
    }
}

/// Inserts `e` into the name-ordered rows `out` after every row whose name
/// is not above its name.
fn insert_row(out: &mut Vec<(String, bool, String)>, e: (String, bool, String))
    ensures
        rows_view(final(out)@) == row_insert(rows_view(old(out)@), row_view(e)),
{
    let ev = chars_of(e.0.as_str());
    let mut j = out.len();
    while j > 0 && !chars_le(&chars_of(out[j - 1].0.as_str()), &ev)
        invariant
            j <= out.len(),
            ev@ == e.0@,
            forall|k: int| j <= k < out@.len() ==> !seq_le(#[trigger] out@[k].0@, ev@),
        decreases j,
    {
        j = j - 1;
    }
    let ghost before = rows_view(out@);
    proof {
        assert forall|k: int| j <= k < before.len() implies !seq_le(#[trigger] before[k].0, row_view(e).0) by {
            assert(before[k].0 == out@[k].0@);
        }
        if j > 0 {
            assert(before[j - 1].0 == out@[j - 1].0@);
        }
        lemma_row_insert_at(before, row_view(e), j as int);
    }
    out.insert(j, e);
    assert(rows_view(out@) =~= before.take(j as int) + seq![row_view(e)] + before.skip(j as int));
}

/// The rows of a directory as the file manager lists them: the
/// directories ordered by name, then the files ordered by name.
pub fn listing_rows(entries: &Vec<(String, bool, String)>) -> (r: Vec<(String, bool, String)>)
    ensures
        rows_view(r@) == listing_order(rows_view(entries@)),
{
    let ghost es = rows_view(entries@);
    let mut dirs: Vec<(String, bool, String)> = Vec::new();
    let mut files: Vec<(String, bool, String)> = Vec::new();
    let mut i: usize = 0;
    assert(es.take(0) =~= Seq::<RowView>::empty());
    while i < entries.len()
        invariant
            i <= entries.len(),
            es == rows_view(entries@),
            rows_view(dirs@) == sort_rows(rows_of_kind(es.take(i as int), true)),
            rows_view(files@) == sort_rows(rows_of_kind(es.take(i as int), false)),
        decreases entries.len() - i,
    {
        let x = (owned(entries[i].0.as_str()), entries[i].1, owned(entries[i].2.as_str()));
        assert(row_view(x) == es[i as int]);
        let ghost t = es.take(i as int);
        let ghost t1 = es.take(i as int + 1);
        assert(t1.drop_last() =~= t);
        assert(t1.last() == row_view(x));
        if x.1 {
            insert_row(&mut dirs, x);
            assert(rows_of_kind(t1, true) == rows_of_kind(t, true).push(row_view(x)));
            assert(rows_of_kind(t, true).push(row_view(x)).drop_last() =~= rows_of_kind(t, true));
            assert(rows_of_kind(t1, false) == rows_of_kind(t, false));
        } else {
            insert_row(&mut files, x);
            assert(rows_of_kind(t1, false) == rows_of_kind(t, false).push(row_view(x)));
            assert(rows_of_kind(t, false).push(row_view(x)).drop_last() =~= rows_of_kind(t, false));
            assert(rows_of_kind(t1, true) == rows_of_kind(t, true));
        }
        i = i + 1;
    }
    assert(es.take(i as int) =~= es);
    let ghost d = rows_view(dirs@);
    let ghost f = rows_view(files@);
    let mut r = dirs;
    let mut k: usize = 0;
    while k < files.len()
        invariant
            k <= files.len(),
            f == rows_view(files@),
            rows_view(r@) == d + f.take(k as int),
        decreases files.len() - k,
    {
        let ghost r0 = rows_view(r@);
        let x = (owned(files[k].0.as_str()), files[k].1, owned(files[k].2.as_str()));
        assert(row_view(x) == f[k as int]);
        r.push(x);
        assert(rows_view(r@) =~= r0.push(row_view(x)));
        assert(d + f.take(k + 1) =~= (d + f.take(k as int)).push(f[k as int]));
        k = k + 1;
    }
    assert(f.take(k as int) =~= f);
    r
}

impl FilesState {
    /// The navigation panel's entries, one per mount in mount order: label
    /// and whether it is the current place.
    pub fn nav_items(&self, vfs: &Vfs) -> (r: Vec<(String, bool)>)
        ensures
            r@.len() == vfs.table().len(),
            forall|i: int|
                0 <= i < r@.len() ==> ((#[trigger] r@[i]).0@, r@[i].1) == nav_entry(vfs.table()[i].0, self.vpath@),
    {
        let ms = vfs.mounts();
        let v = chars_of(self.vpath.as_str());
        let slash = chars_of("/");
        proof {
            reveal_strlit("/");
            reveal_strlit("haavk://");
        }
        assert(slash@ =~= seq!['/']);
        let e = strip_trailing_end(&v, 0, v.len(), &slash);
        assert(v@.subrange(0, v.len() as int) =~= v@);
        let cur = string_of(&v, 0, e);
        let mut r: Vec<(String, bool)> = Vec::new();
        let mut i: usize = 0;
        while i < ms.len()
            invariant
                i <= ms.len(),
                ms@.map_values(|m: MountPoint| mount_view(m)) == vfs.table(),
                cur@ == strip_trailing(self.vpath@, seq!['/']),
                "haavk://"@.len() > 0,
                r@.len() == i,
                forall|k: int|
                    0 <= k < i ==> ((#[trigger] r@[k]).0@, r@[k].1) == nav_entry(vfs.table()[k].0, self.vpath@),
            decreases ms.len() - i,
        {
            let vp = ms[i].virtual_path.as_str();
            assert(vfs.table()[i as int].0 == vp@);
            let label = trim_start_matches(vp, "haavk://");
            let current = str_eq(cur.as_str(), vp);
            r.push((label, current));
            i = i + 1;
        }
        r
    }
}

} // verus!
