//! The Mandel virtual file system: `haavk://` paths mapped onto host
//! directories through a table of mount points.
use vstd::prelude::*;

use crate::config::MandelConfig;
use crate::text::{
    chars_match_at, chars_of, concat2, find_char, has_prefix, idx_of, join_path, join_seq,
    join_strings, owned, path_join, push_str, str_eq, string_of,
};

verus! {

/// One mount point: a virtual path and the host directory it stands for.
#[derive(Debug)]
pub struct MountPoint {
    pub virtual_path: String,
    pub host_path: String,
}

/// The mount table.
pub struct Vfs {
    root_prefix: String,
    mounts: Vec<MountPoint>,
}

/// The value of a mount table entry: virtual path, host path.
pub open spec fn mount_view(m: MountPoint) -> (Seq<char>, Seq<char>) {
    (m.virtual_path@, m.host_path@)
}

/// The index of the first mount whose virtual path is `vpath`.
pub open spec fn first_mount(mounts: Seq<(Seq<char>, Seq<char>)>, vpath: Seq<char>) -> Option<int>
    decreases mounts.len(),
{
    if mounts.len() == 0 {
        None
    } else if mounts[0].0 == vpath {
        Some(0)
    } else {
        match first_mount(mounts.drop_first(), vpath) {
            Some(i) => Some(i + 1),
            None => None,
        }
    }
}

/// The host path that `vpath` resolves to: `vpath` must start with the
/// prefix; the piece after it up to the first `/` names the mount (the first
/// one whose virtual path is prefix + piece), and what follows that `/`, if
/// not empty, is pushed onto the mount's host path.
pub open spec fn resolve_spec(prefix: Seq<char>, mounts: Seq<(Seq<char>, Seq<char>)>, vpath: Seq<char>) -> Option<Seq<char>> {
    if !has_prefix(vpath, prefix) {
        None
    } else {
        let stripped = vpath.skip(prefix.len() as int);
        let i = idx_of(stripped, '/');
        let name = stripped.take(i as int);
        let rest = if i < stripped.len() {
            stripped.skip(i as int + 1)
        } else {
            seq![]
        };
        match first_mount(mounts, prefix + name) {
            None => None,
            Some(k) => if rest.len() == 0 {
                Some(mounts[k].1)
            } else {
                Some(path_join(mounts[k].1, rest))
            },
        }
    }
}

/// The host directories mounted when present: mount name and directory
/// under the user's home.
pub open spec fn optional_host_dirs() -> Seq<(Seq<char>, Seq<char>)> {
    seq![("documents"@, "Documents"@), ("downloads"@, "Downloads"@), ("pictures"@, "Pictures"@)]
}

/// The mounts that automatic mounting adds, given which of the optional host
/// directories are present.
pub open spec fn auto_mounts(prefix: Seq<char>, home: Seq<char>, user_home: Seq<char>, present: Seq<bool>) -> Seq<(Seq<char>, Seq<char>)> {
    let base = seq![(prefix + "system"@, home), (prefix + "home"@, user_home)];
    let d = optional_host_dirs();
    base + (if present[0] { seq![(prefix + d[0].0, path_join(user_home, d[0].1))] } else { seq![] }) + (if present[1] {
        seq![(prefix + d[1].0, path_join(user_home, d[1].1))]
    } else {
        seq![]
    }) + (if present[2] { seq![(prefix + d[2].0, path_join(user_home, d[2].1))] } else { seq![] })
}

/// The names of the automatic mounts differ from each other.
proof fn lemma_mount_names_differ()
    ensures
        "documents"@ != "downloads"@,
        "documents"@ != "pictures"@,
        "downloads"@ != "pictures"@,
        "system"@ != "documents"@,
        "system"@ != "downloads"@,
        "system"@ != "pictures"@,
        "home"@ != "documents"@,
        "home"@ != "downloads"@,
        "home"@ != "pictures"@,
{
    reveal_strlit("documents");
    reveal_strlit("downloads");
    reveal_strlit("pictures");
    reveal_strlit("system");
    reveal_strlit("home");
    assert("documents"@[2] == 'c' && "downloads"@[2] == 'w');
    assert("pictures"@[0] == 'p' && "system"@[0] == 's' && "home"@[0] == 'h');
    assert("documents"@[0] == 'd' && "downloads"@[0] == 'd');
}

/// Each optional host directory is mounted under its own name: where
/// `present` marks them, prefix + `documents` is the user's `Documents`,
/// prefix + `downloads` their `Downloads`, prefix + `pictures` their
/// `Pictures`; no other automatic mount takes these names.
pub proof fn law_auto_mount_dirs(prefix: Seq<char>, home: Seq<char>, user_home: Seq<char>, present: Seq<bool>)
    requires
        present.len() == 3,
    ensures
        ({
            let m = auto_mounts(prefix, home, user_home, present);
            &&& present[0] ==> m.contains((prefix + "documents"@, path_join(user_home, "Documents"@)))
            &&& present[1] ==> m.contains((prefix + "downloads"@, path_join(user_home, "Downloads"@)))
            &&& present[2] ==> m.contains((prefix + "pictures"@, path_join(user_home, "Pictures"@)))
            &&& forall|i: int| 0 <= i < m.len() && (#[trigger] m[i]).0 == prefix + "documents"@
                ==> m[i].1 == path_join(user_home, "Documents"@)
            &&& forall|i: int| 0 <= i < m.len() && (#[trigger] m[i]).0 == prefix + "downloads"@
                ==> m[i].1 == path_join(user_home, "Downloads"@)
            &&& forall|i: int| 0 <= i < m.len() && (#[trigger] m[i]).0 == prefix + "pictures"@
                ==> m[i].1 == path_join(user_home, "Pictures"@)
        }),
{
    lemma_mount_names_differ();
    let m = auto_mounts(prefix, home, user_home, present);
    let d = optional_host_dirs();
    assert forall|x: Seq<char>, y: Seq<char>| prefix + x == prefix + y implies x == y by {
        assert((prefix + x).skip(prefix.len() as int) =~= x);
        assert((prefix + y).skip(prefix.len() as int) =~= y);
    }
    let e0 = seq![(prefix + d[0].0, path_join(user_home, d[0].1))];
    let e1 = seq![(prefix + d[1].0, path_join(user_home, d[1].1))];
    let e2 = seq![(prefix + d[2].0, path_join(user_home, d[2].1))];
    let base = seq![(prefix + "system"@, home), (prefix + "home"@, user_home)];
    let s0 = if present[0] { e0 } else { seq![] };
    let s1 = if present[1] { e1 } else { seq![] };
    let s2 = if present[2] { e2 } else { seq![] };
    assert(m == base + s0 + s1 + s2);
    assert forall|i: int| 0 <= i < m.len() implies {
        ||| (#[trigger] m[i]) == base[0]
        ||| m[i] == base[1]
        ||| (present[0] && m[i] == e0[0])
        ||| (present[1] && m[i] == e1[0])
        ||| (present[2] && m[i] == e2[0])
    } by {
        if i < 2 {
            assert(m[i] == base[i]);
        } else if i < 2 + s0.len() {
            assert(m[i] == s0[i - 2]);
        } else if i < 2 + s0.len() + s1.len() {
            assert(m[i] == s1[i - 2 - s0.len()]);
        } else {
            assert(m[i] == s2[i - 2 - s0.len() - s1.len()]);
        }
    }
    if present[0] {
        assert(m[2] == e0[0]);
    }
    if present[1] {
        assert(m[(2 + s0.len()) as int] == e1[0]);
    }
    if present[2] {
        assert(m[(2 + s0.len() + s1.len()) as int] == e2[0]);
    }
}

/// One summary item: `virtual → host`.
pub open spec fn summary_item(m: (Seq<char>, Seq<char>)) -> Seq<char> {
    m.0 + " → "@ + m.1
}

impl Vfs {
    /// The virtual path prefix (`haavk://`).
    pub closed spec fn prefix(&self) -> Seq<char> {
        self.root_prefix@
    }

    /// The mount table, in mount order.
    pub closed spec fn table(&self) -> Seq<(Seq<char>, Seq<char>)> {
        self.mounts@.map_values(|m: MountPoint| mount_view(m))
    }

    /// An empty table with the configured prefix.
    pub fn new(config: &MandelConfig) -> (r: Self)
        ensures
            r.prefix() == config.vfs.root_prefix@,
            r.table() == Seq::<(Seq<char>, Seq<char>)>::empty(),
    {
        let r = Vfs { root_prefix: owned(config.vfs.root_prefix.as_str()), mounts: Vec::new() };
        assert(r.table() =~= Seq::<(Seq<char>, Seq<char>)>::empty());
        r
    }

    /// Mounts `host_path` as prefix + `virtual_name`.
    pub fn mount(&mut self, virtual_name: &str, host_path: &str)
        ensures
            final(self).prefix() == old(self).prefix(),
            final(self).table() == old(self).table().push((old(self).prefix() + virtual_name@, host_path@)),
    {
        let vpath = concat2(self.root_prefix.as_str(), virtual_name);
        self.mounts.push(MountPoint { virtual_path: vpath, host_path: owned(host_path) });
        assert(self.table() =~= old(self).table().push((old(self).prefix() + virtual_name@, host_path@)));
    }

    /// Mounts the HAAVK home as `system`, the user's home as `home`, then
    /// `documents`, `downloads` and `pictures` for those of the user's
    /// `Documents`, `Downloads` and `Pictures` that `present` marks as existing.
    pub fn auto_mount_host(&mut self, haavk_home: &str, user_home: &str, present: &[bool])
        requires
            present@.len() == 3,
        ensures
            final(self).prefix() == old(self).prefix(),
            final(self).table() == old(self).table() + auto_mounts(old(self).prefix(), haavk_home@, user_home@, present@),
    {
        self.mount("system", haavk_home);
        self.mount("home", user_home);
        let ghost t2 = self.table();
        if present[0] {
            let p = join_path(user_home, "Documents");
            self.mount("documents", p.as_str());
        }
        let ghost t3 = self.table();
        if present[1] {
            let p = join_path(user_home, "Downloads");
            self.mount("downloads", p.as_str());
        }
        let ghost t4 = self.table();
        if present[2] {
            let p = join_path(user_home, "Pictures");
            self.mount("pictures", p.as_str());
        }
        assert(self.table() =~= old(self).table() + auto_mounts(old(self).prefix(), haavk_home@, user_home@, present@));
    }

    /// The index of the first mount whose virtual path is `vpath`.
    fn find_mount(&self, vpath: &str) -> (r: Option<usize>)
        ensures
            first_mount(self.table(), vpath@) == match r {
                Some(k) => Some(k as int),
                None => None,
            },
            r matches Some(k) ==> k < self.mounts@.len() && self.table()[k as int].0 == vpath@,
    {
        let ghost t = self.table();
        let mut i: usize = 0;
        assert(t.skip(0) =~= t);
        while i < self.mounts.len()
            invariant
                i <= self.mounts.len(),
                t == self.table(),
                forall|j: int| 0 <= j < i ==> t[j].0 != vpath@,
            decreases self.mounts.len() - i,
        {
            if str_eq(self.mounts[i].virtual_path.as_str(), vpath) {
                proof {
                    lemma_first_mount_at(t, vpath@, i as int);
                }
                return Some(i);
            }
            i = i + 1;
        }
        proof {
            lemma_first_mount_none(t, vpath@);
        }
        None
    }

    /// The host path of the virtual path `virtual_path`.
    pub fn resolve(&self, virtual_path: &str) -> (r: Option<String>)
        ensures
            match resolve_spec(self.prefix(), self.table(), virtual_path@) {
                Some(p) => r matches Some(s) && s@ == p,
                None => r is None,
            },
    {
        let v = chars_of(virtual_path);
        let pv = chars_of(self.root_prefix.as_str());
        assert(v@.skip(0) =~= v@);
        if !chars_match_at(&v, 0, &pv) {
            return None;
        }
        let ghost stripped = v@.skip(pv.len() as int);
        let start = pv.len();
        let i = find_char(&v, start, v.len(), '/');
        assert(stripped =~= v@.subrange(start as int, v.len() as int));
        let name = string_of(&v, start, i);
        assert(name@ =~= stripped.take(idx_of(stripped, '/') as int));
        let candidate = concat2(self.root_prefix.as_str(), name.as_str());
        let k = match self.find_mount(candidate.as_str()) {
            Some(k) => k,
            None => {
                return None;
            },
        };
        let host = self.mounts[k].host_path.as_str();
        assert(self.table()[k as int] == mount_view(self.mounts@[k as int]));
        assert(self.table()[k as int].1 == host@);
        assert(first_mount(self.table(), self.prefix() + stripped.take(idx_of(stripped, '/') as int)) == Some(k as int));
        if i == v.len() || i + 1 == v.len() {
            if i < v.len() {
                assert(stripped.skip(i - start + 1) =~= Seq::<char>::empty());
            }
            return Some(owned(host));
        }
        let rest = string_of(&v, i + 1, v.len());
        assert(rest@ =~= stripped.skip(i - start + 1));
        Some(join_path(host, rest.as_str()))
    }

    /// The mount table.
    pub fn mounts(&self) -> (r: &[MountPoint])
        ensures
            r@.map_values(|m: MountPoint| mount_view(m)) == self.table(),
    {
        self.mounts.as_slice()
    }

    /// The virtual path prefix.
    pub fn root_prefix(&self) -> (r: &str)
        ensures
            r@ == self.prefix(),
    {
        self.root_prefix.as_str()
    }

    /// One line naming every mount: `virtual → host` items joined by ` | `.
    pub fn summary(&self) -> (r: String)
        ensures
            r@ == join_seq(self.table().map_values(|m: (Seq<char>, Seq<char>)| summary_item(m)), " | "@),
    {
        let mut items: Vec<String> = Vec::new();
        let mut i: usize = 0;
        while i < self.mounts.len()
            invariant
                i <= self.mounts.len(),
                items@.map_values(|s: String| s@) == self.table().take(i as int).map_values(
                    |m: (Seq<char>, Seq<char>)| summary_item(m),
                ),
            decreases self.mounts.len() - i,
        {
            let mut item = concat2(self.mounts[i].virtual_path.as_str(), " → ");
            push_str(&mut item, self.mounts[i].host_path.as_str());
            assert(self.table()[i as int] == mount_view(self.mounts@[i as int]));
            assert(item@ == summary_item(self.table()[i as int]));
            let ghost before = items@;
            items.push(item);
            assert(items@.map_values(|s: String| s@) =~= before.map_values(|s: String| s@).push(item@));
            assert(items@.map_values(|s: String| s@) =~= self.table().take(i + 1).map_values(
                |m: (Seq<char>, Seq<char>)| summary_item(m),
            ));
            i = i + 1;
        }
        assert(self.table().take(i as int) =~= self.table());
        join_strings(&items, " | ")
    }
}

proof fn lemma_first_mount_at(t: Seq<(Seq<char>, Seq<char>)>, vpath: Seq<char>, i: int)
    requires
        0 <= i < t.len(),
        t[i].0 == vpath,
        forall|j: int| 0 <= j < i ==> t[j].0 != vpath,
    ensures
        first_mount(t, vpath) == Some(i),
    decreases i,
{
    if i > 0 {
        lemma_first_mount_at(t.drop_first(), vpath, i - 1);
    }
}

proof fn lemma_first_mount_none(t: Seq<(Seq<char>, Seq<char>)>, vpath: Seq<char>)
    requires
        forall|j: int| 0 <= j < t.len() ==> t[j].0 != vpath,
    ensures
        first_mount(t, vpath) is None,
    decreases t.len(),
{
    if t.len() > 0 {
        lemma_first_mount_none(t.drop_first(), vpath);
    }
}

/// Resolving a path under a mount gives the mount's host path with the rest
/// of the path pushed on: where the first mount named prefix + `name` (a name
/// without `/`) maps to `host`, resolving prefix + `name` + `/` + `rest`
/// gives `host` with `rest` pushed on (`host` itself when `rest` is empty).
pub proof fn law_resolve_under_mount(
    prefix: Seq<char>,
    mounts: Seq<(Seq<char>, Seq<char>)>,
    name: Seq<char>,
    rest: Seq<char>,
    k: int,
)
    requires
        !name.contains('/'),
        first_mount(mounts, prefix + name) == Some(k),
    ensures
        resolve_spec(prefix, mounts, prefix + name + seq!['/'] + rest) == Some(
            if rest.len() == 0 {
                mounts[k].1
            } else {
                path_join(mounts[k].1, rest)
            },
        ),
        resolve_spec(prefix, mounts, prefix + name) == Some(mounts[k].1),
{
    let vp = prefix + name + seq!['/'] + rest;
    assert(vp.take(prefix.len() as int) =~= prefix);
    let stripped = vp.skip(prefix.len() as int);
    assert(stripped =~= name + seq!['/'] + rest);
    crate::text::lemma_idx_of(stripped, '/', name.len() as int);
    assert(stripped.take(name.len() as int) =~= name);
    assert(stripped.skip(name.len() as int + 1) =~= rest);
    let vp2 = prefix + name;
    assert(vp2.take(prefix.len() as int) =~= prefix);
    assert(vp2.skip(prefix.len() as int) =~= name);
    crate::text::lemma_idx_of(name, '/', name.len() as int);
    assert(name.take(name.len() as int) =~= name);
}

} // verus!
