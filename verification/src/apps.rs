//! `.hvk` application packages and the registry of installed applications.
//!
//! The registry keeps one entry per application id, in id order.
use vstd::prelude::*;

use crate::text::{
    chars_le, chars_of, lemma_seq_le_antisym, lemma_seq_le_total, lemma_seq_le_trans, owned,
    seq_le, seq_lt, str_eq,
};

verus! {

/// The manifest of an application package.
#[derive(Debug)]
pub struct AppManifest {
    pub id: String,
    pub name: String,
    pub version: String,
    /// `builtin`, `hvk` or `web`.
    pub kind: String,
    pub permissions: Vec<String>,
    pub description: String,
}

/// An installed application.
#[derive(Debug)]
pub struct InstalledApp {
    pub manifest: AppManifest,
    pub install_dir: String,
}

/// The version a manifest has where it names none.
pub fn default_version() -> (r: String)
    ensures
        r@ == "1.0.0"@,
{
    owned("1.0.0")
}

/// The kind a manifest has where it names none.
pub fn default_kind() -> (r: String)
    ensures
        r@ == "hvk"@,
{
    owned("hvk")
}

/// The views of a sequence of string slices.
pub open spec fn str_views(s: Seq<&str>) -> Seq<Seq<char>> {
    s.map_values(|p: &str| p@)
}

/// The id of an installed application.
pub open spec fn app_id(a: InstalledApp) -> Seq<char> {
    a.manifest.id@
}

/// The entries are in strictly increasing id order (so no id twice).
pub open spec fn sorted_by_id(s: Seq<InstalledApp>) -> bool {
    forall|i: int, j: int| 0 <= i < j < s.len() ==> seq_lt(app_id(#[trigger] s[i]), app_id(#[trigger] s[j]))
}

/// `a` is the application that registering `id`, `name`, `permissions` as a
/// built-in makes: version `1.0.0`, kind `builtin`, no description, no
/// install directory.
pub open spec fn is_builtin_app(a: InstalledApp, id: Seq<char>, name: Seq<char>, permissions: Seq<Seq<char>>) -> bool {
    &&& a.manifest.id@ == id
    &&& a.manifest.name@ == name
    &&& a.manifest.version@ == "1.0.0"@
    &&& a.manifest.kind@ == "builtin"@
    &&& a.manifest.permissions@.map_values(|p: String| p@) == permissions
    &&& a.manifest.description@ == Seq::<char>::empty()
    &&& a.install_dir@ == Seq::<char>::empty()
}

/// `e` was found and nothing found after it has its id: scanning keeps it.
pub open spec fn last_of_its_id(found: Seq<InstalledApp>, e: InstalledApp) -> bool {
    exists|i: int|
        0 <= i < found.len() && found[i] == e && forall|j: int| i < j < found.len() ==> app_id(#[trigger] found[j]) != app_id(e)
}

proof fn lemma_last_of_its_id_push(found: Seq<InstalledApp>, x: InstalledApp, e: InstalledApp)
    ensures
        last_of_its_id(found.push(x), e) <==> ((last_of_its_id(found, e) && app_id(e) != app_id(x)) || e == x),
{
    let f1 = found.push(x);
    if last_of_its_id(f1, e) {
        let i = choose|i: int|
            0 <= i < f1.len() && f1[i] == e && forall|j: int| i < j < f1.len() ==> app_id(#[trigger] f1[j]) != app_id(e);
        if i < found.len() {
            assert(found[i] == e);
            assert(app_id(f1[found.len() as int]) != app_id(e));
            assert forall|j: int| i < j < found.len() implies app_id(#[trigger] found[j]) != app_id(e) by {
                assert(found[j] == f1[j]);
            }
            assert(last_of_its_id(found, e));
        }
    }
    if e == x {
        assert(f1[found.len() as int] == e);
        assert(last_of_its_id(f1, e));
    } else if last_of_its_id(found, e) && app_id(e) != app_id(x) {
        let i = choose|i: int|
            0 <= i < found.len() && found[i] == e && forall|j: int| i < j < found.len() ==> app_id(#[trigger] found[j]) != app_id(e);
        assert(f1[i] == e);
        assert forall|j: int| i < j < f1.len() implies app_id(#[trigger] f1[j]) != app_id(e) by {
            if j < found.len() {
                assert(f1[j] == found[j]);
            }
        }
        assert(last_of_its_id(f1, e));
    }
}

/// The built-in applications, in the order they are registered: id, name,
/// permissions.
pub open spec fn builtin_apps() -> Seq<(Seq<char>, Seq<char>, Seq<Seq<char>>)> {
    seq![
        ("haavk.files"@, "全域节点"@, seq!["filesystem.read"@]),
        ("haavk.settings"@, "系统设置"@, seq!["hardware.read"@]),
        ("haavk.about"@, "关于HAAVK"@, seq![]),
        ("haavk.terminal"@, "终端"@, seq!["shell.exec"@]),
    ]
}

/// `id` is the id of a built-in application.
pub open spec fn is_builtin_id(id: Seq<char>) -> bool {
    exists|k: int| 0 <= k < builtin_apps().len() && #[trigger] builtin_apps()[k].0 == id
}

/// `after` is `before` with the built-in application `id`, `name`,
/// `permissions` registered: entries with other ids are unchanged, and
/// there is an entry with id `id`, which is that built-in application.
pub open spec fn registered(
    before: Seq<InstalledApp>,
    after: Seq<InstalledApp>,
    id: Seq<char>,
    name: Seq<char>,
    permissions: Seq<Seq<char>>,
) -> bool {
    &&& forall|e: InstalledApp| app_id(e) != id ==> (#[trigger] after.contains(e) <==> before.contains(e))
    &&& forall|e: InstalledApp| #[trigger] after.contains(e) && app_id(e) == id ==> is_builtin_app(e, id, name, permissions)
    &&& has_id(after, id)
}

/// `after` is `before` with all the built-in applications registered.
pub open spec fn builtins_registered(before: Seq<InstalledApp>, after: Seq<InstalledApp>) -> bool {
    let b = builtin_apps();
    &&& forall|e: InstalledApp| !is_builtin_id(app_id(e)) ==> (#[trigger] after.contains(e) <==> before.contains(e))
    &&& forall|k: int, e: InstalledApp|
        0 <= k < b.len() && #[trigger] after.contains(e) && app_id(e) == #[trigger] b[k].0 ==> is_builtin_app(
            e,
            b[k].0,
            b[k].1,
            b[k].2,
        )
    &&& forall|k: int| 0 <= k < b.len() ==> has_id(after, #[trigger] b[k].0)
}

/// Some entry of `s` has id `id`.
pub open spec fn has_id(s: Seq<InstalledApp>, id: Seq<char>) -> bool {
    exists|e: InstalledApp| #[trigger] s.contains(e) && app_id(e) == id
}

/// The registry of installed applications.
pub struct AppRegistry {
    apps: Vec<InstalledApp>,
}

impl AppRegistry {
    /// The entries, in id order.
    pub closed spec fn entries(&self) -> Seq<InstalledApp> {
        self.apps@
    }

    /// The entries are kept in strictly increasing id order.
    #[verifier::type_invariant]
    spec fn in_id_order(&self) -> bool {
        sorted_by_id(self.apps@)
    }

    /// An empty registry.
    pub fn new() -> (r: Self)
        ensures
            r.entries() == Seq::<InstalledApp>::empty(),
    {
        AppRegistry { apps: Vec::new() }
    }

    /// Removes every entry.
    pub fn clear(&mut self)
        ensures
            final(self).entries() == Seq::<InstalledApp>::empty(),
    {
        self.apps = Vec::new();
    }

    /// Adds `app`, replacing an entry with the same id.
    pub fn insert(&mut self, app: InstalledApp)
        ensures
            sorted_by_id(final(self).entries()),
            forall|e: InstalledApp|
                final(self).entries().contains(e) <==> ((old(self).entries().contains(e) && app_id(e) != app_id(app))
                    || e == app),
    {
        proof {
            use_type_invariant(&*self);
        }
        let mut v: Vec<InstalledApp> = Vec::new();
        std::mem::swap(&mut v, &mut self.apps);
        let ghost s = v@;
        let ghost id = app_id(app);
        let key = chars_of(app.manifest.id.as_str());
        let mut j: usize = 0;
        while j < v.len() && !chars_le(&key, &chars_of(v[j].manifest.id.as_str()))
            invariant
                s == v@,
                j <= v.len(),
                key@ == id,
                forall|k: int| 0 <= k < j ==> seq_lt(app_id(#[trigger] s[k]), id),
            decreases v.len() - j,
        {
            proof {
                lemma_seq_le_total(key@, app_id(s[j as int]));
            }
            j = j + 1;
        }
        if j < v.len() && chars_le(&chars_of(v[j].manifest.id.as_str()), &key) {
            proof {
                lemma_seq_le_antisym(app_id(s[j as int]), id);
            }
            v.set(j, app);
            proof {
                assert forall|a: int, b: int| 0 <= a < b < v@.len() implies seq_lt(app_id(#[trigger] v@[a]), app_id(#[trigger] v@[b])) by {
                    if a != j && b != j {
                        assert(v@[a] == s[a] && v@[b] == s[b]);
                    } else if a == j {
                        assert(v@[b] == s[b]);
                    } else {
                        assert(v@[a] == s[a]);
                    }
                }
                assert forall|e: InstalledApp| v@.contains(e) <==> ((s.contains(e) && app_id(e) != id) || e == app) by {
                    if s.contains(e) && app_id(e) != id {
                        let k = choose|k: int| 0 <= k < s.len() && s[k] == e;
                        assert(k != j);
                        assert(v@[k] == e);
                    }
                    if e == app {
                        assert(v@[j as int] == e);
                    }
                    if v@.contains(e) {
                        let k = choose|k: int| 0 <= k < v@.len() && v@[k] == e;
                        if k != j {
                            assert(s[k] == e);
                            if k < j {
                                assert(seq_lt(app_id(s[k]), app_id(s[j as int])));
                            } else {
                                assert(seq_lt(app_id(s[j as int]), app_id(s[k])));
                            }
                        }
                    }
                }
            }
            self.apps = v;
        } else {
            proof {
                if j < s.len() {
                    assert(seq_lt(id, app_id(s[j as int])));
                }
            }
            v.insert(j, app);
            proof {
                let t = v@;
                assert(t =~= s.take(j as int) + seq![app] + s.skip(j as int));
                assert forall|a: int, b: int| 0 <= a < b < t.len() implies seq_lt(app_id(#[trigger] t[a]), app_id(#[trigger] t[b])) by {
                    if b < j {
                        assert(t[a] == s[a] && t[b] == s[b]);
                    } else if b == j {
                        assert(t[a] == s[a]);
                    } else if a < j {
                        assert(t[a] == s[a] && t[b] == s[b - 1]);
                        assert(seq_lt(id, app_id(s[j as int])));
                        if b - 1 > j {
                            assert(seq_lt(app_id(s[j as int]), app_id(s[b - 1])));
                            lemma_seq_le_trans(id, app_id(s[j as int]), app_id(s[b - 1]));
                            if id == app_id(s[b - 1]) {
                                lemma_seq_le_antisym(id, app_id(s[j as int]));
                            }
                        }
                        lemma_seq_le_trans(app_id(s[a]), id, app_id(s[b - 1]));
                        if app_id(s[a]) == app_id(s[b - 1]) {
                            lemma_seq_le_antisym(app_id(s[a]), id);
                        }
                    } else if a == j {
                        assert(t[b] == s[b - 1]);
                        if b - 1 > j {
                            assert(seq_lt(app_id(s[j as int]), app_id(s[b - 1])));
                            lemma_seq_le_trans(id, app_id(s[j as int]), app_id(s[b - 1]));
                            if id == app_id(s[b - 1]) {
                                lemma_seq_le_antisym(id, app_id(s[j as int]));
                            }
                        }
                    } else {
                        assert(t[a] == s[a - 1] && t[b] == s[b - 1]);
                    }
                }
                assert forall|e: InstalledApp| t.contains(e) <==> ((s.contains(e) && app_id(e) != id) || e == app) by {
                    if s.contains(e) && app_id(e) != id {
                        let k = choose|k: int| 0 <= k < s.len() && s[k] == e;
                        if k < j {
                            assert(t[k] == e);
                        } else {
                            assert(t[k + 1] == e);
                        }
                    }
                    if e == app {
                        assert(t[j as int] == e);
                    }
                    if t.contains(e) && e != app {
                        let k = choose|k: int| 0 <= k < t.len() && t[k] == e;
                        if k < j {
                            assert(s[k] == e);
                        } else if k == j {
                        } else {
                            assert(s[k - 1] == e);
                            if app_id(e) == id {
                                if k - 1 > j {
                                    assert(seq_lt(app_id(s[j as int]), app_id(s[k - 1])));
                                    lemma_seq_le_antisym(id, app_id(s[j as int]));
                                }
                            }
                        }
                    }
                }
            }
            self.apps = v;
        }
    }

    /// Registers a built-in application (one without a manifest file).
    pub fn register_builtin(&mut self, id: &str, name: &str, permissions: &[&str])
        ensures
            sorted_by_id(final(self).entries()),
            registered(old(self).entries(), final(self).entries(), id@, name@, str_views(permissions@)),
    {
        let mut perms: Vec<String> = Vec::new();
        let mut i: usize = 0;
        while i < permissions.len()
            invariant
                i <= permissions.len(),
                perms@.map_values(|p: String| p@) == str_views(permissions@).take(i as int),
            decreases permissions.len() - i,
        {
            let ghost before = perms@;
            let p = owned(permissions[i]);
            perms.push(p);
            assert(perms@.map_values(|p: String| p@) =~= before.map_values(|p: String| p@).push(p@));
            assert(str_views(permissions@).take(i + 1) =~= str_views(permissions@).take(
                i as int,
            ).push(permissions@[i as int]@));
            i = i + 1;
        }
        assert(str_views(permissions@).take(i as int) =~= str_views(permissions@));
        let app = InstalledApp {
            manifest: AppManifest {
                id: owned(id),
                name: owned(name),
                version: owned("1.0.0"),
                kind: owned("builtin"),
                permissions: perms,
                description: String::new(),
            },
            install_dir: String::new(),
        };
        let ghost a = app;
        assert(is_builtin_app(a, id@, name@, str_views(permissions@)));
        assert(app_id(a) == id@);
        self.insert(app);
        assert(final(self).entries().contains(a));
    }

    /// Registers the built-in applications (files, settings, about,
    /// terminal), each replacing an entry with its id.
    pub fn register_builtins(&mut self)
        ensures
            sorted_by_id(final(self).entries()),
            builtins_registered(old(self).entries(), final(self).entries()),
    {
        proof {
            reveal_strlit("haavk.files");
            reveal_strlit("haavk.settings");
            reveal_strlit("haavk.about");
            reveal_strlit("haavk.terminal");
        }
        let ghost s0 = self.entries();
        let v1: Vec<&str> = vec!["filesystem.read"];
        self.register_builtin("haavk.files", "全域节点", v1.as_slice());
        let ghost s1 = self.entries();
        let v2: Vec<&str> = vec!["hardware.read"];
        self.register_builtin("haavk.settings", "系统设置", v2.as_slice());
        let ghost s2 = self.entries();
        let v3: Vec<&str> = Vec::new();
        self.register_builtin("haavk.about", "关于HAAVK", v3.as_slice());
        let ghost s3 = self.entries();
        let v4: Vec<&str> = vec!["shell.exec"];
        self.register_builtin("haavk.terminal", "终端", v4.as_slice());
        let ghost s4 = self.entries();
        proof {
            let b = builtin_apps();
            assert(str_views(v1@) =~= b[0].2);
            assert(str_views(v2@) =~= b[1].2);
            assert(str_views(v3@) =~= b[2].2);
            assert(str_views(v4@) =~= b[3].2);
            assert forall|e: InstalledApp| !is_builtin_id(app_id(e)) implies (s4.contains(e) <==> s0.contains(e)) by {
                assert(b[0].0 != app_id(e));
                assert(b[1].0 != app_id(e));
                assert(b[2].0 != app_id(e));
                assert(b[3].0 != app_id(e));
            }
            assert forall|k: int, e: InstalledApp|
                0 <= k < b.len() && #[trigger] s4.contains(e) && app_id(e) == #[trigger] b[k].0 implies is_builtin_app(
                e,
                b[k].0,
                b[k].1,
                b[k].2,
            ) by {
                if k == 0 {
                    assert(app_id(e).len() == 11);
                    assert(app_id(e)[6] == 'f');
                    assert(s3.contains(e));
                    assert(s2.contains(e));
                    assert(s1.contains(e));
                } else if k == 1 {
                    assert(app_id(e).len() == 14);
                    assert(app_id(e)[6] == 's');
                    assert(s3.contains(e));
                    assert(s2.contains(e));
                } else if k == 2 {
                    assert(app_id(e).len() == 11);
                    assert(app_id(e)[6] == 'a');
                    assert(s3.contains(e));
                }
            }
            assert forall|k: int| 0 <= k < b.len() implies has_id(s4, #[trigger] b[k].0) by {
                if k == 0 {
                    let e = choose|e: InstalledApp| #[trigger] s1.contains(e) && app_id(e) == b[0].0;
                    assert(app_id(e).len() == 11 && app_id(e)[6] == 'f');
                    assert(s2.contains(e));
                    assert(s3.contains(e));
                    assert(s4.contains(e));
                } else if k == 1 {
                    let e = choose|e: InstalledApp| #[trigger] s2.contains(e) && app_id(e) == b[1].0;
                    assert(app_id(e).len() == 14 && app_id(e)[6] == 's');
                    assert(s3.contains(e));
                    assert(s4.contains(e));
                } else if k == 2 {
                    let e = choose|e: InstalledApp| #[trigger] s3.contains(e) && app_id(e) == b[2].0;
                    assert(app_id(e).len() == 11 && app_id(e)[6] == 'a');
                    assert(s4.contains(e));
                } else {
                    let e = choose|e: InstalledApp| #[trigger] s4.contains(e) && app_id(e) == b[3].0;
                    assert(s4.contains(e));
                }
            }
        }
    }

    /// Replaces the entries by the applications found in a scan, in the
    /// order found: a later one replaces an earlier one with the same id.
    pub fn scan_found(&mut self, found: Vec<InstalledApp>)
        ensures
            sorted_by_id(final(self).entries()),
            forall|e: InstalledApp| final(self).entries().contains(e) <==> last_of_its_id(found@, e),
    {
        let ghost all = found@;
        self.clear();
        let mut rest = found;
        let ghost mut k: int = 0;
        assert(rest@ =~= all.skip(0));
        assert forall|e: InstalledApp| self.entries().contains(e) <==> last_of_its_id(all.take(0), e) by {
            if last_of_its_id(all.take(0), e) {
                let i = choose|i: int|
                    0 <= i < all.take(0).len() && all.take(0)[i] == e && forall|j: int|
                        i < j < all.take(0).len() ==> app_id(#[trigger] all.take(0)[j]) != app_id(e);
            }
        }
        while rest.len() > 0
            invariant
                0 <= k <= all.len(),
                rest@ == all.skip(k),
                sorted_by_id(self.entries()),
                forall|e: InstalledApp| self.entries().contains(e) <==> last_of_its_id(all.take(k), e),
            decreases rest.len(),
        {
            let ghost r0 = rest@;
            let x = rest.remove(0);
            proof {
                assert(x == all[k]);
                assert(rest@ =~= all.skip(k + 1));
                assert(all.take(k + 1) =~= all.take(k).push(x));
                assert forall|e: InstalledApp| last_of_its_id(all.take(k + 1), e) <==> ((last_of_its_id(all.take(k), e)
                    && app_id(e) != app_id(x)) || e == x) by {
                    lemma_last_of_its_id_push(all.take(k), x, e);
                }
            }
            let ghost xg = x;
            let ghost before = self.entries();
            self.insert(x);
            proof {
                assert forall|e: InstalledApp| self.entries().contains(e) <==> last_of_its_id(all.take(k + 1), e) by {
                    assert(app_id(e) == app_id(e));
                    assert(self.entries().contains(e) <==> ((before.contains(e) && app_id(e) != app_id(xg)) || e == xg));
                    assert(before.contains(e) <==> last_of_its_id(all.take(k), e));
                    lemma_last_of_its_id_push(all.take(k), xg, e);
                }
                k = k + 1;
            }
        }
        assert(all.take(k) =~= all);
    }

    /// All applications, in id order.
    pub fn all(&self) -> (r: &[InstalledApp])
        ensures
            r@ == self.entries(),
    {
        self.apps.as_slice()
    }

    /// The application with id `id`.
    pub fn get(&self, id: &str) -> (r: Option<&InstalledApp>)
        ensures
            match r {
                Some(a) => self.entries().contains(*a) && app_id(*a) == id@,
                None => forall|i: int| 0 <= i < self.entries().len() ==> app_id(#[trigger] self.entries()[i]) != id@,
            },
    {
        let mut i: usize = 0;
        while i < self.apps.len()
            invariant
                i <= self.apps.len(),
                forall|k: int| 0 <= k < i ==> app_id(#[trigger] self.apps@[k]) != id@,
            decreases self.apps.len() - i,
        {
            if str_eq(self.apps[i].manifest.id.as_str(), id) {
                assert(self.apps@[i as int] == self.apps@[i as int]);
                return Some(&self.apps[i]);
            }
            i = i + 1;
        }
        None
    }

    /// Number of applications.
    pub fn count(&self) -> (r: usize)
        ensures
            r == self.entries().len(),
    {
        self.apps.len()
    }
}

impl Default for AppRegistry {
    fn default() -> (r: Self)
        ensures
            r.entries() == Seq::<InstalledApp>::empty(),
    {
        AppRegistry::new()
    }
}

} // verus!
