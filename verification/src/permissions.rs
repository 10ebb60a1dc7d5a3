//! The three permission levels and per-application permission sets.
//!
//! - `restricted` (the default): only what was granted;
//! - `standard`: also reading files and sending/receiving Relink messages;
//! - `trusted`: everything.
use vstd::prelude::*;

use crate::text::{owned, str_eq};

verus! {

/// A permission level.
#[derive(Debug, Clone, Copy, PartialEq, Eq, Structural)]
pub enum PermissionLevel {
    Restricted,
    Standard,
    Trusted,
}

/// The permissions a `standard` application holds without a grant.
pub open spec fn standard_basic(p: Seq<char>) -> bool {
    p == "filesystem.read"@ || p == "relink.send"@ || p == "relink.receive"@
}

/// Whether an application of `level` with the grants `granted` may do `required`.
pub open spec fn allows_spec(level: PermissionLevel, granted: Set<Seq<char>>, required: Seq<char>) -> bool {
    match level {
        PermissionLevel::Trusted => true,
        PermissionLevel::Standard => standard_basic(required) || granted.contains(required),
        PermissionLevel::Restricted => granted.contains(required),
    }
}

impl PermissionLevel {
    /// The level's name as written in configuration.
    pub fn as_str(&self) -> (r: &'static str)
        ensures
            r@ == match self {
                PermissionLevel::Restricted => "restricted"@,
                PermissionLevel::Standard => "standard"@,
                PermissionLevel::Trusted => "trusted"@,
            },
    {
        match self {
            PermissionLevel::Restricted => "restricted",
            PermissionLevel::Standard => "standard",
            PermissionLevel::Trusted => "trusted",
        }
    }
}

/// The permissions of one application: its level and explicit grants.
#[derive(Debug)]
pub struct PermissionSet {
    pub level: PermissionLevel,
    granted: Vec<String>,
}

impl PermissionSet {
    /// The level (the `level` field).
    pub closed spec fn level_spec(&self) -> PermissionLevel {
        self.level
    }

    /// The grants, as a set of permission names.
    pub closed spec fn granted_set(&self) -> Set<Seq<char>> {
        self.granted@.map_values(|g: String| g@).to_set()
    }

    /// Well-formedness: no grant is held twice.
    pub closed spec fn wf(&self) -> bool {
        self.granted@.map_values(|g: String| g@).no_duplicates()
    }

    /// A set of `level` with no grants.
    pub fn new(level: PermissionLevel) -> (r: Self)
        ensures
            r.wf(),
            r.level_spec() == level,
            r.granted_set() == Set::<Seq<char>>::empty(),
    {
        let r = PermissionSet { level, granted: Vec::new() };
        assert(r.granted@.map_values(|g: String| g@) =~= Seq::<Seq<char>>::empty());
        r
    }

    /// Whether `perm` was granted.
    fn has_grant(&self, perm: &str) -> (r: bool)
        ensures
            r == self.granted_set().contains(perm@),
    {
        let ghost views = self.granted@.map_values(|g: String| g@);
        let mut i: usize = 0;
        while i < self.granted.len()
            invariant
                i <= self.granted.len(),
                views == self.granted@.map_values(|g: String| g@),
                forall|j: int| 0 <= j < i ==> views[j] != perm@,
            decreases self.granted.len() - i,
        {
            if str_eq(self.granted[i].as_str(), perm) {
                assert(views[i as int] == perm@);
                assert(views.to_set().contains(views[i as int]));
                return true;
            }
            i = i + 1;
        }
        assert(!views.contains(perm@));
        false
    }

    /// Grants `perm`.
    pub fn grant(&mut self, perm: &str)
        requires
            old(self).wf(),
        ensures
            final(self).wf(),
            final(self).level_spec() == old(self).level_spec(),
            final(self).granted_set() == old(self).granted_set().insert(perm@),
    {
        if self.has_grant(perm) {
            assert(old(self).granted_set().insert(perm@) =~= old(self).granted_set());
            return;
        }
        let ghost before = self.granted@.map_values(|g: String| g@);
        self.granted.push(owned(perm));
        let ghost after = self.granted@.map_values(|g: String| g@);
        assert(after =~= before.push(perm@));
        proof {
            before.lemma_push_to_set_commute(perm@);
        }
        assert(after.to_set() =~= before.to_set().insert(perm@));
        assert(after.no_duplicates()) by {
            assert forall|a: int, b: int| 0 <= a < after.len() && 0 <= b < after.len() && a != b implies after[a]
                != after[b] by {
                if a < before.len() && b < before.len() {
                } else if a == before.len() {
                    assert(before.contains(before[b]));
                } else {
                    assert(before.contains(before[a]));
                }
            }
        }
    }

    /// Whether the application may do `required`: `trusted` may do anything,
    /// `standard` may read files and send or receive Relink messages, and
    /// otherwise only what was granted.
    pub fn allows(&self, required: &str) -> (r: bool)
        ensures
            r == allows_spec(self.level_spec(), self.granted_set(), required@),
    {
        match self.level {
            PermissionLevel::Trusted => true,
            PermissionLevel::Standard => {
                if str_eq(required, "filesystem.read") || str_eq(required, "relink.send") || str_eq(
                    required,
                    "relink.receive",
                ) {
                    true
                } else {
                    self.has_grant(required)
                }
            },
            PermissionLevel::Restricted => self.has_grant(required),
        }
    }

    /// Whether the application may do every one of `required`.
    pub fn allows_all(&self, required: &[&str]) -> (r: bool)
        ensures
            r == forall|i: int| 0 <= i < required@.len() ==> allows_spec(self.level_spec(), self.granted_set(), #[trigger] required@[i]@),
    {
        let mut i: usize = 0;
        while i < required.len()
            invariant
                i <= required.len(),
                forall|j: int| 0 <= j < i ==> allows_spec(self.level, self.granted_set(), #[trigger] required@[j]@),
            decreases required.len() - i,
        {
            if !self.allows(required[i]) {
                return false;
            }
            i = i + 1;
        }
        true
    }

    /// The granted permissions, each once.
    pub fn granted_list(&self) -> (r: Vec<&String>)
        requires
            self.wf(),
        ensures
            r@.map_values(|g: &String| g@).no_duplicates(),
            r@.map_values(|g: &String| g@).to_set() == self.granted_set(),
    {
        let mut r: Vec<&String> = Vec::new();
        let mut i: usize = 0;
        while i < self.granted.len()
            invariant
                i <= self.granted.len(),
                r@.map_values(|g: &String| g@) == self.granted@.map_values(|g: String| g@).take(i as int),
            decreases self.granted.len() - i,
        {
            r.push(&self.granted[i]);
            assert(self.granted@.map_values(|g: String| g@).take(i + 1) =~= self.granted@.map_values(|g: String| g@).take(
                i as int,
            ).push(self.granted@[i as int]@));
            i = i + 1;
        }
        assert(self.granted@.map_values(|g: String| g@).take(i as int) =~= self.granted@.map_values(|g: String| g@));
        r
    }
}

impl Default for PermissionSet {
    fn default() -> (r: Self)
        ensures
            r.wf(),
            r.level_spec() == PermissionLevel::Restricted,
            r.granted_set() == Set::<Seq<char>>::empty(),
    {
        PermissionSet::new(PermissionLevel::Restricted)
    }
}

/// A `standard` application may, whatever it was granted, read files and
/// send and receive Relink messages; with no grants a `restricted` one may
/// do none of these.
pub proof fn law_standard_basics(granted: Set<Seq<char>>)
    ensures
        allows_spec(PermissionLevel::Standard, granted, "filesystem.read"@),
        allows_spec(PermissionLevel::Standard, granted, "relink.send"@),
        allows_spec(PermissionLevel::Standard, granted, "relink.receive"@),
        !allows_spec(PermissionLevel::Restricted, Set::empty(), "filesystem.read"@),
        !allows_spec(PermissionLevel::Restricted, Set::empty(), "relink.send"@),
        !allows_spec(PermissionLevel::Restricted, Set::empty(), "relink.receive"@),
{
}

/// A `trusted` application may do anything.
pub proof fn law_trusted_allows_everything(granted: Set<Seq<char>>, required: Seq<char>)
    ensures
        allows_spec(PermissionLevel::Trusted, granted, required),
{
}

/// A granted permission is allowed, at every level.
pub proof fn law_grant_allows(level: PermissionLevel, granted: Set<Seq<char>>, perm: Seq<char>)
    ensures
        allows_spec(level, granted.insert(perm), perm),
{
}

/// Grants only add: what was allowed stays allowed after another grant.
pub proof fn law_grant_monotone(level: PermissionLevel, granted: Set<Seq<char>>, perm: Seq<char>, required: Seq<char>)
    requires
        allows_spec(level, granted, required),
    ensures
        allows_spec(level, granted.insert(perm), required),
{
}

/// The levels are ordered: what `restricted` allows, `standard` allows, and
/// what `standard` allows, `trusted` allows.
pub proof fn law_levels_ordered(granted: Set<Seq<char>>, required: Seq<char>)
    ensures
        allows_spec(PermissionLevel::Restricted, granted, required) ==> allows_spec(
            PermissionLevel::Standard,
            granted,
            required,
        ),
        allows_spec(PermissionLevel::Standard, granted, required) ==> allows_spec(
            PermissionLevel::Trusted,
            granted,
            required,
        ),
{
}

} // verus!
