//! `.mandel` virtual disk image: a superblock and a tree of inodes.
//!
//! The on-disk frame is the 16-byte magic `HAAVK-MANDEL-V1\0`, the body's
//! length as a little-endian `u64`, then the body (the serialised image).
use vstd::prelude::*;
use std::collections::BTreeMap;

use crate::text::{lemma_pieces_concat, lemma_pieces_single, chars_eq, chars_le, chars_of, concat2, owned, nonempty_piece_bounds, nonempty_pieces, push_char, seq_le, string_of};

verus! {

broadcast use vstd::laws_cmp::group_laws_cmp;

/// Block size of an image, in bytes.
pub const BLOCK_SIZE: usize = 4096;

/// What an inode is.
#[derive(Debug, Clone, Copy, PartialEq, Eq, Structural)]
pub enum InodeKind {
    File,
    Dir,
}

/// One inode: a file or a directory.
#[derive(Debug)]
pub struct Inode {
    pub id: u32,
    pub kind: InodeKind,
    pub name: String,
    pub parent: u32,
    pub size: u64,
    pub children: Vec<u32>,
    pub data: Vec<u8>,
}

/// The value of an inode.
pub struct InodeView {
    pub id: u32,
    pub kind: InodeKind,
    pub name: Seq<char>,
    pub parent: u32,
    pub size: u64,
    pub children: Seq<u32>,
    pub data: Seq<u8>,
}

impl View for Inode {
    type V = InodeView;

    open spec fn view(&self) -> InodeView {
        InodeView {
            id: self.id,
            kind: self.kind,
            name: self.name@,
            parent: self.parent,
            size: self.size,
            children: self.children@,
            data: self.data@,
        }
    }
}

/// The superblock of an image.
#[derive(Debug, Clone)]
pub struct SuperBlock {
    pub magic: [u8; 16],
    pub version: u32,
    pub block_size: u32,
    pub total_blocks: u64,
    pub used_blocks: u64,
    pub root_inode: u32,
}

/// A whole disk image.
#[derive(Debug)]
pub struct DiskImage {
    pub superblock: SuperBlock,
    pub inodes: BTreeMap<u32, Inode>,
    pub next_inode: u32,
}

/// Why an image operation failed.
#[derive(Debug, Clone, PartialEq, Eq)]
pub enum DiskError {
    /// The directory path names no inode.
    PathNotFound(String),
    /// The file path names no inode.
    FileNotFound(String),
    /// An inode that the tree names is missing.
    Corrupt,
    /// The path names something that is not a directory.
    NotADirectory(String),
    /// The path names something that is not a file.
    NotAFile(String),
    /// The parent directory of a new entry does not exist.
    NoParent,
}

/// Why a frame could not be read.
#[derive(Debug, Clone, Copy, PartialEq, Eq, Structural)]
pub enum FrameError {
    /// The bytes end before the frame does.
    Truncated,
    /// The first 16 bytes are not the image magic.
    BadMagic,
}

/// The image magic `HAAVK-MANDEL-V1\0`.
pub open spec fn magic_spec() -> Seq<u8> {
    seq![72u8, 65, 65, 86, 75, 45, 77, 65, 78, 68, 69, 76, 45, 86, 49, 0]
}

/// The image magic `HAAVK-MANDEL-V1\0`.
pub fn mandel_magic() -> (m: [u8; 16])
    ensures
        m@ == magic_spec(),
{
    let m: [u8; 16] = [72u8, 65, 65, 86, 75, 45, 77, 65, 78, 68, 69, 76, 45, 86, 49, 0];
    assert(m@ =~= magic_spec());
    m
}

/// Number of blocks that `len` bytes of file data take (at least one).
pub open spec fn blocks_for(len: nat) -> nat {
    let b = (len + 4095) / 4096;
    if b == 0 { 1 } else { b }
}

/// The inode `id` names the directory entry `name` among `children`.
pub open spec fn names_entry(inodes: Map<u32, InodeView>, cid: u32, name: Seq<char>) -> bool {
    inodes.contains_key(cid) && inodes[cid].name == name
}

/// The first of `children` that exists and is called `name`.
pub open spec fn find_child(inodes: Map<u32, InodeView>, children: Seq<u32>, name: Seq<char>) -> Option<u32>
    decreases children.len(),
{
    if children.len() == 0 {
        None
    } else if names_entry(inodes, children[0], name) {
        Some(children[0])
    } else {
        find_child(inodes, children.drop_first(), name)
    }
}

/// A child that `find_child` returns exists, carries the name, and is one of `children`.
pub proof fn lemma_find_child_some(inodes: Map<u32, InodeView>, children: Seq<u32>, name: Seq<char>)
    ensures
        find_child(inodes, children, name) matches Some(c) ==> names_entry(inodes, c, name)
            && children.contains(c),
    decreases children.len(),
{
    if children.len() > 0 && !names_entry(inodes, children[0], name) {
        lemma_find_child_some(inodes, children.drop_first(), name);
        if let Some(c) = find_child(inodes, children, name) {
            let j = choose|j: int| 0 <= j < children.drop_first().len() && children.drop_first()[j] == c;
            assert(children[j + 1] == c);
        }
    } else if children.len() > 0 {
        assert(children[0] == children[0]);
    }
}

/// Walks `parts` down the tree from `cur`.
pub open spec fn walk(inodes: Map<u32, InodeView>, cur: u32, parts: Seq<Seq<char>>) -> Option<u32>
    decreases parts.len(),
{
    if parts.len() == 0 {
        Some(cur)
    } else if !inodes.contains_key(cur) {
        None
    } else {
        match find_child(inodes, inodes[cur].children, parts[0]) {
            None => None,
            Some(cid) => walk(inodes, inodes[cid].id, parts.drop_first()),
        }
    }
}

/// The directory entries of `children`: name and whether it is a directory,
/// in child order, skipping ids that name no inode.
pub open spec fn entries(inodes: Map<u32, InodeView>, children: Seq<u32>) -> Seq<(Seq<char>, bool)>
    decreases children.len(),
{
    if children.len() == 0 {
        seq![]
    } else {
        let e = entries(inodes, children.drop_last());
        let c = children.last();
        if inodes.contains_key(c) {
            e.push((inodes[c].name, inodes[c].kind == InodeKind::Dir))
        } else {
            e
        }
    }
}

/// Inserts `x` into `s` after every entry whose name is not above `x`'s.
pub open spec fn sorted_insert(s: Seq<(Seq<char>, bool)>, x: (Seq<char>, bool)) -> Seq<(Seq<char>, bool)>
    decreases s.len(),
{
    if s.len() == 0 {
        seq![x]
    } else if seq_le(s.last().0, x.0) {
        s.push(x)
    } else {
        sorted_insert(s.drop_last(), x).push(s.last())
    }
}

/// `s` sorted by name, entries with equal names in their original order
/// (what the stable `sort_by` on names gives).
pub open spec fn sort_by_name(s: Seq<(Seq<char>, bool)>) -> Seq<(Seq<char>, bool)>
    decreases s.len(),
{
    if s.len() == 0 {
        seq![]
    } else {
        sorted_insert(sort_by_name(s.drop_last()), s.last())
    }
}

/// The view of a directory listing.
pub open spec fn listing_view(v: Seq<(&str, bool)>) -> Seq<(Seq<char>, bool)> {
    v.map_values(|e: (&str, bool)| (e.0@, e.1))
}

/// `dir` with `id` appended to its children.
pub open spec fn with_child(dir: InodeView, id: u32) -> InodeView {
    InodeView { children: dir.children.push(id), ..dir }
}

/// `sb` with `n` more used blocks.
pub open spec fn with_more_used(sb: SuperBlock, n: nat) -> SuperBlock {
    SuperBlock { used_blocks: (sb.used_blocks + n) as u64, ..sb }
}

/// A fresh inode value.
pub open spec fn fresh_inode(id: u32, kind: InodeKind, name: Seq<char>, parent: u32, data: Seq<u8>) -> InodeView {
    InodeView { id, kind, name, parent, size: data.len() as u64, children: seq![], data }
}

/// `new` is `old` with inode `id`, of kind `kind`, name `name` and contents
/// `data`, added as the last child of the directory `parent_path` names, and
/// `blocks` more blocks in use.
pub open spec fn entry_added(
    old: DiskImage,
    new: DiskImage,
    parent_path: Seq<char>,
    kind: InodeKind,
    name: Seq<char>,
    data: Seq<u8>,
    blocks: nat,
    id: u32,
) -> bool {
    match old.spec_lookup(parent_path) {
        None => false,
        Some(p) => {
            &&& id == old.next_inode
            &&& new.next_inode == old.next_inode + 1
            &&& new.tree() == old.tree().insert(id, fresh_inode(id, kind, name, p, data)).insert(
                p,
                with_child(old.tree()[p], id),
            )
            &&& new.superblock == with_more_used(old.superblock, blocks)
        },
    }
}

/// `new` is `old` with directory `name` made under `parent_path`, as inode `id`.
pub open spec fn dir_made(old: DiskImage, new: DiskImage, parent_path: Seq<char>, name: Seq<char>, id: u32) -> bool {
    entry_added(old, new, parent_path, InodeKind::Dir, name, seq![], 1, id)
}

/// `new` is `old` with file `name` holding `data` written under `parent_path`, as inode `id`.
pub open spec fn file_written(
    old: DiskImage,
    new: DiskImage,
    parent_path: Seq<char>,
    name: Seq<char>,
    data: Seq<u8>,
    id: u32,
) -> bool {
    entry_added(old, new, parent_path, InodeKind::File, name, data, blocks_for(data.len()), id)
}

/// `sorted_insert` places `x` at index `j` when `j` is its insertion point.
proof fn lemma_sorted_insert_at(s: Seq<(Seq<char>, bool)>, x: (Seq<char>, bool), j: int)
    requires
        0 <= j <= s.len(),
        forall|k: int| j <= k < s.len() ==> !seq_le(#[trigger] s[k].0, x.0),
        j > 0 ==> seq_le(s[j - 1].0, x.0),
    ensures
        sorted_insert(s, x) == s.take(j) + seq![x] + s.skip(j),
    decreases s.len() - j,
{
    if j == s.len() {
        assert(s.take(j) =~= s);
        if s.len() > 0 {
            assert(s.take(j) + seq![x] + s.skip(j) =~= s.push(x));
        } else {
            assert(s.take(j) + seq![x] + s.skip(j) =~= seq![x]);
        }
    } else {
        lemma_sorted_insert_at(s.drop_last(), x, j);
        assert(s.drop_last().take(j) + seq![x] + s.drop_last().skip(j) + seq![s.last()] =~= s.take(j)
            + seq![x] + s.skip(j));
    }
}

/// Inserts `e` into the name-sorted listing `out` after every entry whose name is not above it.
fn insert_sorted<'a>(out: &mut Vec<(&'a str, bool)>, e: (&'a str, bool))
    ensures
        listing_view(final(out)@) == sorted_insert(listing_view(old(out)@), (e.0@, e.1)),
{
    let ev = chars_of(e.0);
    let mut j = out.len();
    while j > 0 && !chars_le(&chars_of(out[j - 1].0), &ev)
        invariant
            j <= out.len(),
            forall|k: int| j <= k < out@.len() ==> !seq_le(#[trigger] out@[k].0@, ev@),
        decreases j,
    {
        j = j - 1;
    }
    let ghost before = listing_view(out@);
    proof {
        lemma_sorted_insert_at(before, (e.0@, e.1), j as int);
    }
    out.insert(j, e);
    assert(listing_view(out@) =~= before.take(j as int) + seq![(e.0@, e.1)] + before.skip(j as int));
}

/// A copy of a byte slice.
fn copy_bytes(data: &[u8]) -> (v: Vec<u8>)
    ensures
        v@ == data@,
{
    let mut v: Vec<u8> = Vec::new();
    let mut i: usize = 0;
    while i < data.len()
        invariant
            i <= data.len(),
            v@ == data@.take(i as int),
        decreases data.len() - i,
    {
        v.push(data[i]);
        assert(data@.take(i + 1) =~= data@.take(i as int).push(data@[i as int]));
        i = i + 1;
    }
    assert(data@.take(i as int) =~= data@);
    v
}

impl DiskImage {
    /// The inode tree: id to inode value.
    pub open spec fn tree(&self) -> Map<u32, InodeView> {
        self.inodes@.map_values(|i: Inode| i@)
    }

    /// The id the next new inode gets.
    pub open spec fn next_id(&self) -> u32 {
        self.next_inode
    }

    /// Well-formedness: the root exists, every inode is stored under its own
    /// id, and every id is below the next one to be handed out.
    pub open spec fn wf(&self) -> bool {
        &&& self.inodes@.contains_key(self.superblock.root_inode)
        &&& forall|k: u32| #[trigger]
            self.inodes@.contains_key(k) ==> self.inodes@[k].id == k && k < self.next_inode
        &&& forall|k: u32, j: int| #![trigger self.inodes@[k].children@[j]]
            self.inodes@.contains_key(k) && 0 <= j < self.inodes@[k].children@.len()
                ==> self.inodes@[k].children@[j] < self.next_inode
    }

    /// What reading needs: the root exists, and every inode is stored under
    /// its own id.
    pub open spec fn readable(&self) -> bool {
        &&& self.inodes@.contains_key(self.superblock.root_inode)
        &&& forall|k: u32| #[trigger] self.inodes@.contains_key(k) ==> self.inodes@[k].id == k
    }

    /// The inode that `path` names (`/`-separated, empty pieces ignored).
    pub open spec fn spec_lookup(&self, path: Seq<char>) -> Option<u32> {
        walk(self.tree(), self.superblock.root_inode, nonempty_pieces(path, '/'))
    }

    /// The id the next new inode gets.
    pub fn next_inode(&self) -> (n: u32)
        ensures
            n == self.next_id(),
    {
        self.next_inode
    }

    /// An empty image of `capacity_mb` megabytes: a root directory `/`.
    pub fn create(capacity_mb: u64) -> (img: Self)
        requires
            capacity_mb * 1048576 <= u64::MAX,
        ensures
            img.wf(),
            img.next_id() == 1,
            img.superblock.magic@ == magic_spec(),
            img.superblock.version == 1,
            img.superblock.block_size == 4096,
            img.superblock.total_blocks == capacity_mb * 1048576 / 4096,
            img.superblock.used_blocks == 1,
            img.superblock.root_inode == 0,
            img.tree().dom() == set![0u32],
            img.tree()[0].id == 0,
            img.tree()[0].kind == InodeKind::Dir,
            img.tree()[0].name == seq!['/'],
            img.tree()[0].parent == 0,
            img.tree()[0].size == 0,
            img.tree()[0].children.len() == 0,
            img.tree()[0].data.len() == 0,
    {
        let total_blocks = capacity_mb * 1024 * 1024 / 4096;
        let mut name = String::new();
        push_char(&mut name, '/');
        let root = Inode {
            id: 0,
            kind: InodeKind::Dir,
            name,
            parent: 0,
            size: 0,
            children: Vec::new(),
            data: Vec::new(),
        };
        let mut inodes: BTreeMap<u32, Inode> = BTreeMap::new();
        inodes.insert(0, root);
        let img = DiskImage {
            superblock: SuperBlock {
                magic: mandel_magic(),
                version: 1,
                block_size: 4096,
                total_blocks,
                used_blocks: 1,
                root_inode: 0,
            },
            inodes,
            next_inode: 1,
        };
        assert(img.tree().dom() =~= set![0u32]);
        img
    }

    /// The first child of directory `dir` called `name`.
    fn child_named(&self, dir: &Inode, name: &Vec<char>) -> (r: Option<u32>)
        ensures
            r == find_child(self.tree(), dir.children@, name@),
    {
        let mut i: usize = 0;
        assert(dir.children@.skip(0) =~= dir.children@);
        while i < dir.children.len()
            invariant
                i <= dir.children.len(),
                find_child(self.tree(), dir.children@, name@) == find_child(
                    self.tree(),
                    dir.children@.skip(i as int),
                    name@,
                ),
            decreases dir.children.len() - i,
        {
            let cid = dir.children[i];
            let ghost rest = dir.children@.skip(i as int);
            assert(rest[0] == cid);
            assert(rest.drop_first() =~= dir.children@.skip(i + 1));
            match self.inodes.get(&cid) {
                Some(c) => {
                    let cn = chars_of(c.name.as_str());
                    if chars_eq(&cn, name) {
                        return Some(cid);
                    }
                },
                None => {},
            }
            i = i + 1;
        }
        assert(dir.children@.skip(i as int).len() == 0);
        None
    }

    /// The inode id that `path` names, walking from the root (`/docs/readme.txt`).
    pub fn lookup(&self, path: &str) -> (r: Option<u32>)
        requires
            self.readable(),
        ensures
            r == self.spec_lookup(path@),
            r matches Some(id) ==> self.tree().contains_key(id),
    {
        let v = chars_of(path);
        let bounds = nonempty_piece_bounds(&v, '/');
        let ghost parts = nonempty_pieces(path@, '/');
        let mut cur = self.superblock.root_inode;
        let mut k: usize = 0;
        assert(parts.skip(0) =~= parts);
        while k < bounds.len()
            invariant
                self.readable(),
                v@ == path@,
                parts == nonempty_pieces(path@, '/'),
                bounds@.len() == parts.len(),
                forall|j: int|
                    0 <= j < bounds@.len() ==> {
                        &&& (#[trigger] bounds@[j]).0 <= bounds@[j].1 <= v.len()
                        &&& v@.subrange(bounds@[j].0 as int, bounds@[j].1 as int) == parts[j]
                    },
                k <= bounds.len(),
                self.tree().contains_key(cur),
                self.spec_lookup(path@) == walk(self.tree(), cur, parts.skip(k as int)),
            decreases bounds.len() - k,
        {
            let (a, b) = bounds[k];
            let part = string_of(&v, a, b);
            let pv = chars_of(part.as_str());
            let dir = self.inodes.get(&cur).unwrap();
            let found = self.child_named(dir, &pv);
            proof {
                lemma_find_child_some(self.tree(), dir.children@, pv@);
            }
            assert(parts.skip(k as int)[0] == parts[k as int]);
            assert(parts.skip(k as int).drop_first() =~= parts.skip(k + 1));
            match found {
                Some(cid) => {
                    let child = self.inodes.get(&cid).unwrap();
                    cur = child.id;
                },
                None => {
                    return None;
                },
            }
            k = k + 1;
        }
        assert(parts.skip(k as int).len() == 0);
        Some(cur)
    }

    /// The entries of the directory `path`, sorted by name: each name and
    /// whether it is a directory.
    pub fn list_dir(&self, path: &str) -> (r: Result<Vec<(&str, bool)>, DiskError>)
        requires
            self.readable(),
        ensures
            match self.spec_lookup(path@) {
                None => r matches Err(DiskError::PathNotFound(p)) && p@ == path@,
                Some(id) => if self.tree()[id].kind != InodeKind::Dir {
                    r matches Err(DiskError::NotADirectory(p)) && p@ == path@
                } else {
                    r matches Ok(v) && listing_view(v@) == sort_by_name(
                        entries(self.tree(), self.tree()[id].children),
                    )
                },
            },
    {
        let id = match self.lookup(path) {
            Some(id) => id,
            None => {
                return Err(DiskError::PathNotFound(owned(path)));
            },
        };
        let dir = match self.inodes.get(&id) {
            Some(d) => d,
            None => {
                return Err(DiskError::Corrupt);
            },
        };
        if dir.kind != InodeKind::Dir {
            return Err(DiskError::NotADirectory(owned(path)));
        }
        let ghost tree = self.tree();
        let ghost children = dir.children@;
        let mut out: Vec<(&str, bool)> = Vec::new();
        let mut i: usize = 0;
        while i < dir.children.len()
            invariant
                tree == self.tree(),
                children == dir.children@,
                i <= dir.children.len(),
                listing_view(out@) == sort_by_name(entries(tree, children.take(i as int))),
            decreases dir.children.len() - i,
        {
            let cid = dir.children[i];
            assert(children.take(i + 1).drop_last() =~= children.take(i as int));
            assert(children.take(i + 1).last() == cid);
            let ghost prev = entries(tree, children.take(i as int));
            match self.inodes.get(&cid) {
                Some(c) => {
                    let e: (&str, bool) = (c.name.as_str(), c.kind == InodeKind::Dir);
                    proof {
                        let x = (c.name@, c.kind == InodeKind::Dir);
                        assert(tree[cid] == c@);
                        assert(entries(tree, children.take(i + 1)) == prev.push(x));
                        assert(prev.push(x).drop_last() =~= prev);
                        assert(sort_by_name(prev.push(x)) == sorted_insert(sort_by_name(prev), x));
                    }
                    insert_sorted(&mut out, e);
                },
                None => {
                    assert(entries(tree, children.take(i + 1)) == prev);
                },
            }
            i = i + 1;
        }
        assert(children.take(i as int) =~= children);
        Ok(out)
    }

    /// Adds inode `next_inode` under the directory `parent_path` names.
    fn add_entry(&mut self, parent_path: &str, kind: InodeKind, name: &str, data: &[u8], blocks: u64) -> (r: Result<u32, DiskError>)
        requires
            old(self).wf(),
            old(self).next_inode < u32::MAX,
            old(self).superblock.used_blocks + blocks <= u64::MAX,
        ensures
            final(self).wf(),
            match old(self).spec_lookup(parent_path@) {
                None => r == Err::<u32, DiskError>(DiskError::NoParent) && *final(self) == *old(self),
                Some(_) => r matches Ok(id) && entry_added(*old(self), *final(self), parent_path@, kind, name@, data@, blocks as nat, id),
            },
    {
        let parent_id = match self.lookup(parent_path) {
            Some(p) => p,
            None => {
                return Err(DiskError::NoParent);
            },
        };
        let id = self.next_inode;
        self.next_inode = self.next_inode + 1;
        let inode = Inode {
            id,
            kind,
            name: owned(name),
            parent: parent_id,
            size: data.len() as u64,
            children: Vec::new(),
            data: copy_bytes(data),
        };
        let ghost old_tree = old(self).tree();
        self.inodes.insert(id, inode);
        let mut par = self.inodes.remove(&parent_id).unwrap();
        par.children.push(id);
        self.inodes.insert(parent_id, par);
        self.superblock.used_blocks = self.superblock.used_blocks + blocks;
        proof {
            assert(self.tree() =~= old_tree.insert(id, fresh_inode(id, kind, name@, parent_id, data@)).insert(
                parent_id,
                with_child(old_tree[parent_id], id),
            ));
            assert forall|k: u32, j: int|
                self.inodes@.contains_key(k) && 0 <= j < self.inodes@[k].children@.len()
                    implies #[trigger] self.inodes@[k].children@[j] < self.next_inode by {
                if k != parent_id && k != id {
                    assert(old(self).inodes@[k].children@[j] < old(self).next_inode);
                } else if k == parent_id && j < old(self).inodes@[k].children@.len() {
                    assert(old(self).inodes@[k].children@[j] < old(self).next_inode);
                }
            }
        }
        Ok(id)
    }

    /// Makes directory `name` under the directory `parent_path` names.
    pub fn mkdir(&mut self, parent_path: &str, name: &str) -> (r: Result<u32, DiskError>)
        requires
            old(self).wf(),
            old(self).next_inode < u32::MAX,
            old(self).superblock.used_blocks < u64::MAX,
        ensures
            final(self).wf(),
            match old(self).spec_lookup(parent_path@) {
                None => r == Err::<u32, DiskError>(DiskError::NoParent) && *final(self) == *old(self),
                Some(_) => r matches Ok(id) && dir_made(*old(self), *final(self), parent_path@, name@, id),
            },
    {
        let empty: Vec<u8> = Vec::new();
        let r = self.add_entry(parent_path, InodeKind::Dir, name, empty.as_slice(), 1);
        assert(empty@ =~= Seq::<u8>::empty());
        r
    }

    /// Writes file `name` holding `data` under the directory `parent_path` names.
    pub fn write_file(&mut self, parent_path: &str, name: &str, data: &[u8]) -> (r: Result<u32, DiskError>)
        requires
            old(self).wf(),
            old(self).next_inode < u32::MAX,
            old(self).superblock.used_blocks + blocks_for(data@.len()) <= u64::MAX,
        ensures
            final(self).wf(),
            match old(self).spec_lookup(parent_path@) {
                None => r == Err::<u32, DiskError>(DiskError::NoParent) && *final(self) == *old(self),
                Some(_) => r matches Ok(id) && file_written(*old(self), *final(self), parent_path@, name@, data@, id),
            },
    {
        let len = data.len() as u64;
        let mut blocks = len / 4096;
        if len % 4096 != 0 {
            blocks = blocks + 1;
        }
        if blocks == 0 {
            blocks = 1;
        }
        assert(blocks == blocks_for(data@.len()));
        self.add_entry(parent_path, InodeKind::File, name, data, blocks)
    }

    /// The contents of the file `path`.
    pub fn read_file(&self, path: &str) -> (r: Result<&[u8], DiskError>)
        requires
            self.readable(),
        ensures
            match self.spec_lookup(path@) {
                None => r matches Err(DiskError::FileNotFound(p)) && p@ == path@,
                Some(id) => if self.tree()[id].kind != InodeKind::File {
                    r matches Err(DiskError::NotAFile(p)) && p@ == path@
                } else {
                    r matches Ok(d) && d@ == self.tree()[id].data
                },
            },
    {
        let id = match self.lookup(path) {
            Some(id) => id,
            None => {
                return Err(DiskError::FileNotFound(owned(path)));
            },
        };
        let inode = match self.inodes.get(&id) {
            Some(i) => i,
            None => {
                return Err(DiskError::Corrupt);
            },
        };
        if inode.kind != InodeKind::File {
            return Err(DiskError::NotAFile(owned(path)));
        }
        Ok(inode.data.as_slice())
    }

    /// Size of the image in megabytes.
    pub fn capacity_mb(&self) -> (r: u64)
        requires
            self.superblock.total_blocks * 4096 <= u64::MAX,
        ensures
            r == self.superblock.total_blocks * 4096 / 1048576,
    {
        self.superblock.total_blocks * 4096 / (1024 * 1024)
    }

    /// Space in use in megabytes.
    pub fn used_mb(&self) -> (r: u64)
        requires
            self.superblock.used_blocks * 4096 <= u64::MAX,
        ensures
            r == self.superblock.used_blocks * 4096 / 1048576,
    {
        self.superblock.used_blocks * 4096 / (1024 * 1024)
    }
}


impl DiskError {
    /// The error as the text the user sees.
    pub fn message(&self) -> (r: String)
        ensures
            r@ == match self {
                DiskError::PathNotFound(p) => "路径不存在: "@ + p@,
                DiskError::FileNotFound(p) => "文件不存在: "@ + p@,
                DiskError::Corrupt => "inode 损坏"@,
                DiskError::NotADirectory(p) => "不是目录: "@ + p@,
                DiskError::NotAFile(p) => "不是文件: "@ + p@,
                DiskError::NoParent => "父目录不存在"@,
            },
    {
        match self {
            DiskError::PathNotFound(p) => concat2("路径不存在: ", p.as_str()),
            DiskError::FileNotFound(p) => concat2("文件不存在: ", p.as_str()),
            DiskError::Corrupt => owned("inode 损坏"),
            DiskError::NotADirectory(p) => concat2("不是目录: ", p.as_str()),
            DiskError::NotAFile(p) => concat2("不是文件: ", p.as_str()),
            DiskError::NoParent => owned("父目录不存在"),
        }
    }
}

impl FrameError {
    /// The error as the text the user sees.
    pub fn message(&self) -> (r: String)
        ensures
            r@ == match self {
                FrameError::Truncated => "failed to fill whole buffer"@,
                FrameError::BadMagic => "不是 HAAVK 曼德尔镜像文件（魔数不匹配）"@,
            },
    {
        match self {
            FrameError::Truncated => owned("failed to fill whole buffer"),
            FrameError::BadMagic => owned("不是 HAAVK 曼德尔镜像文件（魔数不匹配）"),
        }
    }
}

// ---------------------------------------------------------------------------
// The on-disk frame
// ---------------------------------------------------------------------------

/// The `k` low bytes of `n`, least significant first.
pub open spec fn le_bytes(n: nat, k: nat) -> Seq<u8>
    decreases k,
{
    if k == 0 {
        seq![]
    } else {
        seq![(n % 256) as u8] + le_bytes(n / 256, (k - 1) as nat)
    }
}

/// The number whose little-endian bytes are `s`.
pub open spec fn le_value(s: Seq<u8>) -> nat
    decreases s.len(),
{
    if s.len() == 0 {
        0
    } else {
        s[0] as nat + 256 * le_value(s.drop_first())
    }
}

/// A frame around `body`: magic, the body's length as 8 little-endian bytes, the body.
pub open spec fn frame_of(body: Seq<u8>) -> Seq<u8> {
    magic_spec() + le_bytes(body.len(), 8) + body
}

/// What reading a frame from `bytes` gives: the body, or why there is none.
/// Bytes after the body are ignored.
pub open spec fn unframe(bytes: Seq<u8>) -> Result<Seq<u8>, FrameError> {
    if bytes.len() < 16 {
        Err(FrameError::Truncated)
    } else if bytes.take(16) != magic_spec() {
        Err(FrameError::BadMagic)
    } else if bytes.len() < 24 {
        Err(FrameError::Truncated)
    } else {
        let n = le_value(bytes.subrange(16, 24));
        if bytes.len() < 24 + n {
            Err(FrameError::Truncated)
        } else {
            Ok(bytes.subrange(24, 24 + n as int))
        }
    }
}

proof fn lemma_le_roundtrip(n: u64)
    ensures
        le_value(le_bytes(n as nat, 8)) == n,
        le_bytes(n as nat, 8).len() == 8,
{
    reveal_with_fuel(le_bytes, 9);
    reveal_with_fuel(le_value, 9);
    let b = le_bytes(n as nat, 8);
    assert(b.drop_first() == le_bytes(n as nat / 256, 7));
    assert(b.drop_first().drop_first() == le_bytes(n as nat / 256 / 256, 6));
    assert(b.drop_first().drop_first().drop_first() == le_bytes(n as nat / 256 / 256 / 256, 5));
    assert(b.drop_first().drop_first().drop_first().drop_first() == le_bytes(n as nat / 256 / 256 / 256 / 256, 4));
    assert(b.drop_first().drop_first().drop_first().drop_first().drop_first() == le_bytes(n as nat / 256 / 256 / 256 / 256 / 256, 3));
    assert(b.drop_first().drop_first().drop_first().drop_first().drop_first().drop_first() == le_bytes(n as nat / 256 / 256 / 256 / 256 / 256 / 256, 2));
    assert(b.drop_first().drop_first().drop_first().drop_first().drop_first().drop_first().drop_first() == le_bytes(n as nat / 256 / 256 / 256 / 256 / 256 / 256 / 256, 1));
    assert(n == n % 256 + 256 * ((n / 256) % 256 + 256 * ((n / 256 / 256) % 256 + 256 * ((n / 256 / 256 / 256) % 256
        + 256 * ((n / 256 / 256 / 256 / 256) % 256 + 256 * ((n / 256 / 256 / 256 / 256 / 256) % 256 + 256 * ((n / 256
        / 256 / 256 / 256 / 256 / 256) % 256 + 256 * ((n / 256 / 256 / 256 / 256 / 256 / 256 / 256) % 256)))))))) by (bit_vector);
}

/// The frame around `body`, as written to a `.mandel` file.
pub fn encode_frame(body: &[u8]) -> (r: Vec<u8>)
    requires
        body@.len() <= u64::MAX,
    ensures
        r@ == frame_of(body@),
{
    let mut r: Vec<u8> = Vec::new();
    let m = mandel_magic();
    let mut i: usize = 0;
    while i < 16
        invariant
            i <= 16,
            m@ == magic_spec(),
            r@ == magic_spec().take(i as int),
        decreases 16 - i,
    {
        r.push(m[i]);
        assert(magic_spec().take(i + 1) =~= magic_spec().take(i as int).push(m@[i as int]));
        i = i + 1;
    }
    let n = body.len() as u64;
    let mut rest = n;
    let mut k: usize = 0;
    assert(magic_spec().take(16) =~= magic_spec());
    while k < 8
        invariant
            k <= 8,
            r@ + le_bytes(rest as nat, (8 - k) as nat) == magic_spec() + le_bytes(n as nat, 8),
        decreases 8 - k,
    {
        let ghost before = r@;
        r.push((rest % 256) as u8);
        assert(le_bytes(rest as nat, (8 - k) as nat) == seq![(rest % 256) as u8] + le_bytes(
            (rest / 256) as nat,
            (8 - k - 1) as nat,
        ));
        assert(before + le_bytes(rest as nat, (8 - k) as nat) =~= r@ + le_bytes(
            (rest / 256) as nat,
            (8 - k - 1) as nat,
        ));
        rest = rest / 256;
        k = k + 1;
    }
    assert(le_bytes(rest as nat, 0) =~= Seq::<u8>::empty());
    assert(r@ =~= magic_spec() + le_bytes(n as nat, 8));
    let mut j: usize = 0;
    let ghost head = r@;
    while j < body.len()
        invariant
            j <= body.len(),
            r@ == head + body@.take(j as int),
        decreases body.len() - j,
    {
        r.push(body[j]);
        assert(body@.take(j + 1) =~= body@.take(j as int).push(body@[j as int]));
        j = j + 1;
    }
    assert(body@.take(j as int) =~= body@);
    r
}

/// The body of the frame at the start of `bytes`.
pub fn decode_frame(bytes: &[u8]) -> (r: Result<Vec<u8>, FrameError>)
    ensures
        match unframe(bytes@) {
            Ok(b) => r matches Ok(v) && v@ == b,
            Err(e) => r == Err::<Vec<u8>, FrameError>(e),
        },
{
    if bytes.len() < 16 {
        return Err(FrameError::Truncated);
    }
    let m = mandel_magic();
    let mut i: usize = 0;
    while i < 16
        invariant
            16 <= bytes.len(),
            i <= 16,
            m@ == magic_spec(),
            forall|j: int| 0 <= j < i ==> bytes@[j] == magic_spec()[j],
        decreases 16 - i,
    {
        if bytes[i] != m[i] {
            assert(bytes@.take(16)[i as int] != magic_spec()[i as int]);
            return Err(FrameError::BadMagic);
        }
        i = i + 1;
    }
    assert(bytes@.take(16) =~= magic_spec());
    if bytes.len() < 24 {
        return Err(FrameError::Truncated);
    }
    let ghost lb = bytes@.subrange(16, 24);
    proof {
        reveal_with_fuel(le_value, 9);
        assert(lb.drop_first() =~= bytes@.subrange(17, 24));
        assert(lb.drop_first().drop_first() =~= bytes@.subrange(18, 24));
        assert(lb.drop_first().drop_first().drop_first() =~= bytes@.subrange(19, 24));
        assert(lb.drop_first().drop_first().drop_first().drop_first() =~= bytes@.subrange(20, 24));
        assert(lb.drop_first().drop_first().drop_first().drop_first().drop_first() =~= bytes@.subrange(21, 24));
        assert(lb.drop_first().drop_first().drop_first().drop_first().drop_first().drop_first() =~= bytes@.subrange(22, 24));
        assert(lb.drop_first().drop_first().drop_first().drop_first().drop_first().drop_first().drop_first() =~= bytes@.subrange(23, 24));
        assert(bytes@.subrange(23, 24).drop_first() =~= Seq::<u8>::empty());
    }
    let n: u128 = bytes[16] as u128 + 256 * (bytes[17] as u128 + 256 * (bytes[18] as u128 + 256 * (bytes[19] as u128
        + 256 * (bytes[20] as u128 + 256 * (bytes[21] as u128 + 256 * (bytes[22] as u128 + 256 * (bytes[23] as u128)))))));
    assert(n == le_value(lb));
    if (bytes.len() as u128) < 24 + n {
        return Err(FrameError::Truncated);
    }
    let end = (24 + n) as usize;
    let mut v: Vec<u8> = Vec::new();
    let mut j: usize = 24;
    while j < end
        invariant
            24 <= j <= end <= bytes.len(),
            v@ == bytes@.subrange(24, j as int),
        decreases end - j,
    {
        v.push(bytes[j]);
        assert(bytes@.subrange(24, j + 1) =~= bytes@.subrange(24, j as int).push(bytes@[j as int]));
        j = j + 1;
    }
    Ok(v)
}

/// Reading a frame gives back the body it was written around.
pub proof fn law_frame_roundtrip(body: Seq<u8>)
    requires
        body.len() <= u64::MAX,
    ensures
        unframe(frame_of(body)) == Ok::<Seq<u8>, FrameError>(body),
{
    let f = frame_of(body);
    lemma_le_roundtrip(body.len() as u64);
    assert(f.take(16) =~= magic_spec());
    assert(f.subrange(16, 24) =~= le_bytes(body.len(), 8));
    assert(f.subrange(24, 24 + body.len() as int) =~= body);
}


// ---------------------------------------------------------------------------
// Loading an image from its parts
// ---------------------------------------------------------------------------

/// The view of the `(id, inode)` pairs an image is loaded from.
pub open spec fn parts_view(e: Seq<(u32, Inode)>) -> Seq<(u32, InodeView)> {
    e.map_values(|p: (u32, Inode)| (p.0, p.1@))
}

/// The map that inserting the pairs in order builds (a later pair wins).
pub open spec fn parts_map(e: Seq<(u32, InodeView)>) -> Map<u32, InodeView>
    decreases e.len(),
{
    if e.len() == 0 {
        Map::empty()
    } else {
        parts_map(e.drop_last()).insert(e.last().0, e.last().1)
    }
}

/// Each pair is stored under the inode's own id, below `next`, and names
/// only children below `next`.
pub open spec fn parts_consistent(e: Seq<(u32, InodeView)>, next: u32) -> bool {
    forall|i: int|
        0 <= i < e.len() ==> {
            &&& (#[trigger] e[i]).0 == e[i].1.id
            &&& e[i].0 < next
            &&& forall|j: int| 0 <= j < e[i].1.children.len() ==> e[i].1.children[j] < next
        }
}

/// Each pair is stored under its inode's own id.
pub open spec fn parts_keyed(e: Seq<(u32, InodeView)>) -> bool {
    forall|i: int| 0 <= i < e.len() ==> (#[trigger] e[i]).0 == e[i].1.id
}

/// One more than the largest id in `c` (0 for none).
pub open spec fn children_bound(c: Seq<u32>) -> nat
    decreases c.len(),
{
    if c.len() == 0 {
        0
    } else {
        let b = children_bound(c.drop_last());
        if c.last() + 1 > b {
            (c.last() + 1) as nat
        } else {
            b
        }
    }
}

/// One more than the largest id a pair names, its own or a child's.
pub open spec fn pair_bound(x: (u32, InodeView)) -> nat {
    let a = (x.0 + 1) as nat;
    let b = children_bound(x.1.children);
    if a > b {
        a
    } else {
        b
    }
}

/// One more than the largest id the pairs name (0 for none).
pub open spec fn parts_bound(e: Seq<(u32, InodeView)>) -> nat
    decreases e.len(),
{
    if e.len() == 0 {
        0
    } else {
        let b = parts_bound(e.drop_last());
        let c = pair_bound(e.last());
        if c > b {
            c
        } else {
            b
        }
    }
}

/// The next id of a loaded image: the saved one, raised above every id the
/// pairs name, so that a new inode never takes an id in use.
pub open spec fn loaded_next(e: Seq<(u32, InodeView)>, next: u32) -> nat {
    if parts_bound(e) > next {
        parts_bound(e)
    } else {
        next as nat
    }
}

/// The pairs can be loaded: each is stored under its inode's own id, the
/// root inode is among them, and a next id fits in a `u32`.
pub open spec fn parts_loadable(superblock: SuperBlock, e: Seq<(u32, InodeView)>, next: u32) -> bool {
    &&& parts_keyed(e)
    &&& parts_map(e).contains_key(superblock.root_inode)
    &&& loaded_next(e, next) <= u32::MAX
}

proof fn lemma_children_bound(c: Seq<u32>)
    ensures
        forall|j: int| 0 <= j < c.len() ==> c[j] < children_bound(c),
    decreases c.len(),
{
    if c.len() > 0 {
        lemma_children_bound(c.drop_last());
        assert forall|j: int| 0 <= j < c.len() implies c[j] < children_bound(c) by {
            if j < c.len() - 1 {
                assert(c[j] == c.drop_last()[j]);
            }
        }
    }
}

/// What a loaded image's tree holds of its pairs: each inode is stored under
/// its own id, and its id and children are below the pairs' bound.
proof fn lemma_parts_bound_member(e: Seq<(u32, InodeView)>, k: u32)
    requires
        parts_keyed(e),
        parts_map(e).contains_key(k),
    ensures
        parts_map(e)[k].id == k,
        k < parts_bound(e),
        forall|j: int| 0 <= j < parts_map(e)[k].children.len() ==> parts_map(e)[k].children[j] < parts_bound(e),
    decreases e.len(),
{
    let d = e.drop_last();
    assert(parts_keyed(d)) by {
        assert forall|i: int| 0 <= i < d.len() implies (#[trigger] d[i]).0 == d[i].1.id by {
            assert(d[i] == e[i]);
        }
    }
    if e.last().0 != k {
        lemma_parts_bound_member(d, k);
    } else {
        assert(e[e.len() - 1] == e.last());
        lemma_children_bound(e.last().1.children);
    }
}

/// Consistent pairs are keyed, and name no id at or above `next`.
proof fn lemma_consistent_loadable(e: Seq<(u32, InodeView)>, next: u32)
    requires
        parts_consistent(e, next),
    ensures
        parts_keyed(e),
        parts_bound(e) <= next,
    decreases e.len(),
{
    if e.len() > 0 {
        let d = e.drop_last();
        assert(parts_consistent(d, next)) by {
            assert forall|i: int| 0 <= i < d.len() implies {
                &&& (#[trigger] d[i]).0 == d[i].1.id
                &&& d[i].0 < next
                &&& forall|j: int| 0 <= j < d[i].1.children.len() ==> d[i].1.children[j] < next
            } by {
                assert(d[i] == e[i]);
            }
        }
        lemma_consistent_loadable(d, next);
        let x = e.last();
        assert(e[e.len() - 1] == x);
        lemma_children_bound_le(x.1.children, next);
    }
}

proof fn lemma_children_bound_le(c: Seq<u32>, next: u32)
    requires
        forall|j: int| 0 <= j < c.len() ==> c[j] < next,
    ensures
        children_bound(c) <= next,
    decreases c.len(),
{
    if c.len() > 0 {
        assert(c[c.len() - 1] == c.last());
        lemma_children_bound_le(c.drop_last(), next);
    }
}

impl DiskImage {
    /// An image from a superblock, its `(id, inode)` pairs and the next id, as
    /// read back from a `.mandel` body; the next id is raised above every id
    /// the pairs name. Refused as corrupt where a pair is not stored under
    /// its inode's id (walks go from a child's id to the inode stored there),
    /// the root inode is missing, or no `u32` is left above the ids in use.
    pub fn from_parts(superblock: SuperBlock, parts: Vec<(u32, Inode)>, next_inode: u32) -> (r: Result<DiskImage, DiskError>)
        ensures
            parts_loadable(superblock, parts_view(parts@), next_inode) ==> (r matches Ok(img) && img.wf()
                && img.tree() == parts_map(parts_view(parts@)) && img.superblock == superblock
                && img.next_inode == loaded_next(parts_view(parts@), next_inode)),
            !parts_loadable(superblock, parts_view(parts@), next_inode) ==> r == Err::<DiskImage, DiskError>(
                DiskError::Corrupt,
            ),
    {
        let ghost pv = parts_view(parts@);
        let mut inodes: BTreeMap<u32, Inode> = BTreeMap::new();
        let mut parts = parts;
        let ghost all = parts@;
        let mut rev: Vec<(u32, Inode)> = Vec::new();
        while parts.len() > 0
            invariant
                parts@ + rev@.reverse() == all,
            decreases parts.len(),
        {
            let p = parts.pop().unwrap();
            let ghost before_rev = rev@;
            rev.push(p);
            assert(rev@.reverse() =~= seq![p] + before_rev.reverse());
        }
        assert(rev@.reverse() =~= all);
        let mut ok = true;
        let mut bound: u64 = 0;
        let ghost mut done: Seq<(u32, Inode)> = seq![];
        while rev.len() > 0
            invariant
                done + rev@.reverse() == all,
                pv == parts_view(all),
                inodes@.map_values(|i: Inode| i@) == parts_map(parts_view(done)),
                ok == parts_keyed(parts_view(done)),
                bound == parts_bound(parts_view(done)),
                bound <= 4294967296,
            decreases rev.len(),
        {
            let (key, inode) = rev.pop().unwrap();
            let ghost item = (key, inode);
            let mut cb: u64 = 0;
            let mut j: usize = 0;
            while j < inode.children.len()
                invariant
                    j <= inode.children.len(),
                    cb == children_bound(inode.children@.take(j as int)),
                    cb <= 4294967296,
                decreases inode.children.len() - j,
            {
                assert(inode.children@.take(j + 1).drop_last() =~= inode.children@.take(j as int));
                assert(inode.children@.take(j + 1).last() == inode.children@[j as int]);
                let c = inode.children[j] as u64 + 1;
                if c > cb {
                    cb = c;
                }
                j = j + 1;
            }
            assert(inode.children@.take(j as int) =~= inode.children@);
            let kb = key as u64 + 1;
            let pb = if kb > cb {
                kb
            } else {
                cb
            };
            let good = key == inode.id;
            let ghost prev_done = done;
            proof {
                done = done.push(item);
                assert(done + rev@.reverse() =~= prev_done + (seq![item] + rev@.reverse()));
                assert(parts_view(done).drop_last() =~= parts_view(prev_done));
                assert(parts_view(done).last() == (key, inode@));
            }
            ok = ok && good;
            bound = if pb > bound {
                pb
            } else {
                bound
            };
            proof {
                let dv = parts_view(done);
                let pv2 = parts_view(prev_done);
                assert(forall|i: int| 0 <= i < pv2.len() ==> dv[i] == pv2[i]);
                assert(dv[pv2.len() as int] == (key, inode@));
                if parts_keyed(dv) {
                    assert forall|i: int| 0 <= i < pv2.len() implies (#[trigger] pv2[i]).0 == pv2[i].1.id by {
                        assert(dv[i] == pv2[i]);
                    }
                    assert(dv[pv2.len() as int].0 == dv[pv2.len() as int].1.id);
                }
                if parts_keyed(pv2) && good {
                    assert forall|i: int| 0 <= i < dv.len() implies (#[trigger] dv[i]).0 == dv[i].1.id by {
                        if i < pv2.len() {
                            assert(dv[i] == pv2[i]);
                        }
                    }
                }
            }
            let ghost prev_map = inodes@;
            inodes.insert(key, inode);
            assert(inodes@.map_values(|i: Inode| i@) =~= prev_map.map_values(|i: Inode| i@).insert(key, item.1@));
        }
        assert(done =~= all);
        let root = superblock.root_inode;
        let has_root = inodes.contains_key(&root);
        let next: u64 = if bound > next_inode as u64 {
            bound
        } else {
            next_inode as u64
        };
        if ok && has_root && next <= 4294967295u64 {
            let img = DiskImage { superblock, inodes, next_inode: next as u32 };
            proof {
                assert forall|k: u32| #[trigger] img.inodes@.contains_key(k) implies img.inodes@[k].id == k && k < img.next_inode by {
                    lemma_parts_bound_member(parts_view(all), k);
                    assert(img.inodes@.map_values(|i: Inode| i@)[k] == img.inodes@[k]@);
                }
                assert forall|k: u32, j: int|
                    img.inodes@.contains_key(k) && 0 <= j < img.inodes@[k].children@.len()
                        implies #[trigger] img.inodes@[k].children@[j] < img.next_inode by {
                    lemma_parts_bound_member(parts_view(all), k);
                    assert(img.inodes@.map_values(|i: Inode| i@) == parts_map(parts_view(all)));
                    assert(img.inodes@.map_values(|i: Inode| i@)[k] == img.inodes@[k]@);
                    assert(img.inodes@[k].children@[j] == parts_map(parts_view(all))[k].children[j]);
                }
            }
            Ok(img)
        } else {
            Err(DiskError::Corrupt)
        }
    }
}

/// A copy of a list of inode ids.
fn copy_ids(c: &Vec<u32>) -> (v: Vec<u32>)
    ensures
        v@ == c@,
{
    let mut v: Vec<u32> = Vec::new();
    let mut i: usize = 0;
    while i < c.len()
        invariant
            i <= c.len(),
            v@ == c@.take(i as int),
        decreases c.len() - i,
    {
        v.push(c[i]);
        assert(c@.take(i + 1) =~= c@.take(i as int).push(c@[i as int]));
        i = i + 1;
    }
    assert(c@.take(i as int) =~= c@);
    v
}

/// A copy of an inode.
fn copy_inode(i: &Inode) -> (r: Inode)
    ensures
        r@ == i@,
{
    Inode {
        id: i.id,
        kind: i.kind,
        name: owned(i.name.as_str()),
        parent: i.parent,
        size: i.size,
        children: copy_ids(&i.children),
        data: copy_bytes(i.data.as_slice()),
    }
}

impl DiskImage {
    /// The image as what a `.mandel` body holds: the superblock, the
    /// `(id, inode)` pairs in increasing id order, and the next id. Of a
    /// well-formed image the pairs map exactly to its inode tree, each
    /// stored under its own id, below the next id.
    pub fn to_parts(&self) -> (r: (SuperBlock, Vec<(u32, Inode)>, u32))
        ensures
            r.0 == self.superblock,
            r.2 == self.next_inode,
            forall|i: int, j: int| 0 <= i < j < r.1@.len() ==> r.1@[i].0 < r.1@[j].0,
            self.wf() ==> parts_map(parts_view(r.1@)) == self.tree(),
            self.wf() ==> parts_consistent(parts_view(r.1@), self.next_inode),
    {
        let sb = SuperBlock {
            magic: self.superblock.magic,
            version: self.superblock.version,
            block_size: self.superblock.block_size,
            total_blocks: self.superblock.total_blocks,
            used_blocks: self.superblock.used_blocks,
            root_inode: self.superblock.root_inode,
        };
        let mut parts: Vec<(u32, Inode)> = Vec::new();
        let mut k: u32 = 0;
        assert(parts_view(parts@) =~= Seq::<(u32, InodeView)>::empty());
        assert(self.tree().restrict(Set::new(|j: u32| j < 0)) =~= Map::<u32, InodeView>::empty());
        while k < self.next_inode
            invariant
                k <= self.next_inode,
                forall|i: int| 0 <= i < parts@.len() ==> parts@[i].0 < k,
                forall|i: int, j: int| 0 <= i < j < parts@.len() ==> parts@[i].0 < parts@[j].0,
                self.wf() ==> parts_map(parts_view(parts@)) == self.tree().restrict(Set::new(|j: u32| j < k)),
                self.wf() ==> parts_consistent(parts_view(parts@), self.next_inode),
            decreases self.next_inode - k,
        {
            let ghost before = parts@;
            let ghost lo = self.tree().restrict(Set::new(|j: u32| j < k));
            let ghost hi = self.tree().restrict(Set::new(|j: u32| j < k + 1));
            match self.inodes.get(&k) {
                Some(i) => {
                    let c = copy_inode(i);
                    parts.push((k, c));
                    assert(parts_view(parts@) =~= parts_view(before).push((k, c@)));
                    assert(parts_view(parts@).drop_last() =~= parts_view(before));
                    assert(self.tree().contains_key(k) && self.tree()[k] == c@);
                    assert(hi =~= lo.insert(k, c@));
                    proof {
                    if self.wf() {
                        assert forall|t: int| 0 <= t < parts_view(parts@).len() implies {
                            &&& (#[trigger] parts_view(parts@)[t]).0 == parts_view(parts@)[t].1.id
                            &&& parts_view(parts@)[t].0 < self.next_inode
                            &&& forall|j: int| 0 <= j < parts_view(parts@)[t].1.children.len()
                                ==> parts_view(parts@)[t].1.children[j] < self.next_inode
                        } by {
                            if t < before.len() {
                                assert(parts_view(parts@)[t] == parts_view(before)[t]);
                            } else {
                                assert(self.inodes@[k].id == k);
                                assert forall|j: int| 0 <= j < c@.children.len() implies c@.children[j]
                                    < self.next_inode by {
                                    assert(self.inodes@[k].children@[j] < self.next_inode);
                                }
                            }
                        }
                    }
                    }
                },
                None => {
                    assert(!self.tree().contains_key(k));
                    assert(hi =~= lo);
                },
            }
            k = k + 1;
        }
        proof {
            if self.wf() {
                lemma_wf_tree(*self);
                assert(self.tree().restrict(Set::new(|j: u32| j < k)) =~= self.tree());
            }
        }
        (sb, parts, self.next_inode)
    }
}

/// A saved image loads back: pairs that map to a well-formed image's inode
/// tree, each stored under its own id below the image's next id (what
/// `to_parts` gives), are accepted by `from_parts`, which then rebuilds the
/// same tree, superblock and next id.
pub proof fn law_saved_parts_load(img: DiskImage, e: Seq<(u32, InodeView)>)
    requires
        img.wf(),
        parts_map(e) == img.tree(),
        parts_consistent(e, img.next_inode),
    ensures
        parts_loadable(img.superblock, e, img.next_inode),
        loaded_next(e, img.next_inode) == img.next_inode,
{
    lemma_wf_tree(img);
    lemma_consistent_loadable(e, img.next_inode);
}

// ---------------------------------------------------------------------------
// Reading back what was written
// ---------------------------------------------------------------------------

/// What well-formedness says of the tree.
proof fn lemma_wf_tree(img: DiskImage)
    requires
        img.wf(),
    ensures
        img.tree().contains_key(img.superblock.root_inode),
        forall|k: u32| #[trigger] img.tree().contains_key(k) ==> img.tree()[k].id == k && k < img.next_inode,
        forall|k: u32, j: int| #![trigger img.tree()[k].children[j]]
            img.tree().contains_key(k) && 0 <= j < img.tree()[k].children.len() ==> img.tree()[k].children[j]
                < img.next_inode,
{
    assert forall|k: u32, j: int| #![trigger img.tree()[k].children[j]]
        img.tree().contains_key(k) && 0 <= j < img.tree()[k].children.len() implies img.tree()[k].children[j]
            < img.next_inode by {
        assert(img.tree()[k] == img.inodes@[k]@);
        assert(img.inodes@[k].children@[j] < img.next_inode);
    }
}

/// A walk from an inode of the tree ends at an inode of the tree.
proof fn lemma_walk_in_tree(m: Map<u32, InodeView>, cur: u32, parts: Seq<Seq<char>>)
    requires
        m.contains_key(cur),
        forall|k: u32| #[trigger] m.contains_key(k) ==> m[k].id == k,
    ensures
        walk(m, cur, parts) matches Some(x) ==> m.contains_key(x),
    decreases parts.len(),
{
    if parts.len() > 0 {
        lemma_find_child_some(m, m[cur].children, parts[0]);
        match find_child(m, m[cur].children, parts[0]) {
            Some(cid) => {
                lemma_walk_in_tree(m, m[cid].id, parts.drop_first());
            },
            None => {},
        }
    }
}

/// Walking `a` then `b` is walking `a + b`.
proof fn lemma_walk_append(m: Map<u32, InodeView>, cur: u32, a: Seq<Seq<char>>, b: Seq<Seq<char>>)
    ensures
        walk(m, cur, a + b) == match walk(m, cur, a) {
            Some(x) => walk(m, x, b),
            None => None,
        },
    decreases a.len(),
{
    if a.len() == 0 {
        assert(a + b =~= b);
    } else {
        assert((a + b)[0] == a[0]);
        assert((a + b).drop_first() =~= a.drop_first() + b);
        if m.contains_key(cur) {
            match find_child(m, m[cur].children, a[0]) {
                Some(cid) => {
                    lemma_walk_append(m, m[cid].id, a.drop_first(), b);
                },
                None => {},
            }
        }
    }
}

/// `find_child` on a list with one more id at the end finds what it found
/// before, or else that id if it is the entry.
proof fn lemma_find_child_push(m: Map<u32, InodeView>, l: Seq<u32>, x: u32, name: Seq<char>)
    ensures
        find_child(m, l.push(x), name) == match find_child(m, l, name) {
            Some(c) => Some(c),
            None => if names_entry(m, x, name) {
                Some(x)
            } else {
                None
            },
        },
    decreases l.len(),
{
    if l.len() == 0 {
        assert(l.push(x) =~= seq![x]);
        assert(seq![x].drop_first() =~= Seq::<u32>::empty());
    } else {
        assert(l.push(x)[0] == l[0]);
        assert(l.push(x).drop_first() =~= l.drop_first().push(x));
        lemma_find_child_push(m, l.drop_first(), x, name);
    }
}

/// `find_child` depends only on the entries of the listed ids.
proof fn lemma_find_child_same(m1: Map<u32, InodeView>, m2: Map<u32, InodeView>, l: Seq<u32>, name: Seq<char>)
    requires
        forall|j: int| 0 <= j < l.len() ==> names_entry(m1, #[trigger] l[j], name) == names_entry(m2, l[j], name),
    ensures
        find_child(m1, l, name) == find_child(m2, l, name),
    decreases l.len(),
{
    if l.len() > 0 {
        assert(names_entry(m1, l[0], name) == names_entry(m2, l[0], name));
        assert forall|j: int| 0 <= j < l.drop_first().len() implies names_entry(m1, #[trigger] l.drop_first()[j], name)
            == names_entry(m2, l.drop_first()[j], name) by {
            assert(l.drop_first()[j] == l[j + 1]);
        }
        lemma_find_child_same(m1, m2, l.drop_first(), name);
    }
}

/// A walk that succeeds in `old` succeeds the same way once an entry was added.
proof fn lemma_walk_kept(old: DiskImage, new: DiskImage, parent_path: Seq<char>, kind: InodeKind,
    name: Seq<char>, data: Seq<u8>, blocks: nat, id: u32, cur: u32, parts: Seq<Seq<char>>)
    requires
        old.wf(),
        entry_added(old, new, parent_path, kind, name, data, blocks, id),
        walk(old.tree(), cur, parts) is Some,
    ensures
        walk(new.tree(), cur, parts) == walk(old.tree(), cur, parts),
    decreases parts.len(),
{
    let mo = old.tree();
    let mn = new.tree();
    lemma_wf_tree(old);
    lemma_walk_in_tree(mo, old.superblock.root_inode, nonempty_pieces(parent_path, '/'));
    let p = old.spec_lookup(parent_path).unwrap();
    if parts.len() > 0 {
        assert(mo.contains_key(cur));
        assert(cur != id);
        let l = mo[cur].children;
        assert forall|j: int| 0 <= j < l.len() implies names_entry(mo, #[trigger] l[j], parts[0]) == names_entry(
            mn,
            l[j],
            parts[0],
        ) by {
            assert(mo[cur].children[j] < old.next_inode);
            let c = l[j];
            if c == p {
                assert(mn[c].name == mo[c].name);
            } else {
                assert(c != id);
            }
        }
        lemma_find_child_same(mo, mn, l, parts[0]);
        lemma_find_child_some(mo, l, parts[0]);
        let cid = find_child(mo, l, parts[0]).unwrap();
        if cur == p {
            lemma_find_child_push(mn, l, id, parts[0]);
        }
        assert(mn[cid].id == mo[cid].id);
        lemma_walk_kept(old, new, parent_path, kind, name, data, blocks, id, mo[cid].id, parts.drop_first());
    }
}

/// Reading back a written file: once `write_file(parent_path, name, data)`
/// has succeeded with a `name` that is one path piece (non-empty, no `/`)
/// that the parent directory did not hold yet, the path `parent_path/name`
/// names the new inode, a file whose contents are `data`; `read_file` on
/// that path gives `data`.
pub proof fn law_read_back_written_file(old: DiskImage, new: DiskImage, parent_path: Seq<char>,
    name: Seq<char>, data: Seq<u8>, id: u32)
    requires
        old.wf(),
        file_written(old, new, parent_path, name, data, id),
        name.len() > 0,
        !name.contains('/'),
        find_child(old.tree(), old.tree()[old.spec_lookup(parent_path).unwrap()].children, name) is None,
    ensures
        new.spec_lookup(parent_path + seq!['/'] + name) == Some(id),
        new.tree()[id].kind == InodeKind::File,
        new.tree()[id].data == data,
{
    lemma_wf_tree(old);
    lemma_walk_in_tree(old.tree(), old.superblock.root_inode, nonempty_pieces(parent_path, '/'));
    let p = old.spec_lookup(parent_path).unwrap();
    let blocks = blocks_for(data.len());
    lemma_pieces_concat(parent_path, '/', name);
    lemma_pieces_single(name, '/');
    let pp = nonempty_pieces(parent_path, '/');
    lemma_walk_append(new.tree(), new.superblock.root_inode, pp, seq![name]);
    lemma_walk_kept(old, new, parent_path, InodeKind::File, name, data, blocks, id, old.superblock.root_inode, pp);
    assert(new.superblock.root_inode == old.superblock.root_inode);
    let mn = new.tree();
    let mo = old.tree();
    assert(mn[p].children == mo[p].children.push(id));
    assert forall|j: int| 0 <= j < mo[p].children.len() implies names_entry(mo, #[trigger] mo[p].children[j], name)
        == names_entry(mn, mo[p].children[j], name) by {
        assert(mo[p].children[j] < old.next_inode);
        let c = mo[p].children[j];
        if c == p {
            assert(mn[c].name == mo[c].name);
        } else {
            assert(c != id);
        }
    }
    lemma_find_child_same(mo, mn, mo[p].children, name);
    lemma_find_child_push(mn, mo[p].children, id, name);
    assert(seq![name].drop_first() =~= Seq::<Seq<char>>::empty());
    assert(mn.contains_key(p));
    assert(mn[id].name == name);
    assert(names_entry(mn, id, name));
    assert(find_child(mn, mn[p].children, name) == Some(id));
    assert(mn[id].id == id);
    assert(seq![name][0] == name);
    assert(walk(mn, p, seq![name]) == walk(mn, id, Seq::<Seq<char>>::empty()));
    assert(walk(mn, old.superblock.root_inode, pp) == Some(p));
    assert(nonempty_pieces(parent_path + seq!['/'] + name, '/') == pp + seq![name]);
}

/// A successful `mkdir` or `write_file` under `parent_path`, as inode `id`.
pub open spec fn entry_made(old: DiskImage, new: DiskImage, parent_path: Seq<char>, name: Seq<char>, data: Seq<u8>, id: u32) -> bool {
    dir_made(old, new, parent_path, name, id) || file_written(old, new, parent_path, name, data, id)
}

/// Adding an entry keeps every path: once `mkdir` or `write_file` has
/// succeeded, each path that named an inode before names the same inode,
/// whose kind and contents are as they were, so `read_file` on it gives
/// what it gave before.
pub proof fn law_paths_kept(old: DiskImage, new: DiskImage, parent_path: Seq<char>, name: Seq<char>,
    data: Seq<u8>, id: u32, path: Seq<char>)
    requires
        old.wf(),
        entry_made(old, new, parent_path, name, data, id),
        old.spec_lookup(path) is Some,
    ensures
        new.spec_lookup(path) == old.spec_lookup(path),
        new.tree()[old.spec_lookup(path).unwrap()].kind == old.tree()[old.spec_lookup(path).unwrap()].kind,
        new.tree()[old.spec_lookup(path).unwrap()].data == old.tree()[old.spec_lookup(path).unwrap()].data,
{
    let (kind, d, blocks) = if dir_made(old, new, parent_path, name, id) {
        (InodeKind::Dir, Seq::<u8>::empty(), 1nat)
    } else {
        (InodeKind::File, data, blocks_for(data.len()))
    };
    assert(entry_added(old, new, parent_path, kind, name, d, blocks, id));
    lemma_wf_tree(old);
    let parts = nonempty_pieces(path, '/');
    lemma_walk_kept(old, new, parent_path, kind, name, d, blocks, id, old.superblock.root_inode, parts);
    assert(new.superblock.root_inode == old.superblock.root_inode);
    lemma_walk_in_tree(old.tree(), old.superblock.root_inode, parts);
    let q = old.spec_lookup(path).unwrap();
    assert(old.tree().contains_key(q));
    assert(q != id);
}

/// One step of a run of disk operations: nothing changed (a failed call) or
/// a `mkdir` or `write_file` succeeded.
pub open spec fn disk_step(old: DiskImage, new: DiskImage) -> bool {
    ||| new == old
    ||| exists|p: Seq<char>, n: Seq<char>, d: Seq<u8>, id: u32| #[trigger] entry_made(old, new, p, n, d, id)
}

proof fn lemma_step_keeps_total(old: DiskImage, new: DiskImage)
    requires
        disk_step(old, new),
    ensures
        new.superblock.total_blocks == old.superblock.total_blocks,
{
    if new != old {
        let (p, n, d, id) = choose|p: Seq<char>, n: Seq<char>, d: Seq<u8>, id: u32| #[trigger] entry_made(old, new, p, n, d, id);
        assert(entry_made(old, new, p, n, d, id));
    }
}

/// The capacity stays: over any run of `mkdir` and `write_file` calls, the
/// image's total blocks, and so `capacity_mb`, stay as they were.
pub proof fn law_capacity_kept(imgs: Seq<DiskImage>)
    requires
        imgs.len() > 0,
        forall|i: int| 0 <= i < imgs.len() - 1 ==> disk_step(#[trigger] imgs[i], imgs[i + 1]),
    ensures
        forall|i: int| 0 <= i < imgs.len() ==> (#[trigger] imgs[i]).superblock.total_blocks == imgs[0].superblock.total_blocks,
    decreases imgs.len(),
{
    if imgs.len() > 1 {
        let d = imgs.drop_last();
        assert forall|i: int| 0 <= i < d.len() - 1 implies disk_step(#[trigger] d[i], d[i + 1]) by {
            assert(d[i] == imgs[i] && d[i + 1] == imgs[i + 1]);
        }
        law_capacity_kept(d);
        let l = imgs.len() - 1;
        assert(disk_step(imgs[l - 1], imgs[l]));
        lemma_step_keeps_total(imgs[l - 1], imgs[l]);
        assert forall|i: int| 0 <= i < imgs.len() implies (#[trigger] imgs[i]).superblock.total_blocks
            == imgs[0].superblock.total_blocks by {
            if i < l {
                assert(imgs[i] == d[i]);
            }
            assert(imgs[l - 1] == d[l - 1]);
        }
    }
}

/// A new image has the capacity it was made with.
pub proof fn law_create_capacity(capacity_mb: u64, total_blocks: u64)
    requires
        capacity_mb * 1048576 <= u64::MAX,
        total_blocks == capacity_mb * 1048576 / 4096,
    ensures
        total_blocks * 4096 <= u64::MAX,
        total_blocks * 4096 / 1048576 == capacity_mb,
{
    assert(capacity_mb * 1048576 / 4096 == capacity_mb * 256) by (nonlinear_arith);
    assert(capacity_mb * 256 * 4096 == capacity_mb * 1048576) by (nonlinear_arith);
    assert(capacity_mb * 1048576 / 1048576 == capacity_mb) by (nonlinear_arith);
}

proof fn lemma_sorted_insert_contains(s: Seq<(Seq<char>, bool)>, x: (Seq<char>, bool))
    ensures
        sorted_insert(s, x).contains(x),
        forall|e: (Seq<char>, bool)| s.contains(e) ==> #[trigger] sorted_insert(s, x).contains(e),
    decreases s.len(),
{
    if s.len() == 0 {
        assert(seq![x][0] == x);
    } else if seq_le(s.last().0, x.0) {
        assert(s.push(x)[s.len() as int] == x);
        assert forall|e: (Seq<char>, bool)| s.contains(e) implies #[trigger] sorted_insert(s, x).contains(e) by {
            let j = choose|j: int| 0 <= j < s.len() && s[j] == e;
            assert(s.push(x)[j] == e);
        }
    } else {
        let d = s.drop_last();
        lemma_sorted_insert_contains(d, x);
        let r = sorted_insert(d, x);
        let j0 = choose|j: int| 0 <= j < r.len() && r[j] == x;
        assert(r.push(s.last())[j0] == x);
        assert forall|e: (Seq<char>, bool)| s.contains(e) implies #[trigger] sorted_insert(s, x).contains(e) by {
            let j = choose|j: int| 0 <= j < s.len() && s[j] == e;
            if j == s.len() - 1 {
                assert(r.push(s.last())[r.len() as int] == e);
            } else {
                assert(d[j] == e);
                assert(d.contains(e));
                assert(sorted_insert(d, x).contains(e));
                let k = choose|k: int| 0 <= k < r.len() && r[k] == e;
                assert(r.push(s.last())[k] == e);
            }
        }
    }
}

/// Sorting by name keeps every entry.
pub proof fn lemma_sort_by_name_contains(s: Seq<(Seq<char>, bool)>, e: (Seq<char>, bool))
    requires
        s.contains(e),
    ensures
        sort_by_name(s).contains(e),
    decreases s.len(),
{
    let d = s.drop_last();
    lemma_sorted_insert_contains(sort_by_name(d), s.last());
    if e != s.last() {
        let j = choose|j: int| 0 <= j < s.len() && s[j] == e;
        assert(d[j] == e);
        lemma_sort_by_name_contains(d, e);
    }
}

/// A directory made with `mkdir` is listed: once `mkdir(parent_path, name)`
/// has succeeded, the parent path still names the same directory, and its
/// listing holds `name` as a directory.
pub proof fn law_made_dir_is_listed(old: DiskImage, new: DiskImage, parent_path: Seq<char>, name: Seq<char>, id: u32)
    requires
        old.wf(),
        dir_made(old, new, parent_path, name, id),
    ensures
        new.spec_lookup(parent_path) == old.spec_lookup(parent_path),
        sort_by_name(entries(new.tree(), new.tree()[new.spec_lookup(parent_path).unwrap()].children)).contains(
            (name, true),
        ),
{
    lemma_wf_tree(old);
    let pp = nonempty_pieces(parent_path, '/');
    lemma_walk_kept(old, new, parent_path, InodeKind::Dir, name, seq![], 1, id, old.superblock.root_inode, pp);
    assert(new.superblock.root_inode == old.superblock.root_inode);
    let p = old.spec_lookup(parent_path).unwrap();
    let mn = new.tree();
    let ch = mn[p].children;
    lemma_walk_in_tree(old.tree(), old.superblock.root_inode, pp);
    assert(p != id);
    assert(ch.last() == id);
    assert(ch.drop_last() =~= old.tree()[p].children);
    assert(mn.contains_key(id) && mn[id].name == name && mn[id].kind == InodeKind::Dir);
    let es = entries(mn, ch);
    assert(es == entries(mn, ch.drop_last()).push((name, true)));
    assert(es[es.len() - 1] == (name, true));
    lemma_sort_by_name_contains(es, (name, true));
}

} // verus!
