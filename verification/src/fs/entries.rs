//! Stores inodes and their relationships.
//!
//! The entry graph is a tree, but an inode needs both a parent-and-name
//! lookup and read accessors, so it is held as two flat tables owned by the
//! graph: the entry table (where the inode number is the position, so inode
//! numbers are unique and never reused by construction) and the child table
//! mapping a `(parent inode, name)` pair to at most one child inode.

use vstd::prelude::*;

use super::inode_generator::{INodeGenerator, ROOT_INODE};
use crate::text::str_eq;

verus! {

/// The kind of a synthetic file.
#[derive(Clone, Copy, Debug, PartialEq, Eq, Structural)]
pub enum FileKind {
    Directory,
    RegularFile,
    Symlink,
}

/// The fixed attributes of a synthetic file, decided at creation.  All
/// timestamps of an entry equal the mount time, held here in `time` as
/// seconds since the epoch.
#[derive(Clone, Copy, Debug, PartialEq, Eq, Structural)]
pub struct Attr {
    pub ino: u64,
    pub size: u64,
    pub blocks: u64,
    pub time: u64,
    pub kind: FileKind,
    pub perm: u16,
    pub nlink: u32,
    pub uid: u32,
    pub gid: u32,
    pub blksize: u32,
}

/// Each inode is one and only one of these.
pub enum Entry {
    /// Root inode - there is only ever one. Path /.
    Root { attr: Attr },
    /// Query directory inode - at most one. Path: /?.
    QueryDir { attr: Attr },
    /// Path: /?/query
    QueryResultDir { display_name: String, query: String, attr: Attr },
    /// Path: /tag
    TagDir { name: String, attr: Attr },
    /// Path: /tag/value
    ValueDir { display_name: String, value: String, tag: String, attr: Attr },
    /// Symlink to a real file.  `target` references a mapping id in the
    /// store, so the link's destination is resolved fresh on every read.
    Link { name: String, target: u64, attr: Attr },
    /// Mirror directory inode - at most one. Path: /tags.
    AllTagsDir { attr: Attr },
    /// Path: /tags/some/path/component/
    AllTagsIntermediate { path: String, name: String, attr: Attr },
    /// Path: /tags/some/path/component/some_file.tags
    AllTagsTerminal { path: String, name: String, attr: Attr },
}

/// Public type enum to avoid exposing the entry enum's fields.
#[derive(Clone, Copy, Debug, PartialEq, Eq, Structural)]
pub enum EntryType {
    Root,
    QueryDir,
    QueryResultDir,
    TagDir,
    Link,
    ValueDir,
    AllTagsDir,
    AllTagsIntermediate,
    AllTagsTerminal,
}

/// The attributes held by an entry.
pub open spec fn entry_attr(e: Entry) -> Attr {
    match e {
        Entry::Root { attr } => attr,
        Entry::QueryDir { attr } => attr,
        Entry::QueryResultDir { attr, .. } => attr,
        Entry::TagDir { attr, .. } => attr,
        Entry::ValueDir { attr, .. } => attr,
        Entry::Link { attr, .. } => attr,
        Entry::AllTagsDir { attr } => attr,
        Entry::AllTagsIntermediate { attr, .. } => attr,
        Entry::AllTagsTerminal { attr, .. } => attr,
    }
}

/// The type tag of an entry.
pub open spec fn entry_type(e: Entry) -> EntryType {
    match e {
        Entry::Root { .. } => EntryType::Root,
        Entry::QueryDir { .. } => EntryType::QueryDir,
        Entry::QueryResultDir { .. } => EntryType::QueryResultDir,
        Entry::TagDir { .. } => EntryType::TagDir,
        Entry::ValueDir { .. } => EntryType::ValueDir,
        Entry::Link { .. } => EntryType::Link,
        Entry::AllTagsDir { .. } => EntryType::AllTagsDir,
        Entry::AllTagsIntermediate { .. } => EntryType::AllTagsIntermediate,
        Entry::AllTagsTerminal { .. } => EntryType::AllTagsTerminal,
    }
}

/// The file kind an entry of this shape must carry.
pub open spec fn entry_nature(e: Entry) -> FileKind {
    match e {
        Entry::Link { .. } => FileKind::Symlink,
        Entry::AllTagsTerminal { .. } => FileKind::RegularFile,
        _ => FileKind::Directory,
    }
}

/// The name an entry answers to (the root and the two reserved directories
/// have fixed names).
pub open spec fn entry_name(e: Entry) -> Seq<char> {
    match e {
        Entry::Root { .. } => "/"@,
        Entry::QueryDir { .. } => "?"@,
        Entry::AllTagsDir { .. } => "tags"@,
        Entry::QueryResultDir { display_name, .. } => display_name@,
        Entry::TagDir { name, .. } => name@,
        Entry::ValueDir { display_name, .. } => display_name@,
        Entry::AllTagsIntermediate { name, .. } => name@,
        Entry::AllTagsTerminal { name, .. } => name@,
        Entry::Link { name, .. } => name@,
    }
}

/// The attribute block of a synthetic directory: empty, mode 0755,
/// stamped at the mount time.
pub open spec fn dir_attr_spec(ino: u64, time: u64) -> Attr {
    Attr {
        ino,
        size: 0,
        blocks: 0,
        time,
        kind: FileKind::Directory,
        perm: 0o755,
        nlink: 1,
        uid: 1000,
        gid: 1000,
        blksize: 512,
    }
}

/// The attribute block of a mirror terminal: a conservative 512-byte
/// read-only file (the actual bytes are produced on read).
pub open spec fn terminal_attr_spec(ino: u64, time: u64) -> Attr {
    Attr {
        ino,
        size: 512,
        blocks: 1,
        time,
        kind: FileKind::RegularFile,
        perm: 0o444,
        nlink: 1,
        uid: 1000,
        gid: 1000,
        blksize: 512,
    }
}

/// The attribute block of a link: its size advertises the target path's
/// length at creation.
pub open spec fn link_attr_spec(ino: u64, target_len: u64, time: u64) -> Attr {
    Attr {
        ino,
        size: target_len,
        blocks: 0,
        time,
        kind: FileKind::Symlink,
        perm: 0o755,
        nlink: 1,
        uid: 1000,
        gid: 1000,
        blksize: 512,
    }
}

/// One row of the child table: `name` resolves to `child` under `parent`.
pub struct ChildLink {
    pub parent: u64,
    pub name: String,
    pub child: u64,
}

/// Tracks the mapping of inodes to entries.
pub struct Entries {
    /// Generates a unique inode.
    generator: INodeGenerator,
    /// The entry of inode `i` sits at position `i - 1`.
    table: Vec<Entry>,
    /// The child table: `(parent, name) -> child`, at most one row per key.
    names: Vec<ChildLink>,
    /// The mount time, stamped on every entry's attributes.
    time: u64,
}

impl Entries {
    /// How many entries are live.
    pub closed spec fn count(&self) -> nat {
        self.table@.len()
    }

    /// The entry of a live inode.
    pub closed spec fn entry_of(&self, ino: u64) -> Entry {
        self.table@[ino - 1]
    }

    /// Whether an inode is live.
    pub open spec fn live(&self, ino: u64) -> bool {
        1 <= ino <= self.count()
    }

    /// Whether a fresh inode can still be allocated.
    pub open spec fn can_alloc(&self) -> bool {
        self.count() < u64::MAX
    }

    /// The mount time stamped on every entry.
    pub closed spec fn time_spec(&self) -> u64 {
        self.time
    }

    /// The child-table row at one position.
    pub closed spec fn link_at(&self, j: int) -> ChildLink {
        self.names@[j]
    }

    /// Whether the row at `j` keys `(parent, name)`.
    pub closed spec fn link_matches(&self, j: int, parent: u64, name: Seq<char>) -> bool {
        0 <= j < self.names@.len() && self.link_at(j).parent == parent && self.link_at(j).name@
            == name
    }

    /// Whether `(parent, name)` resolves to a child.
    pub closed spec fn has_child(&self, parent: u64, name: Seq<char>) -> bool {
        exists|j: int| self.link_matches(j, parent, name)
    }

    /// The child that `(parent, name)` resolves to.
    pub closed spec fn child_of(&self, parent: u64, name: Seq<char>) -> u64
        recommends
            self.has_child(parent, name),
    {
        self.link_at(choose|j: int| self.link_matches(j, parent, name)).child
    }

    /// Well-formedness: the root exists; each entry carries its own inode
    /// number and the file kind of its shape; the child table's rows name
    /// live inodes and no two rows share a key.
    pub closed spec fn wf(&self) -> bool {
        &&& self.count() >= 1
        &&& self.generator.last_spec() == self.count()
        &&& self.table@[0] is Root
        &&& forall|i: int|
            0 <= i < self.table@.len() ==> entry_attr(#[trigger] self.table@[i]).ino == i + 1
        &&& forall|i: int|
            0 <= i < self.table@.len() ==> entry_attr(#[trigger] self.table@[i]).kind
                == entry_nature(self.table@[i])
        &&& forall|i: int|
            0 <= i < self.table@.len() ==> entry_attr(#[trigger] self.table@[i]).time == self.time
        &&& forall|j: int|
            0 <= j < self.names@.len() ==> self.live((#[trigger] self.names@[j]).parent)
                && self.live(self.names@[j].child)
        &&& forall|j: int|
            0 <= j < self.names@.len() ==> (#[trigger] self.names@[j]).parent
                < self.names@[j].child
        &&& forall|j: int, k: int|
            0 <= j < k < self.names@.len() ==> !((#[trigger] self.names@[j]).parent == (
            #[trigger] self.names@[k]).parent && self.names@[j].name@ == self.names@[k].name@)
    }

    /// No two live entries share an inode id: the attribute block of each
    /// live inode carries that inode and no other.
    pub proof fn lemma_inode_uniqueness(&self, a: u64, b: u64)
        requires
            self.wf(),
            self.live(a),
            self.live(b),
            a != b,
        ensures
            entry_attr(self.entry_of(a)).ino != entry_attr(self.entry_of(b)).ino,
    {
        assert(entry_attr(self.table@[a - 1]).ino == a);
        assert(entry_attr(self.table@[b - 1]).ino == b);
    }

    /// For every parent, `name -> child` is a function: two child-table
    /// rows with the same parent and name are the same row, so a name
    /// resolves to at most one child.
    pub proof fn lemma_name_key_uniqueness(&self, parent: u64, name: Seq<char>)
        requires
            self.wf(),
            self.has_child(parent, name),
        ensures
            forall|j: int, k: int|
                #[trigger] self.link_matches(j, parent, name) && #[trigger] self.link_matches(
                    k,
                    parent,
                    name,
                ) ==> self.link_at(j).child == self.link_at(k).child,
            self.link_matches(
                choose|j: int| self.link_matches(j, parent, name),
                parent,
                name,
            ),
    {
        assert forall|j: int, k: int|
            #[trigger] self.link_matches(j, parent, name) && #[trigger] self.link_matches(
                k,
                parent,
                name,
            ) implies self.link_at(j).child == self.link_at(k).child by {
            if j < k {
                assert(!(self.names@[j].parent == self.names@[k].parent && self.names@[j].name@
                    == self.names@[k].name@));
            } else if k < j {
                assert(!(self.names@[k].parent == self.names@[j].parent && self.names@[k].name@
                    == self.names@[j].name@));
            }
        }
    }

    /// Attempt to return the inode of the requested entry, if it cannot be
    /// found return None.
    pub fn try_get_inode(&self, parent_inode: u64, name: &str) -> (r: Option<u64>)
        requires
            self.wf(),
        ensures
            match r {
                Some(c) => self.has_child(parent_inode, name@) && c == self.child_of(
                    parent_inode,
                    name@,
                ) && self.live(c),
                None => !self.has_child(parent_inode, name@),
            },
    {
        let n = self.names.len();
        let mut j: usize = 0;
        while j < n
            invariant
                self.wf(),
                n == self.names@.len(),
                j <= n,
                forall|k: int| 0 <= k < j ==> !self.link_matches(k, parent_inode, name@),
            decreases n - j,
        {
            if self.names[j].parent == parent_inode && str_eq(self.names[j].name.as_str(), name) {
                let c = self.names[j].child;
                proof {
                    assert(self.link_matches(j as int, parent_inode, name@));
                    self.lemma_name_key_uniqueness(parent_inode, name@);
                    let w = choose|k: int| self.link_matches(k, parent_inode, name@);
                    assert(self.link_at(w).child == self.link_at(j as int).child);
                }
                return Some(c);
            }
            j += 1;
        }
        proof {
            assert forall|k: int| !self.link_matches(k, parent_inode, name@) by {
                if 0 <= k < n {
                    assert(!self.link_matches(k, parent_inode, name@));
                }
            }
        }
        None
    }

    /// Inserts or replaces the child-table row for `(parent, name)`.  A
    /// child always sits above its parent in inode order (it is allocated
    /// later), which keeps the graph free of cycles.
    fn set_child(&mut self, parent: u64, name: &str, child: u64)
        requires
            old(self).wf(),
            old(self).live(parent),
            old(self).live(child),
            parent < child,
        ensures
            final(self).wf(),
            final(self).count() == old(self).count(),
            final(self).time_spec() == old(self).time_spec(),
            forall|i: u64| old(self).live(i) ==> final(self).entry_of(i) == old(self).entry_of(i),
            forall|p: u64, n: Seq<char>|
                #[trigger] final(self).has_child(p, n) == (old(self).has_child(p, n) || (p
                    == parent && n == name@)),
            forall|p: u64, n: Seq<char>|
                final(self).has_child(p, n) ==> #[trigger] final(self).child_of(p, n) == (if p
                    == parent && n == name@ {
                    child
                } else {
                    old(self).child_of(p, n)
                }),
    {
        let ghost pre = *self;
        let n = self.names.len();
        let mut j: usize = 0;
        let mut found: bool = false;
        let mut at: usize = 0;
        while j < n
            invariant
                n == self.names@.len(),
                j <= n,
                !found ==> forall|k: int| 0 <= k < j ==> !self.link_matches(k, parent, name@),
                found ==> at < j && self.link_matches(at as int, parent, name@),
            decreases n - j,
        {
            if !found && self.names[j].parent == parent && str_eq(
                self.names[j].name.as_str(),
                name,
            ) {
                found = true;
                at = j;
            }
            j += 1;
        }
        let row = ChildLink { parent, name: name.to_owned(), child };
        if found {
            self.names.remove(at);
            self.names.insert(at, row);
            proof {
                assert(self.names@ =~= pre.names@.update(at as int, row));
            }
        } else {
            self.names.push(row);
        }
        proof {
            let oldn = pre.names@;
            let newn = self.names@;
            let last = newn.len() - 1;
            // Well-formedness of the new child table.
            assert forall|a: int, b: int| 0 <= a < b < newn.len() implies !((
            #[trigger] newn[a]).parent == (#[trigger] newn[b]).parent && newn[a].name@
                == newn[b].name@) by {
                if found {
                    if a != at && b != at {
                        assert(newn[a] == oldn[a] && newn[b] == oldn[b]);
                    } else if a == at {
                        assert(newn[b] == oldn[b]);
                        assert(!(oldn[at as int].parent == oldn[b].parent && oldn[
                            at as int].name@ == oldn[b].name@));
                    } else {
                        assert(newn[a] == oldn[a]);
                        assert(!(oldn[a].parent == oldn[at as int].parent && oldn[a].name@
                            == oldn[at as int].name@));
                    }
                } else {
                    if b == last {
                        assert(newn[a] == oldn[a]);
                        assert(!pre.link_matches(a, parent, name@));
                    } else {
                        assert(newn[a] == oldn[a] && newn[b] == oldn[b]);
                    }
                }
            }
            assert forall|a: int| 0 <= a < newn.len() implies (#[trigger] newn[a]).parent
                < newn[a].child by {
                if found {
                    if a != at {
                        assert(newn[a] == oldn[a]);
                    }
                } else {
                    if a != last {
                        assert(newn[a] == oldn[a]);
                    }
                }
            }
            // The child map after the update.
            assert forall|p: u64, n2: Seq<char>| #[trigger] self.has_child(p, n2) == (
            pre.has_child(p, n2) || (p == parent && n2 == name@)) by {
                if p == parent && n2 == name@ {
                    if found {
                        assert(self.link_matches(at as int, p, n2));
                    } else {
                        assert(self.link_matches(last, p, n2));
                    }
                    assert(self.has_child(p, n2));
                } else {
                    if self.has_child(p, n2) {
                        let w = choose|k: int| self.link_matches(k, p, n2);
                        if found {
                            assert(w != at);
                            assert(newn[w] == oldn[w]);
                        } else {
                            assert(w != last);
                            assert(newn[w] == oldn[w]);
                        }
                        assert(pre.link_matches(w, p, n2));
                        assert(pre.has_child(p, n2));
                    }
                    if pre.has_child(p, n2) {
                        let w = choose|k: int| pre.link_matches(k, p, n2);
                        if found {
                            assert(w != at);
                        }
                        assert(self.link_matches(w, p, n2));
                        assert(self.has_child(p, n2));
                    }
                }
            }
            assert forall|p: u64, n2: Seq<char>| self.has_child(p, n2) implies
                #[trigger] self.child_of(p, n2) == (if p == parent && n2 == name@ {
                child
            } else {
                pre.child_of(p, n2)
            }) by {
                let w = choose|k: int| self.link_matches(k, p, n2);
                if p == parent && n2 == name@ {
                    if found {
                        if w != at {
                            assert(newn[w] == oldn[w]);
                            assert(pre.link_matches(w, p, n2));
                            assert(!(oldn[w].parent == oldn[at as int].parent && oldn[w].name@
                                == oldn[at as int].name@) || w == at);
                            assert(false);
                        }
                        assert(self.link_at(w).child == child);
                    } else {
                        if w != last {
                            assert(newn[w] == oldn[w]);
                            assert(pre.link_matches(w, p, n2));
                            assert(false);
                        }
                        assert(self.link_at(w).child == child);
                    }
                } else {
                    if found {
                        assert(w != at);
                    } else {
                        assert(w != last);
                    }
                    assert(newn[w] == oldn[w]);
                    assert(pre.link_matches(w, p, n2));
                    let w2 = choose|k: int| pre.link_matches(k, p, n2);
                    pre.lemma_name_key_uniqueness(p, n2);
                    assert(pre.link_at(w2).child == pre.link_at(w).child);
                }
            }
        }
    }
}


/// Builds an attribute block: timestamps at the mount time, owner
/// 1000/1000, one link, 512-byte blocks.
fn make_attr(ino: u64, kind: FileKind, size: u64, blocks: u64, perm: u16, time: u64) -> (r: Attr)
    ensures
        r == (Attr { ino, size, blocks, time, kind, perm, nlink: 1, uid: 1000, gid: 1000, blksize: 512 }),
{
    Attr { ino, size, blocks, time, kind, perm, nlink: 1, uid: 1000, gid: 1000, blksize: 512 }
}

impl Entries {
    /// How many entries are live, as a number.
    pub fn entry_count(&self) -> (r: u64)
        ensures
            r == self.count(),
    {
        self.table.len() as u64
    }

    proof fn lemma_push_wf(pre: Entries, post: Entries, e: Entry)
        requires
            pre.wf(),
            pre.count() < u64::MAX,
            post.table@ == pre.table@.push(e),
            post.names@ == pre.names@,
            post.generator.last_spec() == pre.generator.last_spec() + 1,
            post.time == pre.time,
            entry_attr(e).ino == pre.count() + 1,
            entry_attr(e).kind == entry_nature(e),
            entry_attr(e).time == pre.time,
        ensures
            post.wf(),
            post.count() == pre.count() + 1,
            post.time_spec() == pre.time_spec(),
            forall|i: u64| pre.live(i) ==> post.entry_of(i) == pre.entry_of(i),
            post.entry_of((pre.count() + 1) as u64) == e,
            forall|p: u64, n: Seq<char>|
                #[trigger] post.has_child(p, n) == pre.has_child(p, n),
            forall|p: u64, n: Seq<char>|
                post.has_child(p, n) ==> #[trigger] post.child_of(p, n) == pre.child_of(p, n),
    {
        assert forall|i: int| 0 <= i < post.table@.len() implies entry_attr(
            #[trigger] post.table@[i],
        ).ino == i + 1 by {
            if i < pre.table@.len() {
                assert(post.table@[i] == pre.table@[i]);
            }
        }
        assert forall|i: int| 0 <= i < post.table@.len() implies entry_attr(
            #[trigger] post.table@[i],
        ).kind == entry_nature(post.table@[i]) by {
            if i < pre.table@.len() {
                assert(post.table@[i] == pre.table@[i]);
            }
        }
        assert forall|i: int| 0 <= i < post.table@.len() implies entry_attr(
            #[trigger] post.table@[i],
        ).time == post.time by {
            if i < pre.table@.len() {
                assert(post.table@[i] == pre.table@[i]);
            }
        }
        assert(post.table@[0] == pre.table@[0]);
        assert forall|p: u64, n: Seq<char>| #[trigger] post.has_child(p, n) == pre.has_child(
            p,
            n,
        ) by {
            if post.has_child(p, n) {
                let w = choose|j: int| post.link_matches(j, p, n);
                assert(pre.link_matches(w, p, n));
            }
            if pre.has_child(p, n) {
                let w = choose|j: int| pre.link_matches(j, p, n);
                assert(post.link_matches(w, p, n));
            }
        }
        assert forall|p: u64, n: Seq<char>| post.has_child(p, n) implies #[trigger] post.child_of(
            p,
            n,
        ) == pre.child_of(p, n) by {
            let w = choose|j: int| post.link_matches(j, p, n);
            assert(pre.link_matches(w, p, n));
            let w2 = choose|j: int| pre.link_matches(j, p, n);
            pre.lemma_name_key_uniqueness(p, n);
            assert(pre.link_at(w).child == pre.link_at(w2).child);
        }
    }

    /// Create a new entries struct and initialise it with the root inode,
    /// stamped with the given mount time.
    pub fn new(time: u64) -> (r: Entries)
        ensures
            r.wf(),
            r.count() == 1,
            r.time_spec() == time,
            r.entry_of(ROOT_INODE) == (Entry::Root {
                attr: Attr {
                    ino: ROOT_INODE,
                    size: 0,
                    blocks: 0,
                    time,
                    kind: FileKind::Directory,
                    perm: 0o755,
                    nlink: 1,
                    uid: 1000,
                    gid: 1000,
                    blksize: 512,
                },
            }),
            forall|p: u64, n: Seq<char>| !#[trigger] r.has_child(p, n),
    {
        let attr = make_attr(ROOT_INODE, FileKind::Directory, 0, 0, 0o755, time);
        let mut table: Vec<Entry> = Vec::new();
        table.push(Entry::Root { attr });
        let r = Entries { generator: INodeGenerator::new(), table, names: Vec::new(), time };
        proof {
            assert forall|p: u64, n: Seq<char>| !#[trigger] r.has_child(p, n) by {
                if r.has_child(p, n) {
                    let w = choose|j: int| r.link_matches(j, p, n);
                }
            }
        }
        r
    }

    /// Allocates a fresh entry (bumping the inode counter) and binds it
    /// under `(parent, name)`, replacing any child-table row for that key.
    fn insert_fresh(&mut self, parent: u64, name: &str, entry: Entry) -> (ino: u64)
        requires
            old(self).wf(),
            old(self).can_alloc(),
            old(self).live(parent),
            entry_attr(entry).ino == old(self).count() + 1,
            entry_attr(entry).kind == entry_nature(entry),
            entry_attr(entry).time == old(self).time_spec(),
        ensures
            final(self).wf(),
            final(self).time_spec() == old(self).time_spec(),
            ino == old(self).count() + 1,
            final(self).count() == old(self).count() + 1,
            final(self).live(ino),
            forall|i: u64| old(self).live(i) ==> final(self).entry_of(i) == old(self).entry_of(i),
            final(self).entry_of(ino) == entry,
            forall|p: u64, n: Seq<char>|
                #[trigger] final(self).has_child(p, n) == (old(self).has_child(p, n) || (p
                    == parent && n == name@)),
            forall|p: u64, n: Seq<char>|
                final(self).has_child(p, n) ==> #[trigger] final(self).child_of(p, n) == (if p
                    == parent && n == name@ {
                    ino
                } else {
                    old(self).child_of(p, n)
                }),
    {
        let ghost pre = *self;
        let ino = (self.table.len() as u64) + 1;
        let ghost ge = entry;
        self.table.push(entry);
        let _bumped = self.generator.next();
        proof {
            Self::lemma_push_wf(pre, *self, ge);
        }
        self.set_child(parent, name, ino);
        ino
    }
}


impl Entries {
    /// Returns the inode of the query directory, or creates it if it does
    /// not exist (a child of the root under the reserved name `?`).
    pub fn get_or_create_query_directory(&mut self) -> (ino: u64)
        requires
            old(self).wf(),
            old(self).can_alloc(),
        ensures
            final(self).wf(),
            final(self).time_spec() == old(self).time_spec(),
            final(self).live(ino),
            old(self).count() <= final(self).count() <= old(self).count() + 1,
            forall|i: u64| old(self).live(i) ==> final(self).entry_of(i) == old(self).entry_of(i),
            forall|p: u64, n: Seq<char>|
                #[trigger] old(self).has_child(p, n) ==> final(self).has_child(p, n)
                    && final(self).child_of(p, n) == old(self).child_of(p, n),
            old(self).has_child(ROOT_INODE, "?"@) ==> *final(self) == *old(self) && ino == old(
                self,
            ).child_of(ROOT_INODE, "?"@),
            !old(self).has_child(ROOT_INODE, "?"@) ==> ({
                &&& ino == old(self).count() + 1
                &&& final(self).count() == old(self).count() + 1
                &&& (final(self).entry_of(ino) matches Entry::QueryDir { attr } && attr
                    == dir_attr_spec(ino, old(self).time_spec()))
                &&& forall|p: u64, n: Seq<char>|
                    #[trigger] final(self).has_child(p, n) == (old(self).has_child(p, n) || (p
                        == ROOT_INODE && n == "?"@))
            }),
            final(self).has_child(ROOT_INODE, "?"@) && final(self).child_of(ROOT_INODE, "?"@)
                == ino,
    {
        match self.try_get_inode(ROOT_INODE, "?") {
            Some(inode) => inode,
            None => {
                let ino = (self.table.len() as u64) + 1;
                let attr = make_attr(ino, FileKind::Directory, 0, 0, 0o755, self.time);
                self.insert_fresh(ROOT_INODE, "?", Entry::QueryDir { attr })
            },
        }
    }

    /// Returns the inode of the all tags directory, or creates it if it
    /// does not exist (a child of the root under the reserved name `tags`).
    pub fn get_or_create_all_tags_dir(&mut self) -> (ino: u64)
        requires
            old(self).wf(),
            old(self).can_alloc(),
        ensures
            final(self).wf(),
            final(self).time_spec() == old(self).time_spec(),
            final(self).live(ino),
            old(self).count() <= final(self).count() <= old(self).count() + 1,
            forall|i: u64| old(self).live(i) ==> final(self).entry_of(i) == old(self).entry_of(i),
            forall|p: u64, n: Seq<char>|
                #[trigger] old(self).has_child(p, n) ==> final(self).has_child(p, n)
                    && final(self).child_of(p, n) == old(self).child_of(p, n),
            old(self).has_child(ROOT_INODE, "tags"@) ==> *final(self) == *old(self) && ino == old(
                self,
            ).child_of(ROOT_INODE, "tags"@),
            !old(self).has_child(ROOT_INODE, "tags"@) ==> ({
                &&& ino == old(self).count() + 1
                &&& final(self).count() == old(self).count() + 1
                &&& (final(self).entry_of(ino) matches Entry::AllTagsDir { attr } && attr
                    == dir_attr_spec(ino, old(self).time_spec()))
                &&& forall|p: u64, n: Seq<char>|
                    #[trigger] final(self).has_child(p, n) == (old(self).has_child(p, n) || (p
                        == ROOT_INODE && n == "tags"@))
            }),
            final(self).has_child(ROOT_INODE, "tags"@) && final(self).child_of(
                ROOT_INODE,
                "tags"@,
            ) == ino,
    {
        match self.try_get_inode(ROOT_INODE, "tags") {
            Some(inode) => inode,
            None => {
                let ino = (self.table.len() as u64) + 1;
                let attr = make_attr(ino, FileKind::Directory, 0, 0, 0o755, self.time);
                self.insert_fresh(ROOT_INODE, "tags", Entry::AllTagsDir { attr })
            },
        }
    }

    /// Returns the inode of a parent name pair, or creates a tag directory
    /// there if the name resolves to nothing.
    pub fn get_or_create_tag_directory(&mut self, parent_inode: u64, name: &str) -> (ino: u64)
        requires
            old(self).wf(),
            old(self).can_alloc(),
            old(self).live(parent_inode),
        ensures
            final(self).wf(),
            final(self).time_spec() == old(self).time_spec(),
            final(self).live(ino),
            old(self).count() <= final(self).count() <= old(self).count() + 1,
            forall|i: u64| old(self).live(i) ==> final(self).entry_of(i) == old(self).entry_of(i),
            forall|p: u64, n: Seq<char>|
                #[trigger] old(self).has_child(p, n) ==> final(self).has_child(p, n)
                    && final(self).child_of(p, n) == old(self).child_of(p, n),
            old(self).has_child(parent_inode, name@) ==> *final(self) == *old(self) && ino == old(
                self,
            ).child_of(parent_inode, name@),
            !old(self).has_child(parent_inode, name@) ==> ({
                &&& ino == old(self).count() + 1
                &&& final(self).count() == old(self).count() + 1
                &&& (final(self).entry_of(ino) matches Entry::TagDir { name: n, attr } && n@
                    == name@ && attr == dir_attr_spec(ino, old(self).time_spec()))
                &&& forall|p: u64, n: Seq<char>|
                    #[trigger] final(self).has_child(p, n) == (old(self).has_child(p, n) || (p
                        == parent_inode && n == name@))
            }),
            final(self).has_child(parent_inode, name@) && final(self).child_of(
                parent_inode,
                name@,
            ) == ino,
    {
        match self.try_get_inode(parent_inode, name) {
            Some(inode) => inode,
            None => {
                let ino = (self.table.len() as u64) + 1;
                let attr = make_attr(ino, FileKind::Directory, 0, 0, 0o755, self.time);
                self.insert_fresh(
                    parent_inode,
                    name,
                    Entry::TagDir { name: name.to_owned(), attr },
                )
            },
        }
    }

    /// Returns the inode of a parent name pair, or creates a value
    /// directory there.  The display name is the path-safe form of the
    /// value; `value` is kept verbatim for use as a query parameter; the
    /// parent's tag name is captured at creation.
    pub fn get_or_create_value_directory(&mut self, parent_inode: u64, name: &str, value: &str)
        -> (ino: u64)
        requires
            old(self).wf(),
            old(self).can_alloc(),
            old(self).live(parent_inode),
        ensures
            final(self).wf(),
            final(self).time_spec() == old(self).time_spec(),
            final(self).live(ino),
            old(self).count() <= final(self).count() <= old(self).count() + 1,
            forall|i: u64| old(self).live(i) ==> final(self).entry_of(i) == old(self).entry_of(i),
            forall|p: u64, n: Seq<char>|
                #[trigger] old(self).has_child(p, n) ==> final(self).has_child(p, n)
                    && final(self).child_of(p, n) == old(self).child_of(p, n),
            old(self).has_child(parent_inode, name@) ==> *final(self) == *old(self) && ino == old(
                self,
            ).child_of(parent_inode, name@),
            !old(self).has_child(parent_inode, name@) ==> ({
                &&& ino == old(self).count() + 1
                &&& final(self).count() == old(self).count() + 1
                &&& (final(self).entry_of(ino) matches Entry::ValueDir {
                    display_name: n,
                    value: v,
                    tag: t,
                    attr,
                } && n@ == name@ && v@ == value@ && t@ == entry_name(
                    old(self).entry_of(parent_inode),
                ) && attr == dir_attr_spec(ino, old(self).time_spec()))
                &&& forall|p: u64, n: Seq<char>|
                    #[trigger] final(self).has_child(p, n) == (old(self).has_child(p, n) || (p
                        == parent_inode && n == name@))
            }),
            final(self).has_child(parent_inode, name@) && final(self).child_of(
                parent_inode,
                name@,
            ) == ino,
    {
        match self.try_get_inode(parent_inode, name) {
            Some(inode) => inode,
            None => {
                let parent_tag = self.get_name(parent_inode).to_owned();
                let ino = (self.table.len() as u64) + 1;
                let attr = make_attr(ino, FileKind::Directory, 0, 0, 0o755, self.time);
                self.insert_fresh(
                    parent_inode,
                    name,
                    Entry::ValueDir {
                        display_name: name.to_owned(),
                        value: value.to_owned(),
                        tag: parent_tag,
                        attr,
                    },
                )
            },
        }
    }

    /// Returns the inode of a query result directory under the query
    /// directory, or creates it if it does not exist.
    pub fn get_or_create_query_result_dir(&mut self, query: &str, name: &str) -> (ino: u64)
        requires
            old(self).wf(),
            old(self).count() + 2 <= u64::MAX,
        ensures
            final(self).wf(),
            final(self).time_spec() == old(self).time_spec(),
            final(self).live(ino),
            old(self).count() <= final(self).count() <= old(self).count() + 2,
            forall|i: u64| old(self).live(i) ==> final(self).entry_of(i) == old(self).entry_of(i),
            ({
                let qd = final(self).child_of(ROOT_INODE, "?"@);
                &&& final(self).has_child(ROOT_INODE, "?"@)
                &&& final(self).has_child(qd, name@)
                &&& final(self).child_of(qd, name@) == ino
                &&& (!old(self).has_child(ROOT_INODE, "?"@) || !old(self).has_child(
                    old(self).child_of(ROOT_INODE, "?"@),
                    name@,
                )) ==> (final(self).entry_of(ino) matches Entry::QueryResultDir {
                    display_name: n,
                    query: q,
                    attr,
                } && n@ == name@ && q@ == query@ && attr == dir_attr_spec(
                    ino,
                    old(self).time_spec(),
                ))
            }),
            forall|p: u64, n: Seq<char>|
                #[trigger] old(self).has_child(p, n) ==> final(self).has_child(p, n)
                    && final(self).child_of(p, n) == old(self).child_of(p, n),
    {
        let query_dir_inode = self.get_or_create_query_directory();
        match self.try_get_inode(query_dir_inode, name) {
            Some(inode) => inode,
            None => {
                let ino = (self.table.len() as u64) + 1;
                let attr = make_attr(ino, FileKind::Directory, 0, 0, 0o755, self.time);
                self.insert_fresh(
                    query_dir_inode,
                    name,
                    Entry::QueryResultDir {
                        display_name: name.to_owned(),
                        query: query.to_owned(),
                        attr,
                    },
                )
            },
        }
    }

    /// Returns the inode of a parent name pair in the all tags hierarchy,
    /// creating an intermediate directory when the name resolves to
    /// nothing; a non-directory squatting on the name is shadowed by a
    /// fresh directory.
    pub fn get_or_create_all_tags_intermediate(&mut self, parent_inode: u64, name: &str, path:
        &str) -> (ino: u64)
        requires
            old(self).wf(),
            old(self).can_alloc(),
            old(self).live(parent_inode),
        ensures
            final(self).wf(),
            final(self).time_spec() == old(self).time_spec(),
            final(self).live(ino),
            old(self).count() <= final(self).count() <= old(self).count() + 1,
            forall|i: u64| old(self).live(i) ==> final(self).entry_of(i) == old(self).entry_of(i),
            ({
                let reuse = old(self).has_child(parent_inode, name@) && entry_attr(
                    old(self).entry_of(old(self).child_of(parent_inode, name@)),
                ).kind == FileKind::Directory;
                if reuse {
                    *final(self) == *old(self) && ino == old(self).child_of(parent_inode, name@)
                } else {
                    &&& ino == old(self).count() + 1
                    &&& final(self).count() == old(self).count() + 1
                    &&& (final(self).entry_of(ino) matches Entry::AllTagsIntermediate {
                        path: p2,
                        name: n,
                        attr,
                    } && n@ == name@ && p2@ == path@ && attr == dir_attr_spec(
                        ino,
                        old(self).time_spec(),
                    ))
                }
            }),
            final(self).has_child(parent_inode, name@) && final(self).child_of(
                parent_inode,
                name@,
            ) == ino,
            forall|p: u64, n: Seq<char>|
                #[trigger] final(self).has_child(p, n) == (old(self).has_child(p, n) || (p
                    == parent_inode && n == name@)),
            forall|p: u64, n: Seq<char>|
                #[trigger] old(self).has_child(p, n) && !(p == parent_inode && n == name@)
                    ==> final(self).child_of(p, n) == old(self).child_of(p, n),
    {
        match self.try_get_inode(parent_inode, name) {
            Some(inode) => {
                if self.get_attr(inode).kind == FileKind::Directory {
                    return inode;
                }
                let ino = (self.table.len() as u64) + 1;
                let attr = make_attr(ino, FileKind::Directory, 0, 0, 0o755, self.time);
                self.insert_fresh(
                    parent_inode,
                    name,
                    Entry::AllTagsIntermediate {
                        path: path.to_owned(),
                        name: name.to_owned(),
                        attr,
                    },
                )
            },
            None => {
                let ino = (self.table.len() as u64) + 1;
                let attr = make_attr(ino, FileKind::Directory, 0, 0, 0o755, self.time);
                self.insert_fresh(
                    parent_inode,
                    name,
                    Entry::AllTagsIntermediate {
                        path: path.to_owned(),
                        name: name.to_owned(),
                        attr,
                    },
                )
            },
        }
    }

    /// Returns the inode of a parent name pair in the all tags hierarchy,
    /// creating a terminal file when the name resolves to nothing; a
    /// non-file squatting on the name is shadowed by a fresh file.
    pub fn get_or_create_all_tags_terminal(&mut self, parent_inode: u64, name: &str, path: &str)
        -> (ino: u64)
        requires
            old(self).wf(),
            old(self).can_alloc(),
            old(self).live(parent_inode),
        ensures
            final(self).wf(),
            final(self).time_spec() == old(self).time_spec(),
            final(self).live(ino),
            old(self).count() <= final(self).count() <= old(self).count() + 1,
            forall|i: u64| old(self).live(i) ==> final(self).entry_of(i) == old(self).entry_of(i),
            ({
                let reuse = old(self).has_child(parent_inode, name@) && entry_attr(
                    old(self).entry_of(old(self).child_of(parent_inode, name@)),
                ).kind == FileKind::RegularFile;
                if reuse {
                    *final(self) == *old(self) && ino == old(self).child_of(parent_inode, name@)
                } else {
                    &&& ino == old(self).count() + 1
                    &&& final(self).count() == old(self).count() + 1
                    &&& (final(self).entry_of(ino) matches Entry::AllTagsTerminal {
                        path: p2,
                        name: n,
                        attr,
                    } && n@ == name@ && p2@ == path@ && attr == terminal_attr_spec(
                        ino,
                        old(self).time_spec(),
                    ))
                }
            }),
            final(self).has_child(parent_inode, name@) && final(self).child_of(
                parent_inode,
                name@,
            ) == ino,
            forall|p: u64, n: Seq<char>|
                #[trigger] final(self).has_child(p, n) == (old(self).has_child(p, n) || (p
                    == parent_inode && n == name@)),
            forall|p: u64, n: Seq<char>|
                #[trigger] old(self).has_child(p, n) && !(p == parent_inode && n == name@)
                    ==> final(self).child_of(p, n) == old(self).child_of(p, n),
    {
        match self.try_get_inode(parent_inode, name) {
            Some(inode) => {
                if self.get_attr(inode).kind == FileKind::RegularFile {
                    return inode;
                }
                let ino = (self.table.len() as u64) + 1;
                let attr = make_attr(ino, FileKind::RegularFile, 512, 1, 0o444, self.time);
                self.insert_fresh(
                    parent_inode,
                    name,
                    Entry::AllTagsTerminal { path: path.to_owned(), name: name.to_owned(), attr },
                )
            },
            None => {
                let ino = (self.table.len() as u64) + 1;
                let attr = make_attr(ino, FileKind::RegularFile, 512, 1, 0o444, self.time);
                self.insert_fresh(
                    parent_inode,
                    name,
                    Entry::AllTagsTerminal { path: path.to_owned(), name: name.to_owned(), attr },
                )
            },
        }
    }

    /// Create and store attributes for a tag symlink.  Always allocates a
    /// fresh link (callers de-duplicate via [`Entries::try_get_link_inode`]);
    /// the link's size advertises the target path's length at creation.
    pub fn create_link(&mut self, parent_inode: u64, name: &str, target: u64, target_len: u64)
        -> (ino: u64)
        requires
            old(self).wf(),
            old(self).can_alloc(),
            old(self).live(parent_inode),
        ensures
            final(self).wf(),
            final(self).time_spec() == old(self).time_spec(),
            final(self).live(ino),
            ino == old(self).count() + 1,
            final(self).count() == old(self).count() + 1,
            forall|i: u64| old(self).live(i) ==> final(self).entry_of(i) == old(self).entry_of(i),
            (final(self).entry_of(ino) matches Entry::Link { name: n, target: t, attr } && n@
                == name@ && t == target && attr == link_attr_spec(
                ino,
                target_len,
                old(self).time_spec(),
            )),
            forall|p: u64, n: Seq<char>|
                #[trigger] final(self).has_child(p, n) == (old(self).has_child(p, n) || (p
                    == parent_inode && n == name@)),
            forall|p: u64, n: Seq<char>|
                #[trigger] old(self).has_child(p, n) && !(p == parent_inode && n == name@)
                    ==> final(self).child_of(p, n) == old(self).child_of(p, n),
            final(self).child_of(parent_inode, name@) == ino,
    {
        let ino = (self.table.len() as u64) + 1;
        let attr = make_attr(ino, FileKind::Symlink, target_len, 0, 0o755, self.time);
        self.insert_fresh(
            parent_inode,
            name,
            Entry::Link { name: name.to_owned(), target, attr },
        )
    }

    /// Attempt to return the inode of the requested entry; `None` unless
    /// the found entry is a Link whose mapping id matches, so stale links
    /// under a renamed mapping are never re-used.
    pub fn try_get_link_inode(&self, parent_inode: u64, name: &str, tag_mapping_id: u64) -> (r:
        Option<u64>)
        requires
            self.wf(),
        ensures
            match r {
                Some(c) => self.has_child(parent_inode, name@) && c == self.child_of(
                    parent_inode,
                    name@,
                ) && self.live(c) && (self.entry_of(c) matches Entry::Link { target, .. }
                    && target == tag_mapping_id),
                None => !self.has_child(parent_inode, name@) || !(self.entry_of(
                    self.child_of(parent_inode, name@),
                ) matches Entry::Link { target, .. } && target == tag_mapping_id),
            },
    {
        match self.try_get_inode(parent_inode, name) {
            Some(inode) => {
                match self.entry_ref(inode) {
                    Entry::Link { target, .. } => {
                        if *target == tag_mapping_id {
                            Some(inode)
                        } else {
                            None
                        }
                    },
                    _ => None,
                }
            },
            None => None,
        }
    }
}



impl Entries {
    fn entry_ref(&self, inode: u64) -> (r: &Entry)
        requires
            self.live(inode),
        ensures
            *r == self.entry_of(inode),
    {
        let n = self.table.len();
        proof {
            assert(inode - 1 < n);
        }
        &self.table[(inode - 1) as usize]
    }
}

impl Entries {
    /// Get the attributes for an inode.
    ///
    /// Calling this with a dead inode is a programming error, so liveness
    /// is demanded of the caller.
    pub fn get_attr(&self, inode: u64) -> (r: Attr)
        requires
            self.live(inode),
        ensures
            r == entry_attr(self.entry_of(inode)),
    {
        match self.entry_ref(inode) {
            Entry::Root { attr } => *attr,
            Entry::QueryDir { attr } => *attr,
            Entry::QueryResultDir { attr, .. } => *attr,
            Entry::TagDir { attr, .. } => *attr,
            Entry::ValueDir { attr, .. } => *attr,
            Entry::Link { attr, .. } => *attr,
            Entry::AllTagsDir { attr } => *attr,
            Entry::AllTagsIntermediate { attr, .. } => *attr,
            Entry::AllTagsTerminal { attr, .. } => *attr,
        }
    }

    /// Get the name of an inode.
    pub fn get_name(&self, inode: u64) -> (r: &str)
        requires
            self.live(inode),
        ensures
            r@ == entry_name(self.entry_of(inode)),
    {
        match self.entry_ref(inode) {
            Entry::Root { .. } => "/",
            Entry::QueryDir { .. } => "?",
            Entry::AllTagsDir { .. } => "tags",
            Entry::QueryResultDir { display_name, .. } => display_name.as_str(),
            Entry::TagDir { name, .. } => name.as_str(),
            Entry::ValueDir { display_name, .. } => display_name.as_str(),
            Entry::AllTagsIntermediate { name, .. } => name.as_str(),
            Entry::AllTagsTerminal { name, .. } => name.as_str(),
            Entry::Link { name, .. } => name.as_str(),
        }
    }

    /// Get the type of an inode.
    pub fn get_type(&self, inode: u64) -> (r: EntryType)
        requires
            self.live(inode),
        ensures
            r == entry_type(self.entry_of(inode)),
    {
        match self.entry_ref(inode) {
            Entry::Root { .. } => EntryType::Root,
            Entry::QueryDir { .. } => EntryType::QueryDir,
            Entry::QueryResultDir { .. } => EntryType::QueryResultDir,
            Entry::TagDir { .. } => EntryType::TagDir,
            Entry::ValueDir { .. } => EntryType::ValueDir,
            Entry::Link { .. } => EntryType::Link,
            Entry::AllTagsDir { .. } => EntryType::AllTagsDir,
            Entry::AllTagsIntermediate { .. } => EntryType::AllTagsIntermediate,
            Entry::AllTagsTerminal { .. } => EntryType::AllTagsTerminal,
        }
    }

    /// Get the parent tag associated with a value directory.
    ///
    /// Only valid on a value directory; anything else is a programming
    /// error, so the shape is demanded of the caller.
    pub fn get_parent_tag(&self, inode: u64) -> (r: &str)
        requires
            self.live(inode),
            self.entry_of(inode) is ValueDir,
        ensures
            self.entry_of(inode) matches Entry::ValueDir { tag, .. } && r@ == tag@,
    {
        match self.entry_ref(inode) {
            Entry::ValueDir { tag, .. } => tag.as_str(),
            _ => {
                proof {
                    assert(false);
                }
                ""
            },
        }
    }

    /// Get the raw value of a value directory.
    pub fn get_tag_value(&self, inode: u64) -> (r: &str)
        requires
            self.live(inode),
            self.entry_of(inode) is ValueDir,
        ensures
            self.entry_of(inode) matches Entry::ValueDir { value, .. } && r@ == value@,
    {
        match self.entry_ref(inode) {
            Entry::ValueDir { value, .. } => value.as_str(),
            _ => {
                proof {
                    assert(false);
                }
                ""
            },
        }
    }

    /// Get the query text of a query result directory.
    pub fn get_query(&self, inode: u64) -> (r: &str)
        requires
            self.live(inode),
            self.entry_of(inode) is QueryResultDir,
        ensures
            self.entry_of(inode) matches Entry::QueryResultDir { query, .. } && r@ == query@,
    {
        match self.entry_ref(inode) {
            Entry::QueryResultDir { query, .. } => query.as_str(),
            _ => {
                proof {
                    assert(false);
                }
                ""
            },
        }
    }

    /// Get the mapping id a link points at; `None` for a dead inode.  A
    /// live inode of any other shape is a programming error, so that is
    /// demanded of the caller.
    pub fn get_link_target(&self, inode: u64) -> (r: Option<u64>)
        requires
            self.live(inode) ==> self.entry_of(inode) is Link,
        ensures
            match r {
                Some(t) => self.live(inode) && (self.entry_of(inode) matches Entry::Link {
                    target,
                    ..
                } && target == t),
                None => !self.live(inode),
            },
    {
        if inode >= 1 && (inode - 1) < self.table.len() as u64 {
            match self.entry_ref(inode) {
                Entry::Link { target, .. } => Some(*target),
                _ => {
                    proof {
                        assert(false);
                    }
                    None
                },
            }
        } else {
            None
        }
    }

    /// Get the original-path prefix of an inode in the mirror hierarchy
    /// (the mirror root stands for `/`).
    pub fn get_path(&self, inode: u64) -> (r: &str)
        requires
            self.live(inode),
            self.entry_of(inode) is AllTagsDir || self.entry_of(inode) is AllTagsIntermediate
                || self.entry_of(inode) is AllTagsTerminal,
        ensures
            self.entry_of(inode) is AllTagsDir ==> r@ == "/"@,
            self.entry_of(inode) matches Entry::AllTagsIntermediate { path, .. } ==> r@ == path@,
            self.entry_of(inode) matches Entry::AllTagsTerminal { path, .. } ==> r@ == path@,
    {
        match self.entry_ref(inode) {
            Entry::AllTagsDir { .. } => "/",
            Entry::AllTagsIntermediate { path, .. } => path.as_str(),
            Entry::AllTagsTerminal { path, .. } => path.as_str(),
            _ => {
                proof {
                    assert(false);
                }
                ""
            },
        }
    }
}


impl Entries {
    /// In a well-formed graph every live entry's attribute block carries
    /// that entry's own inode number.
    pub proof fn lemma_attr_ino(&self, ino: u64)
        requires
            self.wf(),
            self.live(ino),
        ensures
            entry_attr(self.entry_of(ino)).ino == ino,
    {
    }

    /// A well-formed graph always holds the root, and the root inode's
    /// entry is the root entry.
    pub proof fn lemma_root_live(&self)
        requires
            self.wf(),
        ensures
            self.count() >= 1,
            self.live(ROOT_INODE),
            self.entry_of(ROOT_INODE) is Root,
    {
    }

    /// A child always sits above its parent in inode order: resolving a
    /// name never leads back to the directory itself or to anything below
    /// it.
    pub proof fn lemma_child_above(&self, parent: u64, name: Seq<char>)
        requires
            self.wf(),
            self.has_child(parent, name),
        ensures
            self.child_of(parent, name) > parent,
    {
        let w = choose|j: int| self.link_matches(j, parent, name);
        assert(self.link_matches(w, parent, name));
        assert(self.names@[w].parent < self.names@[w].child);
    }
}


impl Entries {
    /// In a well-formed graph every live entry's file kind is the kind of
    /// its shape: directories for the directory shapes, a symlink for a
    /// link, a regular file for a mirror terminal.
    pub proof fn lemma_kind_nature(&self, ino: u64)
        requires
            self.wf(),
            self.live(ino),
        ensures
            entry_attr(self.entry_of(ino)).kind == entry_nature(self.entry_of(ino)),
    {
    }
}

} // verus!
