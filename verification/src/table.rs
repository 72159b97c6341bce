//! The in-memory inode table: a tree of directories and files rooted at
//! inode 1, synthesized from successful pipeline runs.
//!
//! Inode numbers are assigned in increasing order and never reused while
//! the table lives; a removed number leaves a permanent hole.  Every
//! structural invariant the design demands — unique identifiers, every
//! non-root node a child of exactly one directory, no cycles, no orphans —
//! is part of [`InodeTable::wf`], which every operation preserves, so a
//! table-invariant violation is ruled out statically instead of being a
//! runtime fatal error.

use vstd::prelude::*;

verus! {

use crate::node::{FileContent, FileNode, NodeKind, hello_content, hello_bytes, CREATE_TIME_SECS,
    ROOT_INO};

/// Why a table operation refused to act.
#[derive(Clone, Copy, PartialEq, Eq, Structural, Debug)]
pub enum TableError {
    /// The named inode is not present.
    NotFound,
    /// The designated parent is missing or not a directory.
    InvalidParent,
    /// The target is a directory where a file was needed.
    NotAFile,
    /// The directory still has children.
    NotEmpty,
    /// Inode 1 is the root and can never be removed.
    RootReserved,
}

/// The namespace table.  Slot `i` of `nodes` holds the node with inode
/// number `i + 1`, or `None` once that number has been retired.
pub struct InodeTable {
    nodes: Vec<Option<FileNode>>,
}

impl InodeTable {
    /// How many inode numbers have ever been assigned.
    pub closed spec fn spec_count(&self) -> nat {
        self.nodes@.len()
    }

    /// Whether `ino` currently names a node.
    pub closed spec fn spec_has(&self, ino: u64) -> bool {
        1 <= ino <= self.nodes@.len() && self.nodes@[ino - 1] is Some
    }

    /// The node named by `ino` (meaningful only when `spec_has(ino)`).
    pub closed spec fn spec_node(&self, ino: u64) -> FileNode {
        self.nodes@[ino - 1]->Some_0
    }

    /// Whether `ino` names a directory.
    pub open spec fn spec_is_dir(&self, ino: u64) -> bool {
        self.spec_has(ino) && self.spec_node(ino).content is Directory
    }

    /// The ordered children of the directory `ino`.
    pub open spec fn spec_children(&self, ino: u64) -> Seq<u64> {
        self.spec_node(ino).content->Directory_0@
    }

    /// One child slot is sound: the child exists, is not the root, has a
    /// strictly larger number than the directory holding it (which makes
    /// a cycle impossible), and points back at that directory.
    pub open spec fn child_entry_ok(&self, d: u64, c: u64) -> bool {
        &&& self.spec_has(c)
        &&& c != ROOT_INO
        &&& d < c
        &&& self.spec_node(c).parent == d
    }

    /// All child slots of directory `d` are sound and name distinct inodes.
    pub open spec fn children_ok(&self, d: u64) -> bool {
        &&& forall|j: int|
            0 <= j < self.spec_children(d).len() ==> self.child_entry_ok(
                d,
                #[trigger] self.spec_children(d)[j],
            )
        &&& forall|j: int, k: int|
            0 <= j < k < self.spec_children(d).len() ==> self.spec_children(d)[j]
                != self.spec_children(d)[k]
    }

    /// The tree invariant.  The root is a directory and its own parent;
    /// every other node hangs off exactly one directory (its recorded
    /// parent, whose child list names it exactly once), and parent
    /// numbers strictly decrease toward the root, so the graph is a tree.
    pub open spec fn wf(&self) -> bool {
        &&& self.spec_count() <= u64::MAX
        &&& self.spec_has(ROOT_INO)
        &&& self.spec_node(ROOT_INO).content is Directory
        &&& self.spec_node(ROOT_INO).parent == ROOT_INO
        &&& forall|i: u64|
            #[trigger] self.spec_has(i) && i != ROOT_INO ==> {
                &&& self.spec_is_dir(self.spec_node(i).parent)
                &&& self.spec_node(i).parent < i
                &&& self.spec_children(self.spec_node(i).parent).contains(i)
            }
        &&& forall|d: u64| #[trigger] self.spec_is_dir(d) ==> self.children_ok(d)
    }

    /// A fresh table: the root directory (inode 1) holding the one
    /// statically known entry, the example file `hello.txt` (inode 2).
    pub fn new() -> (r: Self)
        ensures
            r.wf(),
            spec_initial(r),
            r.spec_count() == 2,
            r.spec_has(ROOT_INO),
            r.spec_is_dir(ROOT_INO),
            r.spec_children(ROOT_INO) == seq![2u64],
            r.spec_node(ROOT_INO).name@ == Seq::<char>::empty(),
            r.spec_node(ROOT_INO).mtime == CREATE_TIME_SECS,
            r.spec_has(2),
            r.spec_node(2).name@ == "hello.txt"@,
            r.spec_node(2).parent == ROOT_INO,
            r.spec_node(2).mtime == CREATE_TIME_SECS,
            r.spec_node(2).content is File,
            r.spec_node(2).content->File_0@ == hello_bytes(),
    {
        let mut children: Vec<u64> = Vec::new();
        children.push(2);
        let root = FileNode {
            name: String::new(),
            parent: ROOT_INO,
            mtime: CREATE_TIME_SECS,
            content: FileContent::Directory(children),
        };
        let hello = FileNode {
            name: "hello.txt".to_owned(),
            parent: ROOT_INO,
            mtime: CREATE_TIME_SECS,
            content: FileContent::File(hello_content()),
        };
        let mut nodes: Vec<Option<FileNode>> = Vec::new();
        nodes.push(Some(root));
        nodes.push(Some(hello));
        let r = InodeTable { nodes };
        proof {
            assert(r.spec_children(ROOT_INO) =~= seq![2u64]);
            assert forall|i: u64| #[trigger] r.spec_has(i) && i != ROOT_INO implies {
                &&& r.spec_is_dir(r.spec_node(i).parent)
                &&& r.spec_node(i).parent < i
                &&& r.spec_children(r.spec_node(i).parent).contains(i)
            } by {
                assert(i == 2);
                assert(r.spec_children(ROOT_INO)[0] == 2u64);
            }
            assert forall|d: u64| #[trigger] r.spec_is_dir(d) implies r.children_ok(d) by {
                assert(d == ROOT_INO);
                assert(r.spec_children(ROOT_INO) =~= seq![2u64]);
            }
        }
        r
    }

    /// How many inode numbers have been assigned so far.
    pub fn count(&self) -> (n: u64)
        requires
            self.spec_count() <= u64::MAX,
        ensures
            n == self.spec_count(),
    {
        self.nodes.len() as u64
    }

    /// First entry of `ch` naming a node called `name`.
    pub open spec fn spec_resolve_in(&self, ch: Seq<u64>, name: Seq<char>) -> Option<u64>
        decreases ch.len(),
    {
        if ch.len() == 0 {
            None
        } else if self.spec_has(ch[0]) && self.spec_node(ch[0]).name@ == name {
            Some(ch[0])
        } else {
            self.spec_resolve_in(ch.drop_first(), name)
        }
    }

    /// The inode `name` resolves to inside the directory `parent`, or
    /// `None` when the parent is no directory or nothing matches.
    pub open spec fn spec_resolve(&self, parent: u64, name: Seq<char>) -> Option<u64> {
        if self.spec_is_dir(parent) {
            self.spec_resolve_in(self.spec_children(parent), name)
        } else {
            None
        }
    }

    /// Scans the children of `parent` for a node called `name`.
    pub fn resolve(&self, parent: u64, name: &String) -> (r: Option<u64>)
        requires
            self.wf(),
        ensures
            r == self.spec_resolve(parent, name@),
    {
        let pnode = match self.get(parent) {
            Some(n) => n,
            None => {
                return None;
            },
        };
        let children: &Vec<u64> = match &pnode.content {
            FileContent::Directory(ch) => ch,
            FileContent::File(_) => {
                return None;
            },
        };
        let ghost chs = children@;
        proof {
            assert(chs.skip(0) =~= chs);
        }
        let mut i: usize = 0;
        while i < children.len()
            invariant
                self.wf(),
                self.spec_is_dir(parent),
                chs == self.spec_children(parent),
                chs == children@,
                i <= chs.len(),
                self.spec_resolve(parent, name@) == self.spec_resolve_in(
                    chs.skip(i as int),
                    name@,
                ),
            decreases chs.len() - i,
        {
            let c = children[i];
            proof {
                assert(self.children_ok(parent));
                assert(self.child_entry_ok(parent, chs[i as int]));
                assert(chs.skip(i as int)[0] == c);
            }
            let cn = match self.get(c) {
                Some(n) => n,
                None => {
                    proof {
                        assert(false);
                    }
                    return None;
                },
            };
            if cn.name.eq(name) {
                return Some(c);
            }
            proof {
                assert(chs.skip(i as int).drop_first() =~= chs.skip(i as int + 1));
            }
            i = i + 1;
        }
        proof {
            assert(chs.skip(i as int) =~= Seq::<u64>::empty());
        }
        None
    }

    /// Looks an inode up; `None` exactly when the number names nothing.
    pub fn get(&self, ino: u64) -> (r: Option<&FileNode>)
        ensures
            match r {
                Some(n) => self.spec_has(ino) && *n == self.spec_node(ino),
                None => !self.spec_has(ino),
            },
    {
        if ino == 0 || ino > self.nodes.len() as u64 {
            return None;
        }
        proof {
            assert(ino - 1 < self.nodes@.len());
        }
        let idx: usize = (ino - 1) as usize;
        match &self.nodes[idx] {
            Some(n) => Some(n),
            None => None,
        }
    }
    /// Creates a fresh, empty child of `parent`, assigning the next
    /// never-used inode number; refuses when `parent` is missing or not
    /// a directory.
    pub fn allocate_child(&mut self, parent: u64, name: String, kind: NodeKind, mtime: u64) -> (r:
        Result<u64, TableError>)
        requires
            old(self).wf(),
            old(self).spec_count() < u64::MAX,
        ensures
            final(self).wf(),
            match r {
                Ok(ino) => old(self).spec_is_dir(parent) && spec_allocated(
                    *old(self),
                    *final(self),
                    parent,
                    ino,
                    name@,
                    kind,
                    mtime,
                ),
                Err(e) => *final(self) == *old(self) && e == TableError::InvalidParent && !old(
                    self,
                ).spec_is_dir(parent),
            },
    {
        let parent_ok = match self.get(parent) {
            Some(n) => match &n.content {
                FileContent::Directory(_) => true,
                FileContent::File(_) => false,
            },
            None => false,
        };
        if !parent_ok {
            return Err(TableError::InvalidParent);
        }
        let ghost pre = *self;
        let ino: u64 = self.nodes.len() as u64 + 1;
        let content = match kind {
            NodeKind::Directory => FileContent::Directory(Vec::new()),
            NodeKind::RegularFile => FileContent::File(Vec::new()),
        };
        self.nodes.push(Some(FileNode { name, parent, mtime, content }));
        proof {
            assert(parent - 1 < pre.nodes@.len());
        }
        let pidx: usize = (parent - 1) as usize;
        let taken = self.nodes[pidx].take();
        let pnode = taken.unwrap();
        let FileNode { name: pname, parent: pparent, mtime: pmtime, content: pcontent } = pnode;
        let mut ch: Vec<u64> = match pcontent {
            FileContent::Directory(c) => c,
            FileContent::File(_) => {
                proof {
                    assert(false);
                }
                Vec::new()
            },
        };
        ch.push(ino);
        self.nodes[pidx] = Some(
            FileNode { name: pname, parent: pparent, mtime: pmtime, content: FileContent::Directory(ch) },
        );
        proof {
            lemma_allocate_shape(pre, *self, parent, ino, name@, kind, mtime);
        }
        Ok(ino)
    }

    /// Overwrites the bytes of the file `ino` and stamps a new
    /// modification time; refuses a missing inode or a directory.
    pub fn write_file(&mut self, ino: u64, bytes: Vec<u8>, mtime: u64) -> (r: Result<
        (),
        TableError,
    >)
        requires
            old(self).wf(),
        ensures
            final(self).wf(),
            match r {
                Ok(_) => old(self).spec_has(ino) && old(self).spec_node(ino).content is File
                    && spec_overwrote(*old(self), *final(self), ino, bytes@, mtime),
                Err(e) => *final(self) == *old(self) && ((e == TableError::NotFound && !old(
                    self,
                ).spec_has(ino)) || (e == TableError::NotAFile && old(self).spec_has(ino) && old(
                    self,
                ).spec_node(ino).content is Directory)),
            },
    {
        let is_file = match self.get(ino) {
            Some(n) => match &n.content {
                FileContent::File(_) => true,
                FileContent::Directory(_) => false,
            },
            None => {
                return Err(TableError::NotFound);
            },
        };
        if !is_file {
            return Err(TableError::NotAFile);
        }
        let ghost pre = *self;
        let nlen = self.nodes.len();
        proof {
            assert(ino - 1 < nlen);
        }
        let idx: usize = (ino - 1) as usize;
        let taken = self.nodes[idx].take();
        let node = taken.unwrap();
        let FileNode { name, parent, mtime: _, content: _ } = node;
        self.nodes[idx] = Some(FileNode { name, parent, mtime, content: FileContent::File(bytes) });
        proof {
            lemma_overwrite_shape(pre, *self, ino, bytes@, mtime);
        }
        Ok(())
    }
    /// Position of `c` inside the child list of the directory `p`.
    fn find_child(&self, p: u64, c: u64) -> (pos: usize)
        requires
            self.wf(),
            self.spec_is_dir(p),
            self.spec_children(p).contains(c),
        ensures
            pos < self.spec_children(p).len(),
            self.spec_children(p)[pos as int] == c,
    {
        let pnode = match self.get(p) {
            Some(n) => n,
            None => {
                proof {
                    assert(false);
                }
                return 0;
            },
        };
        let ch: &Vec<u64> = match &pnode.content {
            FileContent::Directory(v) => v,
            FileContent::File(_) => {
                proof {
                    assert(false);
                }
                return 0;
            },
        };
        let ghost chs = ch@;
        proof {
            assert(chs.skip(0) =~= chs);
        }
        let clen = ch.len();
        let mut i: usize = 0;
        loop
            invariant
                chs == ch@,
                chs == self.spec_children(p),
                chs.len() == clen,
                i < clen,
                chs.skip(i as int).contains(c),
            decreases chs.len() - i,
        {
            if ch[i] == c {
                return i;
            }
            proof {
                assert(chs.skip(i as int)[0] == chs[i as int]);
                let k = choose|k: int|
                    0 <= k < chs.skip(i as int).len() && chs.skip(i as int)[k] == c;
                assert(k > 0);
                assert(chs.skip(i as int + 1)[k - 1] == c);
                assert(chs.skip(i as int + 1).contains(c));
            }
            i = i + 1;
        }
    }

    /// Removes the leaf `ino` — a file, or a directory with no children —
    /// detaching it from its parent.  Its number is never assigned again.
    pub fn remove(&mut self, ino: u64) -> (r: Result<(), TableError>)
        requires
            old(self).wf(),
        ensures
            final(self).wf(),
            match r {
                Ok(_) => old(self).spec_has(ino) && ino != ROOT_INO && (old(self).spec_node(
                    ino,
                ).content is Directory ==> old(self).spec_children(ino).len() == 0)
                    && spec_removed(*old(self), *final(self), ino),
                Err(e) => *final(self) == *old(self) && ((e == TableError::NotFound && !old(
                    self,
                ).spec_has(ino)) || (e == TableError::RootReserved && ino == ROOT_INO && old(
                    self,
                ).spec_has(ino)) || (e == TableError::NotEmpty && old(self).spec_has(ino) && ino
                    != ROOT_INO && old(self).spec_node(ino).content is Directory && old(
                    self,
                ).spec_children(ino).len() > 0)),
            },
    {
        let (p, no_children) = match self.get(ino) {
            Some(n) => {
                let e = match &n.content {
                    FileContent::Directory(ch) => ch.len() == 0,
                    FileContent::File(_) => true,
                };
                (n.parent, e)
            },
            None => {
                return Err(TableError::NotFound);
            },
        };
        if ino == ROOT_INO {
            return Err(TableError::RootReserved);
        }
        if !no_children {
            return Err(TableError::NotEmpty);
        }
        let pos = self.find_child(p, ino);
        let ghost pre = *self;
        let nlen = self.nodes.len();
        proof {
            assert(ino - 1 < nlen);
            assert(p - 1 < nlen);
        }
        let idx: usize = (ino - 1) as usize;
        self.nodes[idx] = None;
        let pidx: usize = (p - 1) as usize;
        let taken = self.nodes[pidx].take();
        let pnode = taken.unwrap();
        let FileNode { name: pname, parent: pparent, mtime: pmtime, content: pcontent } = pnode;
        let mut ch: Vec<u64> = match pcontent {
            FileContent::Directory(c) => c,
            FileContent::File(_) => {
                proof {
                    assert(false);
                }
                Vec::new()
            },
        };
        ch.remove(pos);
        self.nodes[pidx] = Some(
            FileNode { name: pname, parent: pparent, mtime: pmtime, content: FileContent::Directory(ch) },
        );
        proof {
            lemma_remove_shape(pre, *self, ino, p, pos as int);
        }
        Ok(())
    }
}

/// What `remove` does: `ino` is gone (its number stays retired), the
/// parent lost exactly that child, and nothing else moved.
pub open spec fn spec_removed(pre: InodeTable, post: InodeTable, ino: u64) -> bool {
    &&& post.spec_count() == pre.spec_count()
    &&& !post.spec_has(ino)
    &&& forall|j: u64|
        j != ino ==> (#[trigger] post.spec_has(j) == #[trigger] pre.spec_has(j))
    &&& forall|j: u64|
        #![trigger post.spec_node(j)]
        #![trigger pre.spec_node(j)]
        pre.spec_has(j) && j != ino && j != pre.spec_node(ino).parent ==> post.spec_node(j)
            == pre.spec_node(j)
    &&& {
        let p = pre.spec_node(ino).parent;
        &&& post.spec_node(p).name == pre.spec_node(p).name
        &&& post.spec_node(p).parent == pre.spec_node(p).parent
        &&& post.spec_node(p).mtime == pre.spec_node(p).mtime
        &&& post.spec_is_dir(p)
        &&& exists|k: int|
            0 <= k < pre.spec_children(p).len() && pre.spec_children(p)[k] == ino
                && post.spec_children(p) == pre.spec_children(p).remove(k)
    }
}

/// The table shape after a removal satisfies `spec_removed` and keeps
/// the tree invariant.
#[verifier::rlimit(60)]
proof fn lemma_remove_shape(pre: InodeTable, post: InodeTable, ino: u64, p: u64, pos: int)
    requires
        pre.wf(),
        pre.spec_has(ino),
        ino != ROOT_INO,
        p == pre.spec_node(ino).parent,
        pre.spec_node(ino).content is Directory ==> pre.spec_children(ino).len() == 0,
        0 <= pos < pre.spec_children(p).len(),
        pre.spec_children(p)[pos] == ino,
        post.nodes@.len() == pre.nodes@.len(),
        forall|k: int|
            0 <= k < pre.nodes@.len() && k != ino - 1 && k != p - 1 ==> post.nodes@[k]
                == pre.nodes@[k],
        post.nodes@[ino - 1] is None,
        post.nodes@[p - 1] is Some,
        post.nodes@[p - 1]->Some_0.name == pre.nodes@[p - 1]->Some_0.name,
        post.nodes@[p - 1]->Some_0.parent == pre.nodes@[p - 1]->Some_0.parent,
        post.nodes@[p - 1]->Some_0.mtime == pre.nodes@[p - 1]->Some_0.mtime,
        post.nodes@[p - 1]->Some_0.content is Directory,
        post.nodes@[p - 1]->Some_0.content->Directory_0@ == pre.nodes@[p
            - 1]->Some_0.content->Directory_0@.remove(pos),
    ensures
        post.wf(),
        spec_removed(pre, post, ino),
{
    assert(pre.spec_is_dir(p));
    assert(p != ino);
    let chpre = pre.spec_children(p);
    let chpost = post.spec_children(p);
    assert(pre.children_ok(p));
    chpre.remove_ensures(pos);
    assert(chpost.len() == chpre.len() - 1);
    // no other child slot of p names ino, so uniqueness maps cleanly
    assert forall|k: int| 0 <= k < chpost.len() implies #[trigger] chpost[k] == (if k < pos {
        chpre[k]
    } else {
        chpre[k + 1]
    }) && chpost[k] != ino by {
        if k < pos {
            assert(chpre[k] != chpre[pos]);
        } else {
            assert(chpre[k + 1] != chpre[pos]);
        }
    }
    assert(spec_removed(pre, post, ino)) by {
        assert(0 <= pos < chpre.len() && chpre[pos] == ino && chpost == chpre.remove(pos));
    }
    // the removed node is nobody's parent: a file cannot be one, an empty
    // directory has no child to be parent of
    assert forall|i: u64| #[trigger] post.spec_has(i) && i != ROOT_INO implies {
        &&& post.spec_is_dir(post.spec_node(i).parent)
        &&& post.spec_node(i).parent < i
        &&& post.spec_children(post.spec_node(i).parent).contains(i)
    } by {
        assert(i != ino);
        assert(pre.spec_has(i));
        let q = pre.spec_node(i).parent;
        assert(pre.spec_is_dir(q));
        assert(pre.spec_children(q).contains(i));
        assert(q != ino) by {
            if q == ino {
                assert(pre.spec_node(ino).content is Directory);
                assert(pre.spec_children(ino).len() == 0);
                let k = choose|k: int|
                    0 <= k < pre.spec_children(q).len() && pre.spec_children(q)[k] == i;
                assert(false);
            }
        }
        assert(post.spec_node(i).parent == q);
        if q == p {
            let k = choose|k: int| 0 <= k < chpre.len() && chpre[k] == i;
            assert(k != pos);
            if k < pos {
                assert(chpost[k] == i);
            } else {
                assert(chpost[k - 1] == i);
            }
            assert(chpost.contains(i));
        } else {
            assert(post.spec_node(q) == pre.spec_node(q));
            assert(post.spec_children(q).contains(i));
        }
    }
    assert forall|d: u64| #[trigger] post.spec_is_dir(d) implies post.children_ok(d) by {
        assert(d != ino);
        assert(pre.spec_is_dir(d));
        assert(pre.children_ok(d));
        if d == p {
            assert forall|j: int| 0 <= j < chpost.len() implies post.child_entry_ok(
                d,
                #[trigger] chpost[j],
            ) by {
                let c = chpost[j];
                assert(pre.child_entry_ok(d, c));
                assert(c != ino);
                assert(post.spec_node(c) == pre.spec_node(c));
            }
            assert forall|j: int, k: int| 0 <= j < k < chpost.len() implies chpost[j]
                != chpost[k] by {
                assert(chpost[j] == (if j < pos {
                    chpre[j]
                } else {
                    chpre[j + 1]
                }));
                assert(chpost[k] == (if k < pos {
                    chpre[k]
                } else {
                    chpre[k + 1]
                }));
            }
        } else {
            assert(post.spec_node(d) == pre.spec_node(d));
            let chd = pre.spec_children(d);
            assert forall|j: int| 0 <= j < chd.len() implies post.child_entry_ok(
                d,
                #[trigger] post.spec_children(d)[j],
            ) by {
                assert(pre.child_entry_ok(d, chd[j]));
                assert(chd[j] != ino) by {
                    if chd[j] == ino {
                        assert(pre.spec_node(ino).parent == d);
                    }
                }
                if chd[j] != p {
                    assert(post.spec_node(chd[j]) == pre.spec_node(chd[j]));
                }
            }
        }
    }
}

/// What `allocate_child` does: `ino` is the next never-used number, the
/// new node is an empty one of the requested kind under `parent`, the
/// parent gained `ino` at the end of its child list, and nothing else
/// moved.
pub open spec fn spec_allocated(
    pre: InodeTable,
    post: InodeTable,
    parent: u64,
    ino: u64,
    name: Seq<char>,
    kind: NodeKind,
    mtime: u64,
) -> bool {
    &&& ino == pre.spec_count() + 1
    &&& post.spec_count() == pre.spec_count() + 1
    &&& !pre.spec_has(ino)
    &&& post.spec_has(ino)
    &&& forall|j: u64|
        j != ino ==> (#[trigger] post.spec_has(j) == #[trigger] pre.spec_has(j))
    &&& forall|j: u64|
        #![trigger post.spec_node(j)]
        #![trigger pre.spec_node(j)]
        pre.spec_has(j) && j != parent ==> post.spec_node(j) == pre.spec_node(j)
    &&& post.spec_node(ino).name@ == name
    &&& post.spec_node(ino).parent == parent
    &&& post.spec_node(ino).mtime == mtime
    &&& post.spec_node(ino).content.spec_kind() == kind
    &&& post.spec_node(ino).content.spec_size() == 0
    &&& (kind == NodeKind::Directory ==> post.spec_children(ino) == Seq::<u64>::empty())
    &&& (kind == NodeKind::RegularFile ==> post.spec_node(ino).content->File_0@ == Seq::<
        u8,
    >::empty())
    &&& post.spec_node(parent).name == pre.spec_node(parent).name
    &&& post.spec_node(parent).parent == pre.spec_node(parent).parent
    &&& post.spec_node(parent).mtime == pre.spec_node(parent).mtime
    &&& post.spec_is_dir(parent)
    &&& post.spec_children(parent) == pre.spec_children(parent).push(ino)
}

/// What `write_file` does: the file `ino` holds `bytes` and the new
/// `mtime`, keeps its name and parent, and nothing else moved.
pub open spec fn spec_overwrote(
    pre: InodeTable,
    post: InodeTable,
    ino: u64,
    bytes: Seq<u8>,
    mtime: u64,
) -> bool {
    &&& pre.spec_has(ino)
    &&& pre.spec_node(ino).content is File
    &&& post.spec_count() == pre.spec_count()
    &&& forall|j: u64| #[trigger] post.spec_has(j) == #[trigger] pre.spec_has(j)
    &&& forall|j: u64|
        #![trigger post.spec_node(j)]
        #![trigger pre.spec_node(j)]
        pre.spec_has(j) && j != ino ==> post.spec_node(j) == pre.spec_node(j)
    &&& post.spec_has(ino)
    &&& post.spec_node(ino).name == pre.spec_node(ino).name
    &&& post.spec_node(ino).parent == pre.spec_node(ino).parent
    &&& post.spec_node(ino).mtime == mtime
    &&& post.spec_node(ino).content is File
    &&& post.spec_node(ino).content->File_0@ == bytes
}

/// The table shape after an allocation satisfies `spec_allocated` and
/// keeps the tree invariant.
#[verifier::rlimit(60)]
proof fn lemma_allocate_shape(
    pre: InodeTable,
    post: InodeTable,
    parent: u64,
    ino: u64,
    name: Seq<char>,
    kind: NodeKind,
    mtime: u64,
)
    requires
        pre.wf(),
        pre.spec_count() < u64::MAX,
        pre.spec_is_dir(parent),
        ino == pre.spec_count() + 1,
        post.nodes@.len() == pre.nodes@.len() + 1,
        post.nodes@[ino - 1] is Some,
        post.nodes@[ino - 1]->Some_0.name@ == name,
        post.nodes@[ino - 1]->Some_0.parent == parent,
        post.nodes@[ino - 1]->Some_0.mtime == mtime,
        post.nodes@[ino - 1]->Some_0.content.spec_kind() == kind,
        post.nodes@[ino - 1]->Some_0.content.spec_size() == 0,
        kind == NodeKind::Directory ==> post.nodes@[ino - 1]->Some_0.content->Directory_0@
            =~= Seq::<u64>::empty(),
        kind == NodeKind::RegularFile ==> post.nodes@[ino - 1]->Some_0.content->File_0@ =~= Seq::<
            u8,
        >::empty(),
        forall|k: int|
            0 <= k < pre.nodes@.len() && k != parent - 1 ==> post.nodes@[k] == pre.nodes@[k],
        post.nodes@[parent - 1] is Some,
        post.nodes@[parent - 1]->Some_0.name == pre.nodes@[parent - 1]->Some_0.name,
        post.nodes@[parent - 1]->Some_0.parent == pre.nodes@[parent - 1]->Some_0.parent,
        post.nodes@[parent - 1]->Some_0.mtime == pre.nodes@[parent - 1]->Some_0.mtime,
        post.nodes@[parent - 1]->Some_0.content is Directory,
        post.nodes@[parent - 1]->Some_0.content->Directory_0@ == pre.nodes@[parent
            - 1]->Some_0.content->Directory_0@.push(ino),
    ensures
        post.wf(),
        spec_allocated(pre, post, parent, ino, name, kind, mtime),
{
    assert(spec_allocated(pre, post, parent, ino, name, kind, mtime));
    assert forall|i: u64| #[trigger] post.spec_has(i) && i != ROOT_INO implies {
        &&& post.spec_is_dir(post.spec_node(i).parent)
        &&& post.spec_node(i).parent < i
        &&& post.spec_children(post.spec_node(i).parent).contains(i)
    } by {
        if i == ino {
            assert(post.spec_children(parent) == pre.spec_children(parent).push(ino));
            assert(post.spec_children(parent)[pre.spec_children(parent).len() as int] == ino);
            assert(post.spec_children(parent).contains(ino));
        } else {
            assert(pre.spec_has(i));
            let p = pre.spec_node(i).parent;
            assert(pre.spec_is_dir(p));
            assert(pre.spec_children(p).contains(i));
            let k = choose|k: int| 0 <= k < pre.spec_children(p).len() && pre.spec_children(p)[k]
                == i;
            if p == parent {
                assert(post.spec_children(p)[k] == i);
                assert(post.spec_children(p).contains(i));
            } else {
                assert(post.spec_node(p) == pre.spec_node(p));
                assert(post.spec_children(p).contains(i));
            }
        }
    }
    assert forall|d: u64| #[trigger] post.spec_is_dir(d) implies post.children_ok(d) by {
        if d == ino {
            assert(post.spec_children(ino) =~= Seq::<u64>::empty());
        } else {
            assert(pre.spec_is_dir(d));
            assert(pre.children_ok(d));
            let chpre = pre.spec_children(d);
            let chpost = post.spec_children(d);
            assert forall|j: int| 0 <= j < chpost.len() implies post.child_entry_ok(
                d,
                #[trigger] chpost[j],
            ) by {
                if d == parent && j == chpre.len() {
                    assert(chpost[j] == ino);
                } else {
                    assert(chpost[j] == chpre[j]);
                    assert(pre.child_entry_ok(d, chpre[j]));
                    assert(chpre[j] <= pre.spec_count());
                }
            }
            assert forall|j: int, k: int| 0 <= j < k < chpost.len() implies chpost[j] != chpost[k] by {
                if d == parent && k == chpre.len() {
                    assert(pre.child_entry_ok(d, chpre[j]));
                    assert(chpre[j] <= pre.spec_count());
                }
            }
        }
    }
}

/// The table shape after a file overwrite satisfies `spec_overwrote`
/// and keeps the tree invariant.
proof fn lemma_overwrite_shape(pre: InodeTable, post: InodeTable, ino: u64, bytes: Seq<u8>, mtime: u64)
    requires
        pre.wf(),
        pre.spec_has(ino),
        pre.spec_node(ino).content is File,
        post.nodes@.len() == pre.nodes@.len(),
        forall|k: int| 0 <= k < pre.nodes@.len() && k != ino - 1 ==> post.nodes@[k] == pre.nodes@[k],
        post.nodes@[ino - 1] is Some,
        post.nodes@[ino - 1]->Some_0.name == pre.nodes@[ino - 1]->Some_0.name,
        post.nodes@[ino - 1]->Some_0.parent == pre.nodes@[ino - 1]->Some_0.parent,
        post.nodes@[ino - 1]->Some_0.mtime == mtime,
        post.nodes@[ino - 1]->Some_0.content is File,
        post.nodes@[ino - 1]->Some_0.content->File_0@ == bytes,
    ensures
        post.wf(),
        spec_overwrote(pre, post, ino, bytes, mtime),
{
    assert(spec_overwrote(pre, post, ino, bytes, mtime));
    assert forall|i: u64| #[trigger] post.spec_has(i) && i != ROOT_INO implies {
        &&& post.spec_is_dir(post.spec_node(i).parent)
        &&& post.spec_node(i).parent < i
        &&& post.spec_children(post.spec_node(i).parent).contains(i)
    } by {
        assert(pre.spec_has(i));
        let p = pre.spec_node(i).parent;
        assert(post.spec_node(i).parent == p);
        assert(pre.spec_is_dir(p));
        assert(p != ino);
        assert(post.spec_node(p) == pre.spec_node(p));
        assert(post.spec_children(p).contains(i));
    }
    assert forall|d: u64| #[trigger] post.spec_is_dir(d) implies post.children_ok(d) by {
        assert(d != ino);
        assert(post.spec_node(d) == pre.spec_node(d));
        assert(pre.spec_is_dir(d));
        assert(pre.children_ok(d));
        let ch = pre.spec_children(d);
        assert forall|j: int| 0 <= j < ch.len() implies post.child_entry_ok(
            d,
            #[trigger] post.spec_children(d)[j],
        ) by {
            assert(pre.child_entry_ok(d, ch[j]));
            if ch[j] != ino {
                assert(post.spec_node(ch[j]) == pre.spec_node(ch[j]));
            }
        }
    }
}

/// What a create-or-overwrite commit does on the fresh path: one new
/// file under `parent` holding `bytes`, nothing else moved.
pub open spec fn spec_created(
    pre: InodeTable,
    post: InodeTable,
    parent: u64,
    ino: u64,
    name: Seq<char>,
    bytes: Seq<u8>,
    mtime: u64,
) -> bool {
    &&& ino == pre.spec_count() + 1
    &&& post.spec_count() == pre.spec_count() + 1
    &&& !pre.spec_has(ino)
    &&& post.spec_has(ino)
    &&& forall|j: u64|
        j != ino ==> (#[trigger] post.spec_has(j) == #[trigger] pre.spec_has(j))
    &&& forall|j: u64|
        #![trigger post.spec_node(j)]
        #![trigger pre.spec_node(j)]
        pre.spec_has(j) && j != parent ==> post.spec_node(j) == pre.spec_node(j)
    &&& post.spec_node(ino).name@ == name
    &&& post.spec_node(ino).parent == parent
    &&& post.spec_node(ino).mtime == mtime
    &&& post.spec_node(ino).content is File
    &&& post.spec_node(ino).content->File_0@ == bytes
    &&& post.spec_node(parent).name == pre.spec_node(parent).name
    &&& post.spec_node(parent).parent == pre.spec_node(parent).parent
    &&& post.spec_node(parent).mtime == pre.spec_node(parent).mtime
    &&& post.spec_is_dir(parent)
    &&& post.spec_children(parent) == pre.spec_children(parent).push(ino)
}

/// What a whole create-or-overwrite commit of `bytes` at `(parent, name)`
/// does: overwrite the resolved file when the name is already present,
/// otherwise create the next-numbered file under `parent`.
pub open spec fn spec_committed(
    pre: InodeTable,
    post: InodeTable,
    parent: u64,
    name: Seq<char>,
    bytes: Seq<u8>,
    mtime: u64,
) -> bool {
    match pre.spec_resolve(parent, name) {
        Some(i) => spec_overwrote(pre, post, i, bytes, mtime),
        None => spec_created(pre, post, parent, (pre.spec_count() + 1) as u64, name, bytes, mtime),
    }
}

/// Allocating an empty file and then filling it adds up to one
/// `spec_created` step.
pub proof fn lemma_compose_create(
    pre: InodeTable,
    mid: InodeTable,
    post: InodeTable,
    parent: u64,
    ino: u64,
    name: Seq<char>,
    bytes: Seq<u8>,
    mtime: u64,
)
    requires
        spec_allocated(pre, mid, parent, ino, name, NodeKind::RegularFile, mtime),
        spec_overwrote(mid, post, ino, bytes, mtime),
        parent != ino,
    ensures
        spec_created(pre, post, parent, ino, name, bytes, mtime),
{
    assert forall|j: u64| j != ino implies (#[trigger] post.spec_has(j) == #[trigger] pre.spec_has(
        j,
    )) by {
        assert(post.spec_has(j) == mid.spec_has(j));
        assert(mid.spec_has(j) == pre.spec_has(j));
    }
    assert forall|j: u64|
        pre.spec_has(j) && j != parent implies #[trigger] post.spec_node(j) == #[trigger] pre.spec_node(
        j,
    ) by {
        assert(j != ino);
        assert(mid.spec_has(j) == pre.spec_has(j));
        assert(mid.spec_node(j) == pre.spec_node(j));
        assert(post.spec_node(j) == mid.spec_node(j));
    }
    assert(mid.spec_node(ino).name@ == name);
    assert(post.spec_node(ino).name == mid.spec_node(ino).name);
    assert(post.spec_node(parent) == mid.spec_node(parent));
    assert(post.spec_children(parent) == pre.spec_children(parent).push(ino));
}

/// A name scan gives the same answer in two tables whose listed entries
/// exist alike and carry the same names.
proof fn lemma_resolve_in_same(p: InodeTable, q: InodeTable, ch: Seq<u64>, name: Seq<char>)
    requires
        forall|k: int|
            0 <= k < ch.len() ==> (#[trigger] q.spec_has(ch[k]) == p.spec_has(ch[k]) && (
            p.spec_has(ch[k]) ==> q.spec_node(ch[k]).name == p.spec_node(ch[k]).name)),
    ensures
        q.spec_resolve_in(ch, name) == p.spec_resolve_in(ch, name),
    decreases ch.len(),
{
    if ch.len() != 0 {
        assert(q.spec_has(ch[0]) == p.spec_has(ch[0]));
        let tail = ch.drop_first();
        assert forall|k: int|
            0 <= k < tail.len() implies (#[trigger] q.spec_has(tail[k]) == p.spec_has(tail[k]) && (
        p.spec_has(tail[k]) ==> q.spec_node(tail[k]).name == p.spec_node(tail[k]).name)) by {
            assert(tail[k] == ch[k + 1]);
            assert(q.spec_has(ch[k + 1]) == p.spec_has(ch[k + 1]));
        }
        lemma_resolve_in_same(p, q, tail, name);
    }
}

/// When no listed entry matches `name`, appending a node called `name`
/// makes the scan find exactly that node.
proof fn lemma_resolve_in_push_found(
    p: InodeTable,
    q: InodeTable,
    ch: Seq<u64>,
    ino: u64,
    name: Seq<char>,
)
    requires
        p.spec_resolve_in(ch, name) is None,
        forall|k: int|
            0 <= k < ch.len() ==> (#[trigger] q.spec_has(ch[k]) == p.spec_has(ch[k]) && (
            p.spec_has(ch[k]) ==> q.spec_node(ch[k]).name == p.spec_node(ch[k]).name)),
        q.spec_has(ino),
        q.spec_node(ino).name@ == name,
    ensures
        q.spec_resolve_in(ch.push(ino), name) == Some(ino),
    decreases ch.len(),
{
    if ch.len() == 0 {
        assert(ch.push(ino)[0] == ino);
        assert(ch.push(ino).drop_first() =~= Seq::<u64>::empty());
    } else {
        assert(ch.push(ino)[0] == ch[0]);
        assert(q.spec_has(ch[0]) == p.spec_has(ch[0]));
        assert(ch.push(ino).drop_first() =~= ch.drop_first().push(ino));
        let tail = ch.drop_first();
        assert forall|k: int|
            0 <= k < tail.len() implies (#[trigger] q.spec_has(tail[k]) == p.spec_has(tail[k]) && (
        p.spec_has(tail[k]) ==> q.spec_node(tail[k]).name == p.spec_node(tail[k]).name)) by {
            assert(tail[k] == ch[k + 1]);
            assert(q.spec_has(ch[k + 1]) == p.spec_has(ch[k + 1]));
        }
        lemma_resolve_in_push_found(p, q, tail, ino, name);
    }
}

/// Appending a node whose name is not `name` leaves the scan for `name`
/// unchanged.
proof fn lemma_resolve_in_push_other(
    p: InodeTable,
    q: InodeTable,
    ch: Seq<u64>,
    ino: u64,
    name: Seq<char>,
)
    requires
        forall|k: int|
            0 <= k < ch.len() ==> (#[trigger] q.spec_has(ch[k]) == p.spec_has(ch[k]) && (
            p.spec_has(ch[k]) ==> q.spec_node(ch[k]).name == p.spec_node(ch[k]).name)),
        q.spec_has(ino) ==> q.spec_node(ino).name@ != name,
    ensures
        q.spec_resolve_in(ch.push(ino), name) == p.spec_resolve_in(ch, name),
    decreases ch.len(),
{
    if ch.len() == 0 {
        assert(ch.push(ino)[0] == ino);
        assert(ch.push(ino).drop_first() =~= Seq::<u64>::empty());
    } else {
        assert(ch.push(ino)[0] == ch[0]);
        assert(q.spec_has(ch[0]) == p.spec_has(ch[0]));
        assert(ch.push(ino).drop_first() =~= ch.drop_first().push(ino));
        let tail = ch.drop_first();
        assert forall|k: int|
            0 <= k < tail.len() implies (#[trigger] q.spec_has(tail[k]) == p.spec_has(tail[k]) && (
        p.spec_has(tail[k]) ==> q.spec_node(tail[k]).name == p.spec_node(tail[k]).name)) by {
            assert(tail[k] == ch[k + 1]);
            assert(q.spec_has(ch[k + 1]) == p.spec_has(ch[k + 1]));
        }
        lemma_resolve_in_push_other(p, q, tail, ino, name);
    }
}

/// Overwriting file bytes moves no entry and changes no name, so every
/// lookup resolves exactly as before.
pub proof fn lemma_overwrote_preserves_resolve(
    pre: InodeTable,
    post: InodeTable,
    ino: u64,
    bytes: Seq<u8>,
    mtime: u64,
    p2: u64,
    n2: Seq<char>,
)
    requires
        pre.wf(),
        spec_overwrote(pre, post, ino, bytes, mtime),
    ensures
        post.spec_resolve(p2, n2) == pre.spec_resolve(p2, n2),
{
    if pre.spec_is_dir(p2) {
        if p2 == ino {
            assert(pre.spec_node(ino).content is Directory);
            assert(post.spec_node(ino).content is File);
            assert(false);
        }
        assert(post.spec_node(p2) == pre.spec_node(p2));
        let ch = pre.spec_children(p2);
        assert(pre.children_ok(p2));
        assert forall|k: int|
            0 <= k < ch.len() implies (#[trigger] post.spec_has(ch[k]) == pre.spec_has(ch[k]) && (
        pre.spec_has(ch[k]) ==> post.spec_node(ch[k]).name == pre.spec_node(ch[k]).name)) by {
            assert(pre.child_entry_ok(p2, ch[k]));
            if ch[k] != ino {
                assert(post.spec_node(ch[k]) == pre.spec_node(ch[k]));
            }
        }
        lemma_resolve_in_same(pre, post, ch, n2);
    } else {
        if post.spec_is_dir(p2) {
            assert(pre.spec_has(p2));
            if p2 != ino {
                assert(post.spec_node(p2) == pre.spec_node(p2));
            }
            assert(false);
        }
    }
}

/// After a fresh create at `(parent, name)`, that very name resolves to
/// the new inode.
pub proof fn lemma_created_resolves(
    pre: InodeTable,
    post: InodeTable,
    parent: u64,
    ino: u64,
    name: Seq<char>,
    bytes: Seq<u8>,
    mtime: u64,
)
    requires
        pre.wf(),
        pre.spec_is_dir(parent),
        pre.spec_resolve(parent, name) is None,
        spec_created(pre, post, parent, ino, name, bytes, mtime),
    ensures
        post.spec_resolve(parent, name) == Some(ino),
{
    let ch = pre.spec_children(parent);
    assert(pre.children_ok(parent));
    assert forall|k: int|
        0 <= k < ch.len() implies (#[trigger] post.spec_has(ch[k]) == pre.spec_has(ch[k]) && (
    pre.spec_has(ch[k]) ==> post.spec_node(ch[k]).name == pre.spec_node(ch[k]).name)) by {
        assert(pre.child_entry_ok(parent, ch[k]));
        assert(ch[k] <= pre.spec_count());
        if ch[k] != parent {
            assert(post.spec_node(ch[k]) == pre.spec_node(ch[k]));
        }
    }
    lemma_resolve_in_push_found(pre, post, ch, ino, name);
}

/// A fresh create at `(parent, name)` leaves every other path resolving
/// exactly as before.
pub proof fn lemma_created_preserves_other(
    pre: InodeTable,
    post: InodeTable,
    parent: u64,
    ino: u64,
    name: Seq<char>,
    bytes: Seq<u8>,
    mtime: u64,
    p2: u64,
    n2: Seq<char>,
)
    requires
        pre.wf(),
        pre.spec_is_dir(parent),
        spec_created(pre, post, parent, ino, name, bytes, mtime),
        !(p2 == parent && n2 == name),
    ensures
        post.spec_resolve(p2, n2) == pre.spec_resolve(p2, n2),
{
    if p2 == ino {
        assert(!pre.spec_has(ino));
        assert(post.spec_node(ino).content is File);
    } else if p2 == parent {
        let ch = pre.spec_children(parent);
        assert(pre.children_ok(parent));
        assert forall|k: int|
            0 <= k < ch.len() implies (#[trigger] post.spec_has(ch[k]) == pre.spec_has(ch[k]) && (
        pre.spec_has(ch[k]) ==> post.spec_node(ch[k]).name == pre.spec_node(ch[k]).name)) by {
            assert(pre.child_entry_ok(parent, ch[k]));
            assert(ch[k] <= pre.spec_count());
            if ch[k] != parent {
                assert(post.spec_node(ch[k]) == pre.spec_node(ch[k]));
            }
        }
        assert(post.spec_node(ino).name@ == name);
        lemma_resolve_in_push_other(pre, post, ch, ino, n2);
    } else {
        if pre.spec_is_dir(p2) {
            assert(post.spec_node(p2) == pre.spec_node(p2));
            let ch = pre.spec_children(p2);
            assert(pre.children_ok(p2));
            assert forall|k: int|
                0 <= k < ch.len() implies (#[trigger] post.spec_has(ch[k]) == pre.spec_has(ch[k])
                && (pre.spec_has(ch[k]) ==> post.spec_node(ch[k]).name == pre.spec_node(
                ch[k],
            ).name)) by {
                assert(pre.child_entry_ok(p2, ch[k]));
                assert(ch[k] <= pre.spec_count());
                if ch[k] != parent {
                    assert(post.spec_node(ch[k]) == pre.spec_node(ch[k]));
                }
            }
            lemma_resolve_in_same(pre, post, ch, n2);
        } else {
            if post.spec_is_dir(p2) {
                assert(post.spec_has(p2));
                assert(pre.spec_has(p2));
                assert(post.spec_node(p2) == pre.spec_node(p2));
                assert(false);
            }
        }
    }
}

/// The table as it is born at mount time: the root directory and the
/// example file `hello.txt` under it.
pub open spec fn spec_initial(t: InodeTable) -> bool {
    &&& t.spec_count() == 2
    &&& t.spec_is_dir(ROOT_INO)
    &&& t.spec_children(ROOT_INO) == seq![2u64]
    &&& t.spec_node(ROOT_INO).name@ == Seq::<char>::empty()
    &&& t.spec_node(ROOT_INO).mtime == CREATE_TIME_SECS
    &&& t.spec_has(2)
    &&& t.spec_node(2).name@ == "hello.txt"@
    &&& t.spec_node(2).parent == ROOT_INO
    &&& t.spec_node(2).mtime == CREATE_TIME_SECS
    &&& t.spec_node(2).content is File
    &&& t.spec_node(2).content->File_0@ == hello_bytes()
}

/// The inode a commit at `(parent, name)` lands on: the already-resolved
/// one, or the next never-used number.
pub open spec fn spec_commit_ino(pre: InodeTable, parent: u64, name: Seq<char>) -> u64 {
    match pre.spec_resolve(parent, name) {
        Some(i) => i,
        None => (pre.spec_count() + 1) as u64,
    }
}

/// After a commit of `bytes` at `(parent, name)`, that path resolves to
/// the committed inode and the file there holds exactly `bytes`.
pub proof fn lemma_commit_visible(
    pre: InodeTable,
    post: InodeTable,
    parent: u64,
    name: Seq<char>,
    bytes: Seq<u8>,
    mtime: u64,
)
    requires
        pre.wf(),
        pre.spec_is_dir(parent),
        spec_committed(pre, post, parent, name, bytes, mtime),
    ensures
        post.spec_resolve(parent, name) == Some(spec_commit_ino(pre, parent, name)),
        post.spec_has(spec_commit_ino(pre, parent, name)),
        post.spec_node(spec_commit_ino(pre, parent, name)).content is File,
        post.spec_node(spec_commit_ino(pre, parent, name)).content->File_0@ == bytes,
        post.spec_node(spec_commit_ino(pre, parent, name)).mtime == mtime,
        post.spec_node(spec_commit_ino(pre, parent, name)).name@ == name,
{
    match pre.spec_resolve(parent, name) {
        Some(i) => {
            lemma_overwrote_preserves_resolve(pre, post, i, bytes, mtime, parent, name);
            lemma_resolve_names(pre, parent, name);
        },
        None => {
            lemma_created_resolves(
                pre,
                post,
                parent,
                (pre.spec_count() + 1) as u64,
                name,
                bytes,
                mtime,
            );
        },
    }
}

/// Whatever a resolve answers bears the asked-for name.
proof fn lemma_resolve_in_names(t: InodeTable, ch: Seq<u64>, name: Seq<char>)
    ensures
        t.spec_resolve_in(ch, name) matches Some(i) ==> t.spec_has(i) && t.spec_node(i).name@
            == name,
    decreases ch.len(),
{
    if ch.len() != 0 {
        lemma_resolve_in_names(t, ch.drop_first(), name);
    }
}

/// Whatever a resolve answers exists and bears the asked-for name.
pub proof fn lemma_resolve_names(t: InodeTable, parent: u64, name: Seq<char>)
    ensures
        t.spec_resolve(parent, name) matches Some(i) ==> t.spec_has(i) && t.spec_node(i).name@
            == name,
{
    if t.spec_is_dir(parent) {
        lemma_resolve_in_names(t, t.spec_children(parent), name);
    }
}

/// Reads take the table by shared reference and so cannot move it; this
/// lemma adds that one pipeline commit is the only mutation an
/// interleaving of lookups with a commit can leave behind, and that it
/// leaves every other path resolving exactly as before.  Together the
/// final table of any such interleaving equals the table after the
/// commit alone — a valid serialization.
pub proof fn lemma_commit_preserves_other_paths(
    pre: InodeTable,
    post: InodeTable,
    parent: u64,
    name: Seq<char>,
    bytes: Seq<u8>,
    mtime: u64,
    p2: u64,
    n2: Seq<char>,
)
    requires
        pre.wf(),
        pre.spec_is_dir(parent),
        spec_committed(pre, post, parent, name, bytes, mtime),
        !(p2 == parent && n2 == name),
    ensures
        post.spec_resolve(p2, n2) == pre.spec_resolve(p2, n2),
{
    match pre.spec_resolve(parent, name) {
        Some(i) => {
            lemma_overwrote_preserves_resolve(pre, post, i, bytes, mtime, p2, n2);
        },
        None => {
            lemma_created_preserves_other(
                pre,
                post,
                parent,
                (pre.spec_count() + 1) as u64,
                name,
                bytes,
                mtime,
                p2,
                n2,
            );
        },
    }
}

/// Whatever a scan answers is one of the scanned entries.
proof fn lemma_resolve_in_members(t: InodeTable, ch: Seq<u64>, name: Seq<char>)
    ensures
        t.spec_resolve_in(ch, name) matches Some(i) ==> ch.contains(i),
    decreases ch.len(),
{
    if ch.len() != 0 {
        if t.spec_has(ch[0]) && t.spec_node(ch[0]).name@ == name {
            assert(ch.contains(ch[0]));
        } else {
            lemma_resolve_in_members(t, ch.drop_first(), name);
            match t.spec_resolve_in(ch.drop_first(), name) {
                Some(i) => {
                    let k = choose|k: int|
                        0 <= k < ch.drop_first().len() && ch.drop_first()[k] == i;
                    assert(ch[k + 1] == i);
                    assert(ch.contains(i));
                },
                None => {},
            }
        }
    }
}

/// A resolve never answers the root: the root is nobody's child.
pub proof fn lemma_resolve_not_root(t: InodeTable, parent: u64, name: Seq<char>)
    requires
        t.wf(),
    ensures
        t.spec_resolve(parent, name) matches Some(i) ==> i != ROOT_INO,
{
    if t.spec_is_dir(parent) {
        lemma_resolve_in_members(t, t.spec_children(parent), name);
        match t.spec_resolve(parent, name) {
            Some(i) => {
                assert(t.children_ok(parent));
                let ch = t.spec_children(parent);
                let k = choose|k: int| 0 <= k < ch.len() && ch[k] == i;
                assert(t.child_entry_ok(parent, ch[k]));
            },
            None => {},
        }
    }
}

} // verus!
