//! The kernel-facing protocol surface: a request/response mapping over
//! the inode table, each call optionally wrapped around one pipeline
//! run.
//!
//! The transport stage is the one piece that performs network I/O, so a
//! pipeline run is split in two verified halves: [`Dispatcher::begin_update`]
//! produces the outbound request (notify, then precommit), the embedding
//! program performs the exchange under its own timeout, and
//! [`Dispatcher::finish_update`] takes whatever came back — `None` for a
//! transport failure — runs postcommit, and persists a success into the
//! table.  Discarding a result (unmount while in flight) is simply not
//! calling `finish_update`.

use vstd::prelude::*;

verus! {

use vstd::string::StrSliceExecFns;
use vstd::string::StringSliceAdditionalSpecFns;
use vstd::utf8::encode_utf8;
use crate::node::{spec_attr_of, attr_of, DirEntry, FileAttr, FileContent, NodeKind};
use crate::pipeline::{
    call_notify,
    call_postcommit,
    call_precommit,
    Adapter,
    FsOp,
    PendingRequest,
    Response,
    RuntimeBoundary,
};
use crate::table::{
    lemma_commit_visible,
    lemma_compose_create,
    lemma_resolve_names,
    lemma_resolve_not_root,
    spec_commit_ino,
    spec_committed,
    spec_initial,
    spec_removed,
    InodeTable,
    TableError,
};

/// How a dispatcher call fails.  An unknown inode or name maps to the
/// protocol's "no such entry" answer; the other two surface as
/// I/O-class errors without harming the mount.
#[derive(Clone, Copy, PartialEq, Eq, Structural, Debug)]
pub enum FsError {
    /// Unknown inode or unresolved name.
    NotFound,
    /// The network exchange failed or timed out; the table is untouched.
    Transport,
    /// A hook failed; the run was abandoned and the boundary released.
    Hook,
}

/// The driver behind one mount: the namespace table, the caller's
/// adapter capability, and the boundary in front of the embedded
/// runtime.
pub struct Dispatcher<A: Adapter> {
    pub adapter: A,
    pub table: InodeTable,
    pub boundary: RuntimeBoundary,
}

/// The slice of file bytes a read answers: `[offset, offset + size)`
/// clamped to the content, empty past the end, never an error.
pub open spec fn spec_read_slice(b: Seq<u8>, offset: u64, size: u32) -> Seq<u8> {
    if offset >= b.len() {
        Seq::empty()
    } else if offset + size <= b.len() {
        b.subrange(offset as int, offset + size)
    } else {
        b.subrange(offset as int, b.len() as int)
    }
}

/// Row `k` of the full listing of directory `ino`: `.`, then `..`
/// (the root lists itself), then each child in order.
pub open spec fn spec_entry_at(t: InodeTable, ino: u64, k: int, e: DirEntry) -> bool {
    if k == 0 {
        e.ino == ino && e.kind == NodeKind::Directory && e.name@ == "."@
    } else if k == 1 {
        e.ino == t.spec_node(ino).parent && e.kind == NodeKind::Directory && e.name@ == ".."@
    } else {
        let c = t.spec_children(ino)[k - 2];
        e.ino == c && e.kind == t.spec_node(c).content.spec_kind() && e.name@ == t.spec_node(
            c,
        ).name@
    }
}

/// A listing answer starting at `offset`: exactly the tail of the full
/// listing, so the two dot rows come first and appear only from offset
/// zero.
pub open spec fn spec_listing_from(t: InodeTable, ino: u64, offset: u64, v: Seq<DirEntry>) -> bool {
    let total = 2 + t.spec_children(ino).len();
    let start: int = if offset <= total {
        offset as int
    } else {
        total as int
    };
    &&& v.len() == total - start
    &&& forall|j: int| 0 <= j < v.len() ==> spec_entry_at(t, ino, start + j, #[trigger] v[j])
}

/// In a listing taken from the start, the `.` and `..` rows always come
/// before any other entry.
pub proof fn lemma_listing_dots_first(t: InodeTable, ino: u64, v: Seq<DirEntry>)
    requires
        spec_listing_from(t, ino, 0, v),
    ensures
        v.len() >= 2,
        v[0].name@ == "."@,
        v[0].ino == ino,
        v[0].kind == NodeKind::Directory,
        v[1].name@ == ".."@,
        v[1].ino == t.spec_node(ino).parent,
        v[1].kind == NodeKind::Directory,
        forall|j: int| 2 <= j < v.len() ==> #[trigger] v[j].ino == t.spec_children(ino)[j - 2],
{
    assert(spec_entry_at(t, ino, 0, v[0]));
    assert(spec_entry_at(t, ino, 1, v[1]));
    assert forall|j: int| 2 <= j < v.len() implies #[trigger] v[j].ino == t.spec_children(ino)[j
        - 2] by {
        assert(spec_entry_at(t, ino, j, v[j]));
    }
}

impl<A: Adapter> Dispatcher<A> {
    /// The dispatcher is sound: the table keeps its tree invariant and
    /// nobody is left holding the runtime boundary.
    pub open spec fn wf(&self) -> bool {
        self.table.wf() && !self.boundary.is_locked()
    }

    /// What a lookup answers: hook failure first, then the resolved
    /// entry's attributes, then "no such entry".
    pub open spec fn spec_lookup(&self, parent: u64, name: Seq<char>) -> Result<FileAttr, FsError> {
        if self.adapter.notify_spec(FsOp::Lookup, name) is Err {
            Err(FsError::Hook)
        } else {
            match self.table.spec_resolve(parent, name) {
                Some(i) => Ok(spec_attr_of(self.table.spec_node(i), i)),
                None => Err(FsError::NotFound),
            }
        }
    }

    /// What a getattr answers.
    pub open spec fn spec_getattr(&self, ino: u64) -> Result<FileAttr, FsError> {
        if self.table.spec_has(ino) {
            Ok(spec_attr_of(self.table.spec_node(ino), ino))
        } else {
            Err(FsError::NotFound)
        }
    }

    /// What a failed commit answers: the prior entry's attributes when
    /// one was cached, else "no such entry".
    pub open spec fn spec_stale_reply(&self, parent: u64, name: Seq<char>) -> Result<
        FileAttr,
        FsError,
    > {
        match self.table.spec_resolve(parent, name) {
            Some(i) => Ok(spec_attr_of(self.table.spec_node(i), i)),
            None => Err(FsError::NotFound),
        }
    }

    /// What the first pipeline half answers: the request the transport
    /// should send, after notify and precommit.
    pub open spec fn spec_begin_update(&self, path: Seq<char>, req: PendingRequest) -> Result<
        PendingRequest,
        FsError,
    > {
        if self.adapter.notify_spec(FsOp::Update, path) is Err {
            Err(FsError::Hook)
        } else {
            match self.adapter.precommit_spec(req) {
                Ok(q) => Ok(q),
                Err(_) => Err(FsError::Hook),
            }
        }
    }

    /// A dispatcher at mount time: the initial table, the caller's
    /// adapter, a free boundary.
    pub fn new(adapter: A) -> (r: Self)
        ensures
            r.wf(),
            spec_initial(r.table),
            r.adapter == adapter,
    {
        Dispatcher { adapter, table: InodeTable::new(), boundary: RuntimeBoundary::new() }
    }

    /// Fires the notify hook, then resolves `name` under `parent` and
    /// answers the entry's attributes (TTL included).  The table is
    /// never changed.
    pub fn lookup(&mut self, parent: u64, name: &String) -> (r: Result<FileAttr, FsError>)
        requires
            old(self).wf(),
        ensures
            final(self).wf(),
            final(self).table == old(self).table,
            final(self).adapter == old(self).adapter,
            r == old(self).spec_lookup(parent, name@),
    {
        match call_notify(&self.adapter, &mut self.boundary, FsOp::Lookup, name) {
            Ok(_) => {},
            Err(_) => {
                return Err(FsError::Hook);
            },
        }
        match self.table.resolve(parent, name) {
            Some(i) => {
                proof {
                    lemma_resolve_names(self.table, parent, name@);
                }
                let node = match self.table.get(i) {
                    Some(n) => n,
                    None => {
                        proof {
                            assert(false);
                        }
                        return Err(FsError::NotFound);
                    },
                };
                Ok(attr_of(node, i))
            },
            None => Err(FsError::NotFound),
        }
    }

    /// Answers the cached attributes of `ino`, or "no such entry".
    pub fn getattr(&self, ino: u64) -> (r: Result<FileAttr, FsError>)
        ensures
            r == self.spec_getattr(ino),
    {
        match self.table.get(ino) {
            Some(n) => Ok(attr_of(n, ino)),
            None => Err(FsError::NotFound),
        }
    }

    /// Answers the byte slice `[offset, offset + size)` of the file
    /// `ino`, clamped to its content; an offset at or past the end
    /// yields an empty answer, never an error.
    pub fn read(&self, ino: u64, offset: u64, size: u32) -> (r: Result<Vec<u8>, FsError>)
        ensures
            match r {
                Ok(v) => self.table.spec_has(ino) && self.table.spec_node(ino).content is File
                    && v@ == spec_read_slice(
                    self.table.spec_node(ino).content->File_0@,
                    offset,
                    size,
                ),
                Err(e) => e == FsError::NotFound && !(self.table.spec_has(ino)
                    && self.table.spec_node(ino).content is File),
            },
    {
        let node = match self.table.get(ino) {
            Some(n) => n,
            None => {
                return Err(FsError::NotFound);
            },
        };
        let bytes: &Vec<u8> = match &node.content {
            FileContent::File(b) => b,
            FileContent::Directory(_) => {
                return Err(FsError::NotFound);
            },
        };
        let len = bytes.len();
        if offset >= len as u64 {
            return Ok(Vec::new());
        }
        let start: usize = offset as usize;
        let avail: usize = len - start;
        let take: usize = if (size as u64) < (avail as u64) {
            size as usize
        } else {
            avail
        };
        let mut out: Vec<u8> = Vec::new();
        let mut i: usize = 0;
        while i < take
            invariant
                bytes@ == self.table.spec_node(ino).content->File_0@,
                len == bytes@.len(),
                start + take <= len,
                start == offset,
                i <= take,
                out@ == bytes@.subrange(start as int, start + i),
            decreases take - i,
        {
            let b = bytes[start + i];
            out.push(b);
            proof {
                assert(out@ =~= bytes@.subrange(start as int, start + i + 1));
            }
            i = i + 1;
        }
        proof {
            assert(out@ =~= spec_read_slice(bytes@, offset, size));
        }
        Ok(out)
    }

    /// Lists directory `ino` starting at `offset`: `.` and `..` first,
    /// then the children in order.  `offset` rows of the full listing
    /// are skipped, so the dot rows are emitted exactly when `offset`
    /// is zero (the second from one).
    pub fn readdir(&self, ino: u64, offset: u64) -> (r: Result<Vec<DirEntry>, FsError>)
        requires
            self.wf(),
        ensures
            match r {
                Ok(v) => self.table.spec_is_dir(ino) && spec_listing_from(
                    self.table,
                    ino,
                    offset,
                    v@,
                ),
                Err(e) => e == FsError::NotFound && !self.table.spec_is_dir(ino),
            },
    {
        let node = match self.table.get(ino) {
            Some(n) => n,
            None => {
                return Err(FsError::NotFound);
            },
        };
        let children: &Vec<u64> = match &node.content {
            FileContent::Directory(c) => c,
            FileContent::File(_) => {
                return Err(FsError::NotFound);
            },
        };
        let clen = children.len();
        let ghost chs = children@;
        let ghost total: int = 2 + chs.len() as int;
        let ghost start: int = if offset <= total {
            offset as int
        } else {
            total
        };
        let mut out: Vec<DirEntry> = Vec::new();
        if offset == 0 {
            out.push(DirEntry { ino, kind: NodeKind::Directory, name: ".".to_owned() });
        }
        if offset <= 1 {
            out.push(DirEntry { ino: node.parent, kind: NodeKind::Directory, name: "..".to_owned() });
        }
        let cstart: usize = if offset <= 2 {
            0
        } else {
            if offset - 2 >= clen as u64 {
                clen
            } else {
                (offset - 2) as usize
            }
        };
        proof {
            assert(cstart as int == if start <= 2 {
                0int
            } else {
                start - 2
            });
            assert(out@.len() == 2 + cstart - start);
        }
        let mut i: usize = cstart;
        while i < clen
            invariant
                self.wf(),
                self.table.spec_is_dir(ino),
                chs == self.table.spec_children(ino),
                chs == children@,
                clen == chs.len(),
                total == 2 + chs.len(),
                0 <= start <= total,
                start <= 2 + i,
                i <= clen,
                out@.len() == 2 + i - start,
                forall|j: int|
                    0 <= j < out@.len() ==> spec_entry_at(self.table, ino, start + j, #[trigger] out@[j]),
            decreases clen - i,
        {
            let c = children[i];
            proof {
                assert(self.table.children_ok(ino));
                assert(self.table.child_entry_ok(ino, chs[i as int]));
            }
            let cn = match self.table.get(c) {
                Some(n) => n,
                None => {
                    proof {
                        assert(false);
                    }
                    return Err(FsError::NotFound);
                },
            };
            let kind = match &cn.content {
                FileContent::Directory(_) => NodeKind::Directory,
                FileContent::File(_) => NodeKind::RegularFile,
            };
            out.push(DirEntry { ino: c, kind, name: cn.name.clone() });
            i = i + 1;
        }
        Ok(out)
    }

    /// First half of a pipeline run: tells the adapter what is being
    /// dispatched, then lets precommit rewrite the outbound request.
    /// The caller performs the exchange and hands the outcome to
    /// [`Self::finish_update`].
    pub fn begin_update(&mut self, path: &String, req: PendingRequest) -> (r: Result<
        PendingRequest,
        FsError,
    >)
        requires
            old(self).wf(),
            req.wf(),
        ensures
            final(self).wf(),
            final(self).table == old(self).table,
            final(self).adapter == old(self).adapter,
            r == old(self).spec_begin_update(path@, req),
            r matches Ok(q) ==> q.wf(),
    {
        match call_notify(&self.adapter, &mut self.boundary, FsOp::Update, path) {
            Ok(_) => {},
            Err(_) => {
                return Err(FsError::Hook);
            },
        }
        let ghost greq = req;
        match call_precommit(&self.adapter, &mut self.boundary, req) {
            Ok(q) => {
                proof {
                    self.adapter.precommit_preserves_wf(greq);
                }
                Ok(q)
            },
            Err(_) => Err(FsError::Hook),
        }
    }

    /// Second half of a pipeline run.  `None` stands for a transport
    /// failure (error or timeout): nothing changes.  Otherwise
    /// postcommit rewrites the response; an effective 2xx persists the
    /// body at `(parent, name)` — overwriting the resolved file or
    /// creating a fresh one — and answers the entry like a lookup
    /// would, while any other status leaves the table untouched and
    /// answers the prior entry if one was cached.
    pub fn finish_update(
        &mut self,
        parent: u64,
        name: &String,
        transport: Option<Response>,
        mtime: u64,
    ) -> (r: Result<FileAttr, FsError>)
        requires
            old(self).wf(),
            old(self).table.spec_count() < u64::MAX,
        ensures
            final(self).wf(),
            final(self).adapter == old(self).adapter,
            match transport {
                None => final(self).table == old(self).table && r == Err::<FileAttr, FsError>(
                    FsError::Transport,
                ),
                Some(resp) => match old(self).adapter.postcommit_spec(resp) {
                    Err(_) => final(self).table == old(self).table && r == Err::<
                        FileAttr,
                        FsError,
                    >(FsError::Hook),
                    Ok(eff) => if !eff.spec_is_success() {
                        final(self).table == old(self).table && r == old(self).spec_stale_reply(
                            parent,
                            name@,
                        )
                    } else if !old(self).table.spec_is_dir(parent) {
                        final(self).table == old(self).table && r == Err::<FileAttr, FsError>(
                            FsError::NotFound,
                        )
                    } else if (old(self).table.spec_resolve(parent, name@) matches Some(i) && old(
                        self,
                    ).table.spec_node(i).content is Directory) {
                        final(self).table == old(self).table && r == Err::<FileAttr, FsError>(
                            FsError::NotFound,
                        )
                    } else {
                        let ino = spec_commit_ino(old(self).table, parent, name@);
                        &&& spec_committed(
                            old(self).table,
                            final(self).table,
                            parent,
                            name@,
                            encode_utf8(eff.body@),
                            mtime,
                        )
                        &&& final(self).table.spec_resolve(parent, name@) == Some(ino)
                        &&& r == Ok::<FileAttr, FsError>(
                            spec_attr_of(final(self).table.spec_node(ino), ino),
                        )
                    },
                },
            },
    {
        let resp = match transport {
            Some(resp) => resp,
            None => {
                return Err(FsError::Transport);
            },
        };
        let eff = match call_postcommit(&self.adapter, &mut self.boundary, resp) {
            Ok(e) => e,
            Err(_) => {
                return Err(FsError::Hook);
            },
        };
        if !eff.is_success() {
            match self.table.resolve(parent, name) {
                Some(i) => {
                    proof {
                        lemma_resolve_names(self.table, parent, name@);
                    }
                    let node = match self.table.get(i) {
                        Some(n) => n,
                        None => {
                            proof {
                                assert(false);
                            }
                            return Err(FsError::NotFound);
                        },
                    };
                    return Ok(attr_of(node, i));
                },
                None => {
                    return Err(FsError::NotFound);
                },
            }
        }
        let bytes = eff.body.as_str().as_bytes_vec();
        proof {
            assert(bytes@ == encode_utf8(eff.body@));
        }
        let ghost pre = self.table;
        match self.table.resolve(parent, name) {
            Some(i) => {
                proof {
                    lemma_resolve_names(pre, parent, name@);
                }
                let target_is_dir = match self.table.get(i) {
                    Some(n) => match &n.content {
                        FileContent::Directory(_) => true,
                        FileContent::File(_) => false,
                    },
                    None => {
                        proof {
                            assert(false);
                        }
                        true
                    },
                };
                if target_is_dir {
                    return Err(FsError::NotFound);
                }
                let res = self.table.write_file(i, bytes, mtime);
                proof {
                    assert(res is Ok);
                    assert(spec_committed(
                        pre,
                        self.table,
                        parent,
                        name@,
                        encode_utf8(eff.body@),
                        mtime,
                    ));
                    lemma_commit_visible(
                        pre,
                        self.table,
                        parent,
                        name@,
                        encode_utf8(eff.body@),
                        mtime,
                    );
                }
                let node = match self.table.get(i) {
                    Some(n) => n,
                    None => {
                        proof {
                            assert(false);
                        }
                        return Err(FsError::NotFound);
                    },
                };
                Ok(attr_of(node, i))
            },
            None => {
                let ino = match self.table.allocate_child(
                    parent,
                    name.clone(),
                    NodeKind::RegularFile,
                    mtime,
                ) {
                    Ok(ino) => ino,
                    Err(_) => {
                        return Err(FsError::NotFound);
                    },
                };
                let ghost mid = self.table;
                let res = self.table.write_file(ino, bytes, mtime);
                proof {
                    assert(res is Ok);
                    assert(parent != ino);
                    lemma_compose_create(
                        pre,
                        mid,
                        self.table,
                        parent,
                        ino,
                        name@,
                        encode_utf8(eff.body@),
                        mtime,
                    );
                    assert(spec_committed(
                        pre,
                        self.table,
                        parent,
                        name@,
                        encode_utf8(eff.body@),
                        mtime,
                    ));
                    lemma_commit_visible(
                        pre,
                        self.table,
                        parent,
                        name@,
                        encode_utf8(eff.body@),
                        mtime,
                    );
                }
                let node = match self.table.get(ino) {
                    Some(n) => n,
                    None => {
                        proof {
                            assert(false);
                        }
                        return Err(FsError::NotFound);
                    },
                };
                Ok(attr_of(node, ino))
            },
        }
    }

    /// Second half of a delete-equivalent pipeline run.  An effective
    /// 2xx removes the resolved leaf entry and answers `true`; a
    /// non-success status, or an entry that is a directory with
    /// children, changes nothing and answers `false` (a logged
    /// failure); a path with no cached entry answers "no such entry".
    pub fn finish_delete(&mut self, parent: u64, name: &String, transport: Option<Response>) -> (r:
        Result<bool, FsError>)
        requires
            old(self).wf(),
        ensures
            final(self).wf(),
            final(self).adapter == old(self).adapter,
            match transport {
                None => final(self).table == old(self).table && r == Err::<bool, FsError>(
                    FsError::Transport,
                ),
                Some(resp) => match old(self).adapter.postcommit_spec(resp) {
                    Err(_) => final(self).table == old(self).table && r == Err::<bool, FsError>(
                        FsError::Hook,
                    ),
                    Ok(eff) => match old(self).table.spec_resolve(parent, name@) {
                        None => final(self).table == old(self).table && r == Err::<bool, FsError>(
                            FsError::NotFound,
                        ),
                        Some(i) => if !eff.spec_is_success() {
                            final(self).table == old(self).table && r == Ok::<bool, FsError>(false)
                        } else if (old(self).table.spec_node(i).content is Directory && old(
                            self,
                        ).table.spec_children(i).len() > 0) {
                            final(self).table == old(self).table && r == Ok::<bool, FsError>(false)
                        } else {
                            spec_removed(old(self).table, final(self).table, i) && r == Ok::<
                                bool,
                                FsError,
                            >(true)
                        },
                    },
                },
            },
    {
        let resp = match transport {
            Some(resp) => resp,
            None => {
                return Err(FsError::Transport);
            },
        };
        let eff = match call_postcommit(&self.adapter, &mut self.boundary, resp) {
            Ok(e) => e,
            Err(_) => {
                return Err(FsError::Hook);
            },
        };
        let target = match self.table.resolve(parent, name) {
            Some(i) => i,
            None => {
                return Err(FsError::NotFound);
            },
        };
        proof {
            lemma_resolve_names(self.table, parent, name@);
            lemma_resolve_not_root(self.table, parent, name@);
        }
        if !eff.is_success() {
            return Ok(false);
        }
        match self.table.remove(target) {
            Ok(_) => Ok(true),
            Err(e) => {
                proof {
                    assert(e == TableError::NotEmpty);
                }
                Ok(false)
            },
        }
    }
}

} // verus!

