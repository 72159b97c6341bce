//! Nodes of the synthesized namespace and their derived attribute view.

use vstd::prelude::*;

verus! {

/// Inode number of the root directory; it always exists and is never removed.
pub const ROOT_INO: u64 = 1;

/// Seconds for which cached attributes and directory listings stay valid
/// before a caller must revalidate with a fresh lookup.
pub const TTL_SECS: u64 = 1;

/// Timestamp (seconds) stamped on the entries the table is born with.
pub const CREATE_TIME_SECS: u64 = 1381237736;

/// Permission bits reported for directories.
pub const PERM_DIR: u16 = 0o755;

/// Permission bits reported for regular files.
pub const PERM_FILE: u16 = 0o644;

/// Owner user id reported for every node.
pub const OWNER_UID: u32 = 501;

/// Owner group id reported for every node.
pub const OWNER_GID: u32 = 20;

/// Link count reported for directories.
pub const NLINK_DIR: u32 = 2;

/// Link count reported for regular files.
pub const NLINK_FILE: u32 = 1;

/// The fixed label the mount reports; the mount is always read-only.
pub const FS_LABEL: &'static str = "hello";

/// The transport verbs a pending request may carry.
#[derive(Clone, Copy, PartialEq, Eq, Structural, Debug)]
pub enum HttpVerb {
    Get,
    Head,
    Post,
    Put,
    Delete,
    Connect,
    Options,
    Trace,
    Patch,
}

/// What kind of namespace entry a node is.
#[derive(Clone, Copy, PartialEq, Eq, Structural, Debug)]
pub enum NodeKind {
    Directory,
    RegularFile,
}

/// Payload of a node: a directory holds the ordered inodes of its
/// children, a file holds its bytes.
pub enum FileContent {
    Directory(Vec<u64>),
    File(Vec<u8>),
}

/// One entry of the namespace.
pub struct FileNode {
    pub name: String,
    pub parent: u64,
    pub mtime: u64,
    pub content: FileContent,
}

/// Derived, cacheable view of a node, valid for `ttl_secs` seconds.
#[derive(Clone, Copy, PartialEq, Eq, Structural, Debug)]
pub struct FileAttr {
    pub ino: u64,
    pub kind: NodeKind,
    pub size: u64,
    pub perm: u16,
    pub nlink: u32,
    pub uid: u32,
    pub gid: u32,
    pub atime: u64,
    pub mtime: u64,
    pub ctime: u64,
    pub crtime: u64,
    pub ttl_secs: u64,
}

/// One row of a directory listing.
#[derive(Clone, PartialEq, Eq, Debug)]
pub struct DirEntry {
    pub ino: u64,
    pub kind: NodeKind,
    pub name: String,
}

impl FileContent {
    /// The kind this content makes its node.
    pub open spec fn spec_kind(&self) -> NodeKind {
        match self {
            FileContent::Directory(_) => NodeKind::Directory,
            FileContent::File(_) => NodeKind::RegularFile,
        }
    }

    /// Reported size: zero for a directory, byte length for a file.
    pub open spec fn spec_size(&self) -> nat {
        match self {
            FileContent::Directory(_) => 0,
            FileContent::File(b) => b@.len(),
        }
    }
}

/// The attributes derived from a node: size mirrors the content, the
/// remaining fields are the fixed read-only-mount values.
pub open spec fn spec_attr_of(node: FileNode, ino: u64) -> FileAttr {
    FileAttr {
        ino,
        kind: node.content.spec_kind(),
        size: node.content.spec_size() as u64,
        perm: if node.content is Directory {
            PERM_DIR
        } else {
            PERM_FILE
        },
        nlink: if node.content is Directory {
            NLINK_DIR
        } else {
            NLINK_FILE
        },
        uid: OWNER_UID,
        gid: OWNER_GID,
        atime: CREATE_TIME_SECS,
        mtime: node.mtime,
        ctime: CREATE_TIME_SECS,
        crtime: CREATE_TIME_SECS,
        ttl_secs: TTL_SECS,
    }
}

/// Builds the attribute view of `node`.
pub fn attr_of(node: &FileNode, ino: u64) -> (r: FileAttr)
    ensures
        r == spec_attr_of(*node, ino),
{
    let (kind, size, perm, nlink) = match &node.content {
        FileContent::Directory(_) => (NodeKind::Directory, 0u64, PERM_DIR, NLINK_DIR),
        FileContent::File(b) => (NodeKind::RegularFile, b.len() as u64, PERM_FILE, NLINK_FILE),
    };
    FileAttr {
        ino,
        kind,
        size,
        perm,
        nlink,
        uid: OWNER_UID,
        gid: OWNER_GID,
        atime: CREATE_TIME_SECS,
        mtime: node.mtime,
        ctime: CREATE_TIME_SECS,
        crtime: CREATE_TIME_SECS,
        ttl_secs: TTL_SECS,
    }
}

/// The attributes a node reports always match its kind: directories
/// report size zero, files report exactly their content length.
pub proof fn lemma_attr_matches_kind(node: FileNode, ino: u64)
    ensures
        spec_attr_of(node, ino).kind == node.content.spec_kind(),
        node.content is Directory ==> spec_attr_of(node, ino).size == 0,
        node.content is File ==> spec_attr_of(node, ino).size == node.content.spec_size() as u64,
        spec_attr_of(node, ino).ino == ino,
        spec_attr_of(node, ino).ttl_secs == TTL_SECS,
{
}

/// The bytes of the well-known example file, spelling "Hello World!\n".
pub open spec fn hello_bytes() -> Seq<u8> {
    seq![72u8, 101u8, 108u8, 108u8, 111u8, 32u8, 87u8, 111u8, 114u8, 108u8, 100u8, 33u8, 10u8]
}

/// Builds the content of the well-known example file.
pub fn hello_content() -> (r: Vec<u8>)
    ensures
        r@ == hello_bytes(),
{
    let mut v: Vec<u8> = Vec::new();
    v.push(72);
    v.push(101);
    v.push(108);
    v.push(108);
    v.push(111);
    v.push(32);
    v.push(87);
    v.push(111);
    v.push(114);
    v.push(108);
    v.push(100);
    v.push(33);
    v.push(10);
    proof {
        assert(v@ =~= hello_bytes());
    }
    v
}

} // verus!
