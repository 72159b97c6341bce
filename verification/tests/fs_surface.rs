//! The protocol surface over a freshly mounted table.

use restfs::dispatcher::{Dispatcher, FsError};
use restfs::node::{NodeKind, ROOT_INO, TTL_SECS};
use restfs::pipeline::DefaultAdapter;

fn fresh() -> Dispatcher<DefaultAdapter> {
    Dispatcher::new(DefaultAdapter)
}

#[test]
fn getattr_root_matches_directory() {
    let d = fresh();
    let attr = d.getattr(ROOT_INO).unwrap();
    assert_eq!(attr.ino, ROOT_INO);
    assert_eq!(attr.kind, NodeKind::Directory);
    assert_eq!(attr.size, 0);
    assert_eq!(attr.perm, 0o755);
    assert_eq!(attr.nlink, 2);
    assert_eq!(attr.uid, 501);
    assert_eq!(attr.gid, 20);
    assert_eq!(attr.ttl_secs, TTL_SECS);
}

#[test]
fn getattr_hello_matches_file() {
    let d = fresh();
    let attr = d.getattr(2).unwrap();
    assert_eq!(attr.ino, 2);
    assert_eq!(attr.kind, NodeKind::RegularFile);
    assert_eq!(attr.size, 13);
    assert_eq!(attr.perm, 0o644);
    assert_eq!(attr.nlink, 1);
    assert_eq!(attr.ttl_secs, TTL_SECS);
}

#[test]
fn getattr_unknown_not_found() {
    let d = fresh();
    assert_eq!(d.getattr(99), Err(FsError::NotFound));
    assert_eq!(d.getattr(0), Err(FsError::NotFound));
}

#[test]
fn lookup_hello_gives_ttl_one_and_size_13() {
    let mut d = fresh();
    let attr = d.lookup(ROOT_INO, &String::from("hello.txt")).unwrap();
    assert_eq!(attr.ttl_secs, 1);
    assert_eq!(attr.size, 13);
    assert_eq!(attr.ino, 2);
    assert_eq!(attr.kind, NodeKind::RegularFile);
}

#[test]
fn lookup_unknown_name_not_found() {
    let mut d = fresh();
    assert_eq!(
        d.lookup(ROOT_INO, &String::from("nope.txt")),
        Err(FsError::NotFound)
    );
    assert_eq!(
        d.lookup(2, &String::from("hello.txt")),
        Err(FsError::NotFound)
    );
}

#[test]
fn read_full_content_is_hello_world() {
    let d = fresh();
    let bytes = d.read(2, 0, 4096).unwrap();
    assert_eq!(bytes, b"Hello World!\n".to_vec());
    assert_eq!(bytes.len(), 13);
}

#[test]
fn read_offset_at_end_is_empty_not_error() {
    let d = fresh();
    let bytes = d.read(2, 13, 100).unwrap();
    assert!(bytes.is_empty());
    let beyond = d.read(2, 1000, 100).unwrap();
    assert!(beyond.is_empty());
}

#[test]
fn read_clamps_to_content() {
    let d = fresh();
    assert_eq!(d.read(2, 6, 5).unwrap(), b"World".to_vec());
    assert_eq!(d.read(2, 6, 4096).unwrap(), b"World!\n".to_vec());
    assert_eq!(d.read(2, 0, 5).unwrap(), b"Hello".to_vec());
}

#[test]
fn read_on_directory_not_found() {
    let d = fresh();
    assert_eq!(d.read(ROOT_INO, 0, 10), Err(FsError::NotFound));
}

#[test]
fn read_unknown_inode_not_found() {
    let d = fresh();
    assert_eq!(d.read(7, 0, 10), Err(FsError::NotFound));
}

#[test]
fn readdir_root_yields_dots_first() {
    let d = fresh();
    let rows = d.readdir(ROOT_INO, 0).unwrap();
    assert_eq!(rows.len(), 3);
    assert_eq!(rows[0].name, ".");
    assert_eq!(rows[0].ino, ROOT_INO);
    assert_eq!(rows[0].kind, NodeKind::Directory);
    assert_eq!(rows[1].name, "..");
    assert_eq!(rows[1].ino, ROOT_INO);
    assert_eq!(rows[1].kind, NodeKind::Directory);
    assert_eq!(rows[2].name, "hello.txt");
    assert_eq!(rows[2].ino, 2);
    assert_eq!(rows[2].kind, NodeKind::RegularFile);
}

#[test]
fn readdir_offset_skips_rows() {
    let d = fresh();
    let rows = d.readdir(ROOT_INO, 2).unwrap();
    assert_eq!(rows.len(), 1);
    assert_eq!(rows[0].name, "hello.txt");
    let none = d.readdir(ROOT_INO, 3).unwrap();
    assert!(none.is_empty());
    let far = d.readdir(ROOT_INO, 100).unwrap();
    assert!(far.is_empty());
}

#[test]
fn readdir_on_file_not_found() {
    let d = fresh();
    assert_eq!(d.readdir(2, 0), Err(FsError::NotFound));
    assert_eq!(d.readdir(42, 0), Err(FsError::NotFound));
}
