//! The inode table's own operations.

use restfs::node::{FileContent, NodeKind, ROOT_INO};
use restfs::table::{InodeTable, TableError};

#[test]
fn new_table_holds_root_and_example_file() {
    let t = InodeTable::new();
    assert_eq!(t.count(), 2);
    let root = t.get(ROOT_INO).unwrap();
    assert_eq!(root.parent, ROOT_INO);
    match &root.content {
        FileContent::Directory(children) => assert_eq!(children, &vec![2u64]),
        FileContent::File(_) => panic!("root must be a directory"),
    }
    let hello = t.get(2).unwrap();
    assert_eq!(hello.name, "hello.txt");
    assert_eq!(hello.parent, ROOT_INO);
    match &hello.content {
        FileContent::File(bytes) => assert_eq!(bytes, &b"Hello World!\n".to_vec()),
        FileContent::Directory(_) => panic!("hello.txt must be a file"),
    }
}

#[test]
fn resolve_finds_by_name() {
    let t = InodeTable::new();
    assert_eq!(t.resolve(ROOT_INO, &String::from("hello.txt")), Some(2));
    assert_eq!(t.resolve(ROOT_INO, &String::from("absent")), None);
    assert_eq!(t.resolve(2, &String::from("hello.txt")), None);
    assert_eq!(t.resolve(9, &String::from("hello.txt")), None);
}

#[test]
fn allocate_child_assigns_next_number() {
    let mut t = InodeTable::new();
    let ino = t
        .allocate_child(ROOT_INO, String::from("a.txt"), NodeKind::RegularFile, 10)
        .unwrap();
    assert_eq!(ino, 3);
    assert_eq!(t.count(), 3);
    assert_eq!(t.resolve(ROOT_INO, &String::from("a.txt")), Some(3));
    let node = t.get(3).unwrap();
    assert_eq!(node.parent, ROOT_INO);
    assert_eq!(node.mtime, 10);
    match &node.content {
        FileContent::File(bytes) => assert!(bytes.is_empty()),
        FileContent::Directory(_) => panic!("requested a file"),
    }
}

#[test]
fn allocate_child_refuses_bad_parent() {
    let mut t = InodeTable::new();
    assert_eq!(
        t.allocate_child(2, String::from("x"), NodeKind::RegularFile, 0),
        Err(TableError::InvalidParent)
    );
    assert_eq!(
        t.allocate_child(99, String::from("x"), NodeKind::RegularFile, 0),
        Err(TableError::InvalidParent)
    );
    assert_eq!(t.count(), 2);
}

#[test]
fn directories_nest() {
    let mut t = InodeTable::new();
    let sub = t
        .allocate_child(ROOT_INO, String::from("sub"), NodeKind::Directory, 1)
        .unwrap();
    let inner = t
        .allocate_child(sub, String::from("in.txt"), NodeKind::RegularFile, 2)
        .unwrap();
    assert_eq!((sub, inner), (3, 4));
    assert_eq!(t.resolve(sub, &String::from("in.txt")), Some(4));
    assert_eq!(t.resolve(ROOT_INO, &String::from("in.txt")), None);
    assert_eq!(t.get(4).unwrap().parent, sub);
}

#[test]
fn write_file_replaces_content_and_mtime() {
    let mut t = InodeTable::new();
    t.write_file(2, b"abc".to_vec(), 77).unwrap();
    let node = t.get(2).unwrap();
    assert_eq!(node.mtime, 77);
    match &node.content {
        FileContent::File(bytes) => assert_eq!(bytes, &b"abc".to_vec()),
        FileContent::Directory(_) => panic!("still a file"),
    }
    assert_eq!(node.name, "hello.txt");
}

#[test]
fn write_file_refuses_directories_and_ghosts() {
    let mut t = InodeTable::new();
    assert_eq!(
        t.write_file(ROOT_INO, b"x".to_vec(), 0),
        Err(TableError::NotAFile)
    );
    assert_eq!(t.write_file(9, b"x".to_vec(), 0), Err(TableError::NotFound));
}

#[test]
fn removed_numbers_are_never_reassigned() {
    let mut t = InodeTable::new();
    let a = t
        .allocate_child(ROOT_INO, String::from("a"), NodeKind::RegularFile, 0)
        .unwrap();
    assert_eq!(a, 3);
    t.remove(a).unwrap();
    assert!(t.get(a).is_none());
    assert_eq!(t.resolve(ROOT_INO, &String::from("a")), None);
    assert_eq!(t.count(), 3, "the retired number still counts as used");
    let b = t
        .allocate_child(ROOT_INO, String::from("b"), NodeKind::RegularFile, 0)
        .unwrap();
    assert_eq!(b, 4, "a fresh number, never the retired one");
}

#[test]
fn remove_protects_root_and_nonempty_directories() {
    let mut t = InodeTable::new();
    assert_eq!(t.remove(ROOT_INO), Err(TableError::RootReserved));
    assert_eq!(t.remove(9), Err(TableError::NotFound));
    let sub = t
        .allocate_child(ROOT_INO, String::from("sub"), NodeKind::Directory, 0)
        .unwrap();
    let inner = t
        .allocate_child(sub, String::from("in"), NodeKind::RegularFile, 0)
        .unwrap();
    assert_eq!(t.remove(sub), Err(TableError::NotEmpty));
    t.remove(inner).unwrap();
    t.remove(sub).unwrap();
    assert_eq!(t.resolve(ROOT_INO, &String::from("sub")), None);
}
