//! Whole pipeline runs: begin, a simulated transport outcome, finish.

use restfs::dispatcher::{Dispatcher, FsError};
use restfs::node::{HttpVerb, NodeKind, ROOT_INO};
use restfs::pipeline::{Adapter, DefaultAdapter, PendingRequest, RejectingAdapter, Response};

fn fresh() -> Dispatcher<DefaultAdapter> {
    Dispatcher::new(DefaultAdapter)
}

fn request(verb: HttpVerb, url: &str, body: &str) -> PendingRequest {
    PendingRequest {
        verb,
        headers: Vec::new(),
        url: String::from(url),
        body: String::from(body),
    }
}

#[test]
fn default_precommit_is_identity() {
    let req = request(HttpVerb::Put, "http://svc/data.json", "{\"a\":1}");
    let out = DefaultAdapter.precommit(req).unwrap();
    assert_eq!(out.verb, HttpVerb::Put);
    assert!(out.headers.is_empty());
    assert_eq!(out.url, "http://svc/data.json");
    assert_eq!(out.body, "{\"a\":1}");
}

#[test]
fn default_postcommit_is_identity() {
    let resp = Response {
        status: 204,
        body: String::from("raw payload"),
    };
    let out = DefaultAdapter.postcommit(resp).unwrap();
    assert_eq!(out.status, 204);
    assert_eq!(out.body, "raw payload");
}

#[test]
fn default_notify_succeeds() {
    assert!(DefaultAdapter
        .notify(restfs::pipeline::FsOp::Lookup, &String::from("x"))
        .is_ok());
}

#[test]
fn begin_update_hands_request_through_unchanged() {
    let mut d = fresh();
    let req = request(HttpVerb::Post, "http://svc/new", "content");
    let sent = d.begin_update(&String::from("new"), req).unwrap();
    assert_eq!(sent.verb, HttpVerb::Post);
    assert_eq!(sent.url, "http://svc/new");
    assert_eq!(sent.body, "content");
    assert!(sent.headers.is_empty());
}

#[test]
fn commit_success_creates_file_visible_to_lookup() {
    let mut d = fresh();
    let name = String::from("data.json");
    let req = request(HttpVerb::Put, "http://svc/data.json", "");
    let _sent = d.begin_update(&name, req).unwrap();
    let resp = Response {
        status: 200,
        body: String::from("payload"),
    };
    let attr = d.finish_update(ROOT_INO, &name, Some(resp), 42).unwrap();
    assert_eq!(attr.kind, NodeKind::RegularFile);
    assert_eq!(attr.size, 7);
    assert_eq!(attr.mtime, 42);

    let found = d.lookup(ROOT_INO, &name).unwrap();
    assert_eq!(found.ino, attr.ino);
    assert_eq!(found.size, 7);
    let bytes = d.read(attr.ino, 0, 4096).unwrap();
    assert_eq!(bytes, b"payload".to_vec());

    let rows = d.readdir(ROOT_INO, 0).unwrap();
    assert_eq!(rows.len(), 4);
    assert_eq!(rows[3].name, "data.json");
}

#[test]
fn commit_overwrites_existing_entry() {
    let mut d = fresh();
    let name = String::from("hello.txt");
    let resp = Response {
        status: 201,
        body: String::from("fresh bytes"),
    };
    let attr = d.finish_update(ROOT_INO, &name, Some(resp), 9).unwrap();
    assert_eq!(attr.ino, 2, "overwrite keeps the inode");
    assert_eq!(attr.size, 11);
    assert_eq!(d.read(2, 0, 100).unwrap(), b"fresh bytes".to_vec());
    assert_eq!(d.table.count(), 2, "no new inode was assigned");
}

#[test]
fn commit_non_2xx_on_absent_path_changes_nothing() {
    let mut d = fresh();
    let name = String::from("missing.txt");
    let resp = Response {
        status: 404,
        body: String::from("not here"),
    };
    let r = d.finish_update(ROOT_INO, &name, Some(resp), 5);
    assert_eq!(r, Err(FsError::NotFound));
    assert_eq!(d.lookup(ROOT_INO, &name), Err(FsError::NotFound));
    assert_eq!(d.table.count(), 2);
    assert_eq!(d.read(2, 0, 100).unwrap(), b"Hello World!\n".to_vec());
}

#[test]
fn commit_non_2xx_on_cached_path_serves_stale_entry() {
    let mut d = fresh();
    let name = String::from("hello.txt");
    let resp = Response {
        status: 500,
        body: String::from("server fell over"),
    };
    let attr = d.finish_update(ROOT_INO, &name, Some(resp), 5).unwrap();
    assert_eq!(attr.ino, 2);
    assert_eq!(attr.size, 13, "stale attributes, not the failed body");
    assert_eq!(d.read(2, 0, 100).unwrap(), b"Hello World!\n".to_vec());
}

#[test]
fn transport_failure_is_io_error_and_mutates_nothing() {
    let mut d = fresh();
    let name = String::from("data.json");
    let r = d.finish_update(ROOT_INO, &name, None, 5);
    assert_eq!(r, Err(FsError::Transport));
    assert_eq!(d.table.count(), 2);
    assert_eq!(d.lookup(ROOT_INO, &name), Err(FsError::NotFound));
}

#[test]
fn commit_under_file_parent_not_found() {
    let mut d = fresh();
    let resp = Response {
        status: 200,
        body: String::from("x"),
    };
    let r = d.finish_update(2, &String::from("a"), Some(resp), 5);
    assert_eq!(r, Err(FsError::NotFound));
    assert_eq!(d.table.count(), 2);
}

#[test]
fn failing_hooks_surface_as_hook_errors() {
    let mut d = Dispatcher::new(RejectingAdapter);
    assert_eq!(
        d.lookup(ROOT_INO, &String::from("hello.txt")),
        Err(FsError::Hook)
    );
    let req = request(HttpVerb::Get, "http://svc/x", "");
    assert_eq!(
        d.begin_update(&String::from("x"), req),
        Err(FsError::Hook)
    );
    let resp = Response {
        status: 200,
        body: String::from("ignored"),
    };
    assert_eq!(
        d.finish_update(ROOT_INO, &String::from("x"), Some(resp), 5),
        Err(FsError::Hook)
    );
    assert_eq!(d.table.count(), 2, "an aborted run never touches the table");
    assert_eq!(d.getattr(2).unwrap().size, 13);
}

#[test]
fn lookups_interleaved_with_a_run_stay_consistent() {
    let mut d = fresh();
    let name = String::from("report.txt");
    let req = request(HttpVerb::Put, "http://svc/report.txt", "");
    let _sent = d.begin_update(&name, req).unwrap();

    // reads of other paths while the exchange is in flight
    assert_eq!(d.lookup(ROOT_INO, &String::from("hello.txt")).unwrap().ino, 2);
    assert_eq!(
        d.lookup(ROOT_INO, &String::from("other.txt")),
        Err(FsError::NotFound)
    );
    assert_eq!(d.table.count(), 2);

    let resp = Response {
        status: 200,
        body: String::from("Q3 numbers"),
    };
    let attr = d.finish_update(ROOT_INO, &name, Some(resp), 7).unwrap();

    // the same reads afterwards answer exactly as before the commit
    assert_eq!(d.lookup(ROOT_INO, &String::from("hello.txt")).unwrap().ino, 2);
    assert_eq!(
        d.lookup(ROOT_INO, &String::from("other.txt")),
        Err(FsError::NotFound)
    );
    // and the committed path is the only change
    assert_eq!(d.lookup(ROOT_INO, &name).unwrap().ino, attr.ino);
    assert_eq!(d.table.count(), 3);
}

#[test]
fn delete_success_removes_entry() {
    let mut d = fresh();
    let name = String::from("data.json");
    let make = Response {
        status: 200,
        body: String::from("payload"),
    };
    let attr = d.finish_update(ROOT_INO, &name, Some(make), 1).unwrap();
    let gone = Response {
        status: 204,
        body: String::new(),
    };
    assert_eq!(d.finish_delete(ROOT_INO, &name, Some(gone)), Ok(true));
    assert_eq!(d.lookup(ROOT_INO, &name), Err(FsError::NotFound));
    assert_eq!(d.getattr(attr.ino), Err(FsError::NotFound));
    assert_eq!(d.table.count(), 3, "the removed number stays retired");
}

#[test]
fn delete_non_2xx_keeps_entry() {
    let mut d = fresh();
    let name = String::from("hello.txt");
    let resp = Response {
        status: 500,
        body: String::new(),
    };
    assert_eq!(d.finish_delete(ROOT_INO, &name, Some(resp)), Ok(false));
    assert_eq!(d.read(2, 0, 100).unwrap(), b"Hello World!\n".to_vec());
}

#[test]
fn delete_absent_or_failed_edges() {
    let mut d = fresh();
    let resp = Response {
        status: 200,
        body: String::new(),
    };
    assert_eq!(
        d.finish_delete(ROOT_INO, &String::from("nope"), Some(resp)),
        Err(FsError::NotFound)
    );
    assert_eq!(
        d.finish_delete(ROOT_INO, &String::from("hello.txt"), None),
        Err(FsError::Transport)
    );
    let mut rejecting = Dispatcher::new(RejectingAdapter);
    let resp = Response {
        status: 200,
        body: String::new(),
    };
    assert_eq!(
        rejecting.finish_delete(ROOT_INO, &String::from("hello.txt"), Some(resp)),
        Err(FsError::Hook)
    );
}

#[test]
fn delete_spares_a_directory_with_children() {
    let mut d = fresh();
    let sub = d
        .table
        .allocate_child(ROOT_INO, String::from("sub"), NodeKind::Directory, 0)
        .unwrap();
    d.table
        .allocate_child(sub, String::from("in.txt"), NodeKind::RegularFile, 0)
        .unwrap();
    let resp = Response {
        status: 200,
        body: String::new(),
    };
    assert_eq!(
        d.finish_delete(ROOT_INO, &String::from("sub"), Some(resp)),
        Ok(false)
    );
    assert_eq!(d.lookup(ROOT_INO, &String::from("sub")).unwrap().ino, sub);
}
