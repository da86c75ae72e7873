use replicache_client::dag;
use replicache_client::db::{CommitError, NewError};
use replicache_client::dispatch::{
    get_reply, has_reply, not_open_reply, parse_failure_reply, put_head, put_reply, unsupported_reply,
    Dispatcher, OpenStep, PutError, Route,
};
use replicache_client::kv::StoreError;
use replicache_client::prolly::LoadError;

fn s(t: &str) -> String {
    t.to_string()
}

fn err(m: &str) -> StoreError {
    StoreError { message: m.to_string() }
}

fn opened(name: &str) -> Dispatcher<u32> {
    let mut d = Dispatcher::new();
    assert!(matches!(d.open_start(&s(name)), OpenStep::Connect));
    assert_eq!(d.open_finish(s(name), Ok(Some(7))), Ok(s("")));
    d
}

#[test]
fn lifecycle_requests_are_routed_whatever_the_state() {
    let d: Dispatcher<u32> = Dispatcher::new();
    assert_eq!(d.route(&s("db"), &s("open")), Route::Open);
    assert_eq!(d.route(&s("db"), &s("close")), Route::Close);
    assert_eq!(d.route(&s("db"), &s("debug")), Route::Debug);
    let d = opened("db");
    assert_eq!(d.route(&s("db"), &s("open")), Route::Open);
    assert_eq!(d.route(&s("db"), &s("close")), Route::Close);
    assert_eq!(d.route(&s("db"), &s("debug")), Route::Debug);
}

#[test]
fn requests_on_a_closed_database_are_not_served() {
    let d: Dispatcher<u32> = Dispatcher::new();
    assert_eq!(d.route(&s("db"), &s("has")), Route::NotOpen);
    assert_eq!(d.route(&s("db"), &s("get")), Route::NotOpen);
    assert_eq!(d.route(&s("db"), &s("put")), Route::NotOpen);
    assert_eq!(d.route(&s("db"), &s("bogus")), Route::NotOpen);
    assert_eq!(not_open_reply(&s("db")), Err(s("\"db\" not open")));
}

#[test]
fn requests_on_an_open_database_are_served() {
    let d = opened("db");
    assert_eq!(d.route(&s("db"), &s("has")), Route::Has);
    assert_eq!(d.route(&s("db"), &s("get")), Route::Get);
    assert_eq!(d.route(&s("db"), &s("put")), Route::Put);
    assert_eq!(d.route(&s("db"), &s("bogus")), Route::Unsupported);
    assert_eq!(d.route(&s("other"), &s("get")), Route::NotOpen);
    assert_eq!(d.store(&s("db")), Some(&7));
    assert_eq!(d.store(&s("other")), None);
    assert_eq!(unsupported_reply(), Err(s("Unsupported rpc name")));
}

#[test]
fn open_refuses_an_empty_name() {
    let d: Dispatcher<u32> = Dispatcher::new();
    match d.open_start(&s("")) {
        OpenStep::Reply(r) => assert_eq!(r, Err(s("db_name must be non-empty"))),
        OpenStep::Connect => panic!("an empty name was accepted"),
    }
}

#[test]
fn opening_an_open_database_does_nothing() {
    let d = opened("db");
    match d.open_start(&s("db")) {
        OpenStep::Reply(r) => assert_eq!(r, Ok(s(""))),
        OpenStep::Connect => panic!("an open database was opened again"),
    }
}

#[test]
fn a_store_that_failed_is_reported() {
    let mut d: Dispatcher<u32> = Dispatcher::new();
    assert_eq!(d.open_finish(s("db"), Err(err("boom"))), Err(s("Failed to open \"db\": boom")));
    assert_eq!(d.route(&s("db"), &s("get")), Route::NotOpen);
}

#[test]
fn no_store_leaves_the_database_closed() {
    let mut d: Dispatcher<u32> = Dispatcher::new();
    assert_eq!(d.open_finish(s("db"), Ok(None)), Ok(s("")));
    assert_eq!(d.route(&s("db"), &s("get")), Route::NotOpen);
}

#[test]
fn close_then_requests_are_not_served() {
    let mut d = opened("db");
    assert_eq!(d.close(&s("db")), Ok(s("")));
    assert_eq!(d.route(&s("db"), &s("get")), Route::NotOpen);
    assert_eq!(d.close(&s("db")), Ok(s("")));
    assert_eq!(d.route(&s("db"), &s("get")), Route::NotOpen);
}

#[test]
fn debug_lists_open_databases() {
    let mut d = opened("a");
    assert_eq!(d.open_finish(s("b"), Ok(Some(8))), Ok(s("")));
    assert_eq!(d.open_finish(s("a"), Ok(Some(9))), Ok(s("")));
    let mut names = d.debug(&s("open_dbs")).unwrap();
    names.sort();
    assert_eq!(names, vec![s("a"), s("b")]);
    assert_eq!(d.store(&s("a")), Some(&9));
    assert!(d.debug(&s("nope")).is_err());
    assert_eq!(d.debug(&s("nope")).unwrap_err(), s("Debug command not defined"));
}

#[test]
fn has_replies() {
    let r = has_reply(Ok(true)).unwrap();
    assert!(r.has);
    assert_eq!(r.value, None);
    let r = has_reply(Ok(false)).unwrap();
    assert!(!r.has);
    assert_eq!(has_reply(Err(err("gone"))).err(), Some(s("gone")));
    assert_eq!(parse_failure_reply(), Err(s("Failed to parse request")));
}

#[test]
fn get_replies() {
    let r = get_reply(Ok(Some("héllo".as_bytes().to_vec()))).unwrap();
    assert!(r.has);
    assert_eq!(r.value, Some(s("héllo")));
    let r = get_reply(Ok(None)).unwrap();
    assert!(!r.has);
    assert_eq!(r.value, None);
    assert_eq!(get_reply(Err(err("gone"))).err(), Some(s("gone")));
}

#[test]
fn get_refuses_a_value_that_is_not_utf8() {
    let r = get_reply(Ok(Some(vec![0x66, 0xff])));
    assert_eq!(r.err(), Some(s("invalid utf-8 sequence of 1 bytes from index 1")));
    let r = get_reply(Ok(Some(vec![0xed, 0xa0, 0x80])));
    assert!(r.is_err());
}

#[test]
fn put_needs_a_head() {
    assert_eq!(put_head(Some(s("h1"))).unwrap(), s("h1"));
    assert!(matches!(put_head(None), Err(PutError::NoHead)));
    assert_eq!(put_reply(), s("{}"));
}

#[test]
fn put_error_conversions() {
    let e = nanoserde::DeJsonErr { msg: s("bad"), line: 1, col: 2 };
    assert!(matches!(PutError::from(e), PutError::InvalidJSON(ref j) if j.msg == "bad"));
    let dag_err = dag::Error::Storage(err("d"));
    assert!(matches!(PutError::from(dag_err), PutError::DagError(_)));
    assert!(matches!(PutError::from(NewError::MapLoad(LoadError::UnorderedKeys)), PutError::WriteError(_)));
    let c = CommitError::Dag(dag::Error::Storage(err("c")));
    assert!(matches!(PutError::from(c), PutError::CommitError(_)));
}

#[test]
fn open_then_close_leaves_nothing_open() {
    let mut d = opened("db");
    assert_eq!(d.close(&s("db")), Ok(s("")));
    assert_eq!(d.debug(&s("open_dbs")), Ok(vec![]));
    assert_eq!(d.store(&s("db")), None);
}
