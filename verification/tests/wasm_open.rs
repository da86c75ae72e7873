use replicache_client::connections::Connections;
use replicache_client::kv::StoreError;
use replicache_client::wasm::{
    open_finish, open_plan, scan_check_name, scan_start, scan_store, OpenError, ScanError, StoreChoice,
};

fn s(t: &str) -> String {
    t.to_string()
}

#[test]
fn open_plan_cases() {
    let mut c: Connections<u8> = Connections::new();
    assert!(matches!(open_plan(&c, &s(""), true), Err(OpenError::DbNameMustBeNonEmpty)));
    assert_eq!(open_plan(&c, &s("mem"), true).unwrap(), StoreChoice::Memory);
    assert_eq!(open_plan(&c, &s("mem"), false).unwrap(), StoreChoice::IndexedDb);
    assert_eq!(open_plan(&c, &s("db"), true).unwrap(), StoreChoice::IndexedDb);
    c.insert(s("db"), 1);
    assert_eq!(open_plan(&c, &s("db"), true).unwrap(), StoreChoice::AlreadyOpen);
}

#[test]
fn open_finish_cases() {
    let mut c: Connections<u8> = Connections::new();
    assert!(matches!(
        open_finish(&mut c, s("x"), Err(StoreError { message: s("no") })),
        Err(OpenError::IdbStoreNewError(ref e)) if e.message == "no"
    ));
    assert!(!c.contains(&s("x")));
    assert!(matches!(open_finish(&mut c, s("x"), Ok(None)), Err(OpenError::NoIdbStoreReturned)));
    assert!(!c.contains(&s("x")));
    assert!(open_finish(&mut c, s("x"), Ok(Some(3))).is_ok());
    assert_eq!(c.get(&s("x")), Some(&3));
}

#[test]
fn scan_checks() {
    assert!(matches!(scan_check_name(&s("")), Err(ScanError::DbNameMustBeNonEmpty)));
    assert!(scan_check_name(&s("a")).is_ok());
    let mut c: Connections<u8> = Connections::new();
    assert!(matches!(scan_store(&c, s("a")), Err(ScanError::DbNotOpen(ref n)) if n == "a"));
    c.insert(s("a"), 5);
    assert_eq!(*scan_store(&c, s("a")).unwrap(), 5);
}

#[test]
fn connections_insert_remove() {
    let mut c: Connections<u8> = Connections::new();
    c.insert(s("a"), 1);
    c.insert(s("b"), 2);
    c.insert(s("a"), 3);
    assert_eq!(c.get(&s("a")), Some(&3));
    let mut names = c.names();
    names.sort();
    assert_eq!(names, vec![s("a"), s("b")]);
    assert_eq!(c.remove(&s("a")), Some(3));
    assert_eq!(c.remove(&s("a")), None);
    assert_eq!(c.names(), vec![s("b")]);
}

#[test]
fn scan_start_checks_in_order() {
    let bad = || nanoserde::DeJsonErr { msg: s("bad"), line: 0, col: 0 };
    let mut c: Connections<u8> = Connections::new();
    assert!(matches!(scan_start(&c, s(""), Err::<u8, _>(bad())), Err(ScanError::DbNameMustBeNonEmpty)));
    assert!(matches!(scan_start(&c, s("a"), Err::<u8, _>(bad())), Err(ScanError::InvalidJson(_))));
    assert!(matches!(scan_start(&c, s("a"), Ok::<u8, _>(1)), Err(ScanError::DbNotOpen(ref n)) if n == "a"));
    c.insert(s("a"), 5);
    assert!(matches!(scan_start(&c, s("a"), Ok::<u8, _>(1)), Ok((&5, 1))));
}
