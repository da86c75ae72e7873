use replicache_client::dag;
use replicache_client::dag::meta::read_meta_refs;
use replicache_client::db::{CommitAction, CommitError, CommitEvent, NewError, Write};
use replicache_client::kv::StoreError;
use replicache_client::prolly::{Entry, FlushError, LoadError, ProllyMap};

fn storage_error(m: &str) -> dag::Error {
    dag::Error::Storage(StoreError { message: m.to_string() })
}

#[test]
fn write_reads_its_basis_map() {
    let map = ProllyMap::from_entries(vec![Entry { key: b"a".to_vec(), val: b"1".to_vec() }]).unwrap();
    let w = Write::new("basis", map);
    assert_eq!(w.get(b"a"), Some(&b"1"[..]));
    assert_eq!(w.get(b"b"), None);
}

#[test]
fn write_reads_its_own_puts() {
    let mut w = Write::new("basis", ProllyMap::new());
    w.put(b"k".to_vec(), b"v1".to_vec());
    assert_eq!(w.get(b"k"), Some(&b"v1"[..]));
    w.put(b"k".to_vec(), b"v2".to_vec());
    assert_eq!(w.get(b"k"), Some(&b"v2"[..]));
    w.put(b"j".to_vec(), b"w".to_vec());
    assert_eq!(w.get(b"k"), Some(&b"v2"[..]));
    assert_eq!(w.map().entries().len(), 2);
}

#[test]
fn commit_records_the_transaction() {
    let mut w = Write::new("basis-hash", ProllyMap::new());
    w.put(b"k".to_vec(), b"v".to_vec());
    let c = w.commit("main", "date", "sum", 12, "foo", b"bar", Some("orig"), "value-hash");
    assert_eq!(c.head_name, "main");
    assert_eq!(c.local_create_date, "date");
    assert_eq!(c.basis_hash, "basis-hash");
    assert_eq!(c.checksum, "sum");
    assert_eq!(c.mutation_id, 12);
    assert_eq!(c.mutator_name, "foo");
    assert_eq!(c.mutator_args_json, b"bar".to_vec());
    assert_eq!(c.original_hash, Some("orig".to_string()));
    assert_eq!(c.value_hash, "value-hash");
    assert_eq!(c.chunk_refs(), vec!["value-hash".to_string()]);
}

#[test]
fn commit_without_original_hash() {
    let w = Write::new("b", ProllyMap::new());
    let c = w.commit("main", "", "", 0, "", b"", None, "h");
    assert_eq!(c.original_hash, None);
    assert_eq!(c.chunk_refs(), vec!["h".to_string()]);
}

#[test]
fn new_error_conversions() {
    assert!(matches!(NewError::from(storage_error("x")), NewError::Dag(dag::Error::Storage(ref e)) if e.message == "x"));
    assert!(matches!(NewError::from(LoadError::UnorderedKeys), NewError::MapLoad(LoadError::UnorderedKeys)));
}

#[test]
fn commit_error_conversions() {
    assert!(matches!(CommitError::from(storage_error("y")), CommitError::Dag(_)));
    assert!(matches!(
        CommitError::from(FlushError::Dag(storage_error("z"))),
        CommitError::Flush(FlushError::Dag(_))
    ));
}

#[test]
fn commit_steps_store_the_chunk_before_the_head() {
    let w = Write::new("basis", ProllyMap::new());
    let c = w.commit("main", "d", "s", 1, "m", b"", None, "map-hash");
    match c.step(CommitEvent::Start) {
        CommitAction::StoreChunk(meta) => {
            assert_eq!(read_meta_refs(&meta), Ok(Some(vec!["map-hash".to_string()])))
        }
        _ => panic!("the chunk is stored first"),
    }
    match c.step(CommitEvent::ChunkStored(Ok("chunk-hash".to_string()))) {
        CommitAction::SetHead(name, hash) => {
            assert_eq!(name, "main");
            assert_eq!(hash, "chunk-hash");
        }
        _ => panic!("the head is set once the chunk is stored"),
    }
    assert!(matches!(
        c.step(CommitEvent::ChunkStored(Err(storage_error("full")))),
        CommitAction::Finish(Err(CommitError::Dag(_)))
    ));
    assert!(matches!(c.step(CommitEvent::HeadSet(Ok(()))), CommitAction::Finish(Ok(()))));
    assert!(matches!(
        c.step(CommitEvent::HeadSet(Err(storage_error("gone")))),
        CommitAction::Finish(Err(CommitError::Dag(_)))
    ));
}
