use replicache_client::prolly::{compare_keys, Entry, KeyOrder, LoadError, ProllyMap};

fn entry(k: &[u8], v: &[u8]) -> Entry {
    Entry { key: k.to_vec(), val: v.to_vec() }
}

fn keys(m: &ProllyMap) -> Vec<Vec<u8>> {
    m.entries().iter().map(|e| e.key.clone()).collect()
}

#[test]
fn compare_keys_is_lexicographic() {
    assert_eq!(compare_keys(b"", b"a"), KeyOrder::Less);
    assert_eq!(compare_keys(b"a", b""), KeyOrder::Greater);
    assert_eq!(compare_keys(b"ab", b"ab"), KeyOrder::Equal);
    assert_eq!(compare_keys(b"ab", b"abc"), KeyOrder::Less);
    assert_eq!(compare_keys(b"b", b"abc"), KeyOrder::Greater);
    assert_eq!(compare_keys(&[1, 255], &[2, 0]), KeyOrder::Less);
    assert_eq!(compare_keys(&[], &[]), KeyOrder::Equal);
}

#[test]
fn empty_map_has_nothing() {
    let m = ProllyMap::new();
    assert_eq!(m.get(b"a"), None);
    assert!(m.entries().is_empty());
}

#[test]
fn get_after_put_gives_the_value() {
    let mut m = ProllyMap::new();
    m.put(b"k".to_vec(), b"v".to_vec());
    assert_eq!(m.get(b"k"), Some(&b"v"[..]));
    assert_eq!(m.get(b"j"), None);
}

#[test]
fn put_keeps_other_keys() {
    let mut m = ProllyMap::new();
    m.put(b"a".to_vec(), b"1".to_vec());
    m.put(b"b".to_vec(), b"2".to_vec());
    assert_eq!(m.get(b"a"), Some(&b"1"[..]));
    assert_eq!(m.get(b"b"), Some(&b"2"[..]));
}

#[test]
fn last_put_wins() {
    let mut m = ProllyMap::new();
    m.put(b"a".to_vec(), b"1".to_vec());
    m.put(b"a".to_vec(), b"2".to_vec());
    assert_eq!(m.get(b"a"), Some(&b"2"[..]));
    assert_eq!(m.entries().len(), 1);
}

#[test]
fn put_same_value_twice_is_once() {
    let mut once = ProllyMap::new();
    once.put(b"a".to_vec(), b"1".to_vec());
    let mut twice = ProllyMap::new();
    twice.put(b"a".to_vec(), b"1".to_vec());
    twice.put(b"a".to_vec(), b"1".to_vec());
    assert_eq!(keys(&once), keys(&twice));
    assert_eq!(twice.get(b"a"), Some(&b"1"[..]));
}

#[test]
fn puts_to_different_keys_commute() {
    let mut m1 = ProllyMap::new();
    m1.put(b"x".to_vec(), b"1".to_vec());
    m1.put(b"y".to_vec(), b"2".to_vec());
    let mut m2 = ProllyMap::new();
    m2.put(b"y".to_vec(), b"2".to_vec());
    m2.put(b"x".to_vec(), b"1".to_vec());
    assert_eq!(keys(&m1), keys(&m2));
    assert_eq!(m1.get(b"x"), m2.get(b"x"));
    assert_eq!(m1.get(b"y"), m2.get(b"y"));
}

#[test]
fn entries_come_out_in_key_order() {
    let mut m = ProllyMap::new();
    for k in [&b"m"[..], b"a", b"z", b"ab", b"", b"b"] {
        m.put(k.to_vec(), k.to_vec());
    }
    assert_eq!(
        keys(&m),
        vec![b"".to_vec(), b"a".to_vec(), b"ab".to_vec(), b"b".to_vec(), b"m".to_vec(), b"z".to_vec()]
    );
}

#[test]
fn from_entries_accepts_ascending_keys() {
    let m = ProllyMap::from_entries(vec![entry(b"a", b"1"), entry(b"b", b"2"), entry(b"bb", b"3")]).unwrap();
    assert_eq!(m.get(b"b"), Some(&b"2"[..]));
    assert_eq!(m.get(b"bb"), Some(&b"3"[..]));
    assert_eq!(keys(&m), vec![b"a".to_vec(), b"b".to_vec(), b"bb".to_vec()]);
}

#[test]
fn from_entries_accepts_nothing_and_one() {
    assert!(ProllyMap::from_entries(vec![]).unwrap().entries().is_empty());
    let m = ProllyMap::from_entries(vec![entry(b"k", b"v")]).unwrap();
    assert_eq!(m.get(b"k"), Some(&b"v"[..]));
}

#[test]
fn from_entries_refuses_unordered_keys() {
    let r = ProllyMap::from_entries(vec![entry(b"b", b"1"), entry(b"a", b"2")]);
    assert!(matches!(r, Err(LoadError::UnorderedKeys)));
    let r = ProllyMap::from_entries(vec![entry(b"a", b"1"), entry(b"a", b"2")]);
    assert!(matches!(r, Err(LoadError::UnorderedKeys)));
    let r = ProllyMap::from_entries(vec![entry(b"a", b"1"), entry(b"c", b"2"), entry(b"b", b"3")]);
    assert!(matches!(r, Err(LoadError::UnorderedKeys)));
}
