//! The ordered byte map that a write transaction edits.
//!
//! Keys and values are byte strings. Keys are kept in strictly ascending
//! lexicographic order, the order in which the map's leaf is written out.

use vstd::prelude::*;

use crate::dag;

verus! {

/// Strict lexicographic order on byte strings, the order of `[u8]`'s `Ord`:
/// a proper prefix comes before the longer string, and otherwise the first
/// differing byte decides.
pub open spec fn key_lt(a: Seq<u8>, b: Seq<u8>) -> bool
    decreases a.len(),
{
    if b.len() == 0 {
        false
    } else if a.len() == 0 {
        true
    } else if a[0] != b[0] {
        a[0] < b[0]
    } else {
        key_lt(a.drop_first(), b.drop_first())
    }
}

/// No key comes before itself.
pub proof fn lemma_key_lt_irreflexive(a: Seq<u8>)
    ensures
        !key_lt(a, a),
    decreases a.len(),
{
    if a.len() > 0 {
        lemma_key_lt_irreflexive(a.drop_first());
    }
}

/// The key order is transitive.
pub proof fn lemma_key_lt_transitive(a: Seq<u8>, b: Seq<u8>, c: Seq<u8>)
    requires
        key_lt(a, b),
        key_lt(b, c),
    ensures
        key_lt(a, c),
    decreases a.len(),
{
    if a.len() > 0 && a[0] == b[0] && b[0] == c[0] {
        lemma_key_lt_transitive(a.drop_first(), b.drop_first(), c.drop_first());
    }
}

/// Two distinct keys are ordered one way or the other.
pub proof fn lemma_key_lt_total(a: Seq<u8>, b: Seq<u8>)
    requires
        a != b,
    ensures
        key_lt(a, b) || key_lt(b, a),
    decreases a.len(),
{
    if a.len() > 0 && b.len() > 0 && a[0] == b[0] {
        if a.drop_first() == b.drop_first() {
            assert(a =~= seq![a[0]] + a.drop_first());
            assert(b =~= seq![b[0]] + b.drop_first());
        }
        lemma_key_lt_total(a.drop_first(), b.drop_first());
    } else if a.len() == 0 && b.len() == 0 {
        assert(a =~= b);
    }
}

/// Past a common prefix of length `i`, the order is decided by what follows.
proof fn lemma_key_lt_skip(a: Seq<u8>, b: Seq<u8>, i: int)
    requires
        0 <= i <= a.len(),
        i <= b.len(),
        forall|j: int| 0 <= j < i ==> a[j] == b[j],
    ensures
        key_lt(a, b) == key_lt(a.skip(i), b.skip(i)),
    decreases i,
{
    if i == 0 {
        assert(a.skip(0) =~= a);
        assert(b.skip(0) =~= b);
    } else {
        lemma_key_lt_skip(a.drop_first(), b.drop_first(), i - 1);
        assert(a.drop_first().skip(i - 1) =~= a.skip(i));
        assert(b.drop_first().skip(i - 1) =~= b.skip(i));
    }
}

/// Where two keys first differ, the smaller byte (as an unsigned value)
/// makes the smaller key.
pub proof fn law_key_order_first_difference(a: Seq<u8>, b: Seq<u8>, i: int)
    requires
        0 <= i < a.len(),
        i < b.len(),
        forall|j: int| 0 <= j < i ==> a[j] == b[j],
        a[i] != b[i],
    ensures
        key_lt(a, b) <==> (a[i] as int) < (b[i] as int),
        key_lt(b, a) <==> (b[i] as int) < (a[i] as int),
{
    lemma_key_lt_skip(a, b, i);
    lemma_key_lt_skip(b, a, i);
    assert(a.skip(i)[0] == a[i]);
    assert(b.skip(i)[0] == b[i]);
}

/// A proper prefix comes before the longer key.
pub proof fn law_key_order_prefix(a: Seq<u8>, b: Seq<u8>)
    requires
        a.len() < b.len(),
        forall|j: int| 0 <= j < a.len() ==> a[j] == b[j],
    ensures
        key_lt(a, b),
        !key_lt(b, a),
{
    lemma_key_lt_skip(a, b, a.len() as int);
    lemma_key_lt_skip(b, a, a.len() as int);
}

/// The result of comparing two keys.
#[derive(Clone, Copy, Debug, PartialEq, Eq, Structural)]
pub enum KeyOrder {
    Less,
    Equal,
    Greater,
}

/// Compares two keys in lexicographic byte order.
pub fn compare_keys(a: &[u8], b: &[u8]) -> (r: KeyOrder)
    ensures
        (r == KeyOrder::Less) == key_lt(a@, b@),
        (r == KeyOrder::Greater) == key_lt(b@, a@),
        (r == KeyOrder::Equal) == (a@ == b@),
{
    let mut i: usize = 0;
    while i < a.len() && i < b.len()
        invariant
            i <= a@.len(),
            i <= b@.len(),
            forall|j: int| 0 <= j < i ==> a@[j] == b@[j],
        decreases a@.len() - i,
    {
        if a[i] != b[i] {
            proof {
                lemma_key_lt_skip(a@, b@, i as int);
                lemma_key_lt_skip(b@, a@, i as int);
            }
            if a[i] < b[i] {
                return KeyOrder::Less;
            } else {
                return KeyOrder::Greater;
            }
        }
        i = i + 1;
    }
    proof {
        lemma_key_lt_skip(a@, b@, i as int);
        lemma_key_lt_skip(b@, a@, i as int);
    }
    if a.len() < b.len() {
        return KeyOrder::Less;
    } else if b.len() < a.len() {
        return KeyOrder::Greater;
    } else {
        assert(a@ =~= b@);
        proof { lemma_key_lt_irreflexive(a@); }
        return KeyOrder::Equal;
    }
}


/// One key/value pair of the map.
pub struct Entry {
    pub key: Vec<u8>,
    pub val: Vec<u8>,
}

/// Keys strictly ascend along the sequence (so no key occurs twice).
pub open spec fn keys_ascending(s: Seq<Entry>) -> bool {
    forall|i: int, j: int|
        #![trigger s[i], s[j]]
        0 <= i < j < s.len() ==> key_lt(s[i].key@, s[j].key@)
}

/// Some entry of the sequence has key `k`.
pub open spec fn has_key(s: Seq<Entry>, k: Seq<u8>) -> bool {
    exists|i: int| 0 <= i < s.len() && (#[trigger] s[i]).key@ == k
}

/// An index at which key `k` occurs, where it occurs.
pub open spec fn index_of_key(s: Seq<Entry>, k: Seq<u8>) -> int {
    choose|i: int| 0 <= i < s.len() && (#[trigger] s[i]).key@ == k
}

/// The map that a sequence of entries stands for: each key present in the
/// sequence, with the value of an entry that carries it.
pub open spec fn entries_map(s: Seq<Entry>) -> Map<Seq<u8>, Seq<u8>> {
    Map::new(
        |k: Seq<u8>| has_key(s, k),
        |k: Seq<u8>| s[index_of_key(s, k)].val@,
    )
}

/// What a lookup of `k` in `m` answers.
pub open spec fn lookup(m: Map<Seq<u8>, Seq<u8>>, k: Seq<u8>) -> Option<Seq<u8>> {
    if m.contains_key(k) {
        Some(m[k])
    } else {
        None
    }
}

/// The bytes that an optional slice holds.
pub open spec fn opt_bytes(r: Option<&[u8]>) -> Option<Seq<u8>> {
    match r {
        Some(v) => Some(v@),
        None => None,
    }
}

/// In a sequence with ascending keys, the entry at `i` gives its key's value.
pub proof fn lemma_entries_map_at(s: Seq<Entry>, i: int)
    requires
        keys_ascending(s),
        0 <= i < s.len(),
    ensures
        entries_map(s).contains_key(s[i].key@),
        entries_map(s)[s[i].key@] == s[i].val@,
{
    let k = s[i].key@;
    assert(has_key(s, k));
    let j = index_of_key(s, k);
    if j != i {
        lemma_key_lt_irreflexive(k);
        if j < i {
            assert(key_lt(s[j].key@, s[i].key@));
        } else {
            assert(key_lt(s[i].key@, s[j].key@));
        }
    }
    assert(entries_map(s)[k] == s[j].val@);
}

/// Inserting an entry at the position that its key belongs to keeps the keys
/// ascending and adds the pair to the map.
proof fn lemma_insert_entry(s: Seq<Entry>, i: int, e: Entry)
    requires
        keys_ascending(s),
        0 <= i <= s.len(),
        forall|j: int| 0 <= j < i ==> key_lt((#[trigger] s[j]).key@, e.key@),
        forall|j: int| i <= j < s.len() ==> key_lt(e.key@, (#[trigger] s[j]).key@),
    ensures
        keys_ascending(s.insert(i, e)),
        entries_map(s.insert(i, e)) == entries_map(s).insert(e.key@, e.val@),
{
    let t = s.insert(i, e);
    s.insert_ensures(i, e);
    assert forall|j: int| 0 <= j < t.len() implies #[trigger] t[j] == (if j < i {
        s[j]
    } else if j == i {
        e
    } else {
        s[j - 1]
    }) by {
        if j > i {
            assert(t[(j - 1) + 1] == s[j - 1]);
        }
    }
    assert forall|a: int, b: int| 0 <= a < b < t.len() implies key_lt(
        (#[trigger] t[a]).key@,
        (#[trigger] t[b]).key@,
    ) by {
        if a < i && b > i {
            lemma_key_lt_transitive(s[a].key@, e.key@, s[b - 1].key@);
        }
    }
    let m1 = entries_map(t);
    let m2 = entries_map(s).insert(e.key@, e.val@);
    assert forall|k: Seq<u8>| m1.contains_key(k) <==> m2.contains_key(k) by {
        if has_key(t, k) {
            let j = choose|j: int| 0 <= j < t.len() && (#[trigger] t[j]).key@ == k;
            if j < i {
                assert(s[j].key@ == k);
            } else if j > i {
                assert(s[j - 1].key@ == k);
            }
        }
        if has_key(s, k) {
            let j = choose|j: int| 0 <= j < s.len() && (#[trigger] s[j]).key@ == k;
            if j < i {
                assert(t[j].key@ == k);
            } else {
                assert(t[j + 1].key@ == k);
            }
        }
        if k == e.key@ {
            assert(t[i].key@ == k);
        }
    }
    assert forall|k: Seq<u8>| #[trigger] m1.contains_key(k) implies m1[k] == m2[k] by {
        let j = choose|j: int| 0 <= j < t.len() && (#[trigger] t[j]).key@ == k;
        lemma_entries_map_at(t, j);
        if j < i {
            lemma_entries_map_at(s, j);
            lemma_key_lt_irreflexive(k);
        } else if j > i {
            lemma_entries_map_at(s, j - 1);
            lemma_key_lt_irreflexive(k);
        }
    }
    assert(m1 =~= m2);
}

/// Replacing the entry that carries a key keeps the keys ascending and sets
/// the key's value.
proof fn lemma_replace_entry(s: Seq<Entry>, i: int, e: Entry)
    requires
        keys_ascending(s),
        0 <= i < s.len(),
        s[i].key@ == e.key@,
    ensures
        keys_ascending(s.update(i, e)),
        entries_map(s.update(i, e)) == entries_map(s).insert(e.key@, e.val@),
{
    let t = s.update(i, e);
    assert forall|a: int, b: int| 0 <= a < b < t.len() implies key_lt(
        (#[trigger] t[a]).key@,
        (#[trigger] t[b]).key@,
    ) by {
        assert(key_lt(s[a].key@, s[b].key@));
    }
    let m1 = entries_map(t);
    let m2 = entries_map(s).insert(e.key@, e.val@);
    assert forall|k: Seq<u8>| m1.contains_key(k) <==> m2.contains_key(k) by {
        if has_key(t, k) {
            let j = choose|j: int| 0 <= j < t.len() && (#[trigger] t[j]).key@ == k;
            assert(s[j].key@ == k);
        }
        if has_key(s, k) {
            let j = choose|j: int| 0 <= j < s.len() && (#[trigger] s[j]).key@ == k;
            assert(t[j].key@ == k);
        }
        if k == e.key@ {
            assert(t[i].key@ == k);
        }
    }
    assert forall|k: Seq<u8>| #[trigger] m1.contains_key(k) implies m1[k] == m2[k] by {
        let j = choose|j: int| 0 <= j < t.len() && (#[trigger] t[j]).key@ == k;
        lemma_entries_map_at(t, j);
        if j != i {
            lemma_entries_map_at(s, j);
            lemma_key_lt_irreflexive(k);
            if j < i {
                assert(key_lt(s[j].key@, s[i].key@));
            } else {
                assert(key_lt(s[i].key@, s[j].key@));
            }
        }
    }
    assert(m1 =~= m2);
}

/// Binary search for `key`: `Ok` with its index, or `Err` with the index
/// at which it would be inserted.
fn find_in(entries: &Vec<Entry>, key: &[u8]) -> (r: Result<usize, usize>)
    requires
        keys_ascending(entries@),
    ensures
        match r {
            Ok(i) => i < entries@.len() && entries@[i as int].key@ == key@,
            Err(i) => {
                &&& i <= entries@.len()
                &&& forall|j: int|
                    0 <= j < i ==> key_lt((#[trigger] entries@[j]).key@, key@)
                &&& forall|j: int|
                    i <= j < entries@.len() ==> key_lt(
                        key@,
                        (#[trigger] entries@[j]).key@,
                    )
            },
        },
{
    let mut lo: usize = 0;
    let mut hi: usize = entries.len();
    while lo < hi
        invariant
            keys_ascending(entries@),
            lo <= hi <= entries@.len(),
            forall|j: int| 0 <= j < lo ==> key_lt((#[trigger] entries@[j]).key@, key@),
            forall|j: int|
                hi <= j < entries@.len() ==> key_lt(
                    key@,
                    (#[trigger] entries@[j]).key@,
                ),
        decreases hi - lo,
    {
        let mid: usize = lo + (hi - lo) / 2;
        let c = compare_keys(entries[mid].key.as_slice(), key);
        if c == KeyOrder::Equal {
            return Ok(mid);
        } else if c == KeyOrder::Less {
            proof {
                assert forall|j: int| 0 <= j <= mid implies key_lt(
                    (#[trigger] entries@[j]).key@,
                    key@,
                ) by {
                    if j < mid {
                        lemma_key_lt_transitive(
                            entries@[j].key@,
                            entries@[mid as int].key@,
                            key@,
                        );
                    }
                }
            }
            lo = mid + 1;
        } else {
            proof {
                assert forall|j: int| mid <= j < entries@.len() implies key_lt(
                    key@,
                    (#[trigger] entries@[j]).key@,
                ) by {
                    if j > mid {
                        lemma_key_lt_transitive(
                            key@,
                            entries@[mid as int].key@,
                            entries@[j].key@,
                        );
                    }
                }
            }
            hi = mid;
        }
    }
    Err(lo)
}

/// Why a map could not be loaded.
#[derive(Debug)]
pub enum LoadError {
    /// The chunk store failed.
    Dag(dag::Error),
    /// The stored entries are not in strictly ascending key order.
    UnorderedKeys,
}

/// Why a map could not be written out.
#[derive(Debug)]
pub enum FlushError {
    /// The chunk store failed.
    Dag(dag::Error),
}

/// A read gives back what the last write to its key wrote.
pub proof fn law_get_after_put(m: Map<Seq<u8>, Seq<u8>>, k: Seq<u8>, v: Seq<u8>)
    ensures
        lookup(m.insert(k, v), k) == Some(v),
{
}

/// A write to one key leaves every other key as it was.
pub proof fn law_put_keeps_other_keys(
    m: Map<Seq<u8>, Seq<u8>>,
    k: Seq<u8>,
    v: Seq<u8>,
    other: Seq<u8>,
)
    requires
        other != k,
    ensures
        lookup(m.insert(k, v), other) == lookup(m, other),
{
}

/// Of two writes to the same key, the later one wins.
pub proof fn law_last_put_wins(m: Map<Seq<u8>, Seq<u8>>, k: Seq<u8>, v1: Seq<u8>, v2: Seq<u8>)
    ensures
        m.insert(k, v1).insert(k, v2) == m.insert(k, v2),
{
    assert(m.insert(k, v1).insert(k, v2) =~= m.insert(k, v2));
}

/// Writing the same value twice is writing it once.
pub proof fn law_put_idempotent(m: Map<Seq<u8>, Seq<u8>>, k: Seq<u8>, v: Seq<u8>)
    ensures
        m.insert(k, v).insert(k, v) == m.insert(k, v),
{
    assert(m.insert(k, v).insert(k, v) =~= m.insert(k, v));
}

/// Writes to different keys may be done in either order.
pub proof fn law_puts_commute(
    m: Map<Seq<u8>, Seq<u8>>,
    k1: Seq<u8>,
    v1: Seq<u8>,
    k2: Seq<u8>,
    v2: Seq<u8>,
)
    requires
        k1 != k2,
    ensures
        m.insert(k1, v1).insert(k2, v2) == m.insert(k2, v2).insert(k1, v1),
{
    assert(m.insert(k1, v1).insert(k2, v2) =~= m.insert(k2, v2).insert(k1, v1));
}

/// An ordered map from byte-string keys to byte-string values.
pub struct ProllyMap {
    entries: Vec<Entry>,
}

impl View for ProllyMap {
    type V = Map<Seq<u8>, Seq<u8>>;

    closed spec fn view(&self) -> Map<Seq<u8>, Seq<u8>> {
        entries_map(self.entries@)
    }
}

impl ProllyMap {
    #[verifier::type_invariant]
    spec fn keys_in_order(self) -> bool {
        keys_ascending(self.entries@)
    }

    /// The entries of the map, in the order in which they are stored.
    pub closed spec fn entry_seq(&self) -> Seq<Entry> {
        self.entries@
    }

    /// The empty map.
    pub fn new() -> (m: ProllyMap)
        ensures
            m@ == Map::<Seq<u8>, Seq<u8>>::empty(),
            m.entry_seq() == Seq::<Entry>::empty(),
    {
        let m = ProllyMap { entries: Vec::new() };
        assert(m@ =~= Map::<Seq<u8>, Seq<u8>>::empty());
        m
    }

    /// The map that a stored sequence of entries holds; refused unless the
    /// keys strictly ascend.
    pub fn from_entries(entries: Vec<Entry>) -> (r: Result<ProllyMap, LoadError>)
        ensures
            match r {
                Ok(m) => {
                    &&& keys_ascending(entries@)
                    &&& m.entry_seq() == entries@
                    &&& m@ == entries_map(entries@)
                },
                Err(e) => !keys_ascending(entries@) && e is UnorderedKeys,
            },
    {
        let n: usize = entries.len();
        let mut i: usize = 1;
        while i < n
            invariant
                n == entries@.len(),
                1 <= i,
                i <= n || n == 0,
                forall|a: int, b: int|
                    #![trigger entries@[a], entries@[b]]
                    0 <= a < b < i && b < n ==> key_lt(entries@[a].key@, entries@[b].key@),
            decreases n - i,
        {
            let c = compare_keys(entries[i - 1].key.as_slice(), entries[i].key.as_slice());
            if c != KeyOrder::Less {
                proof {
                    assert(!key_lt(entries@[i - 1].key@, entries@[i as int].key@));
                }
                return Err(LoadError::UnorderedKeys);
            }
            proof {
                assert forall|a: int| 0 <= a < i implies key_lt(
                    (#[trigger] entries@[a]).key@,
                    entries@[i as int].key@,
                ) by {
                    if a < i - 1 {
                        lemma_key_lt_transitive(
                            entries@[a].key@,
                            entries@[i - 1].key@,
                            entries@[i as int].key@,
                        );
                    }
                }
            }
            i = i + 1;
        }
        Ok(ProllyMap { entries })
    }

    /// The entries of the map, in ascending key order.
    pub fn entries(&self) -> (r: &[Entry])
        ensures
            r@ == self.entry_seq(),
            keys_ascending(r@),
            entries_map(r@) == self@,
    {
        proof {
            use_type_invariant(self);
        }
        self.entries.as_slice()
    }

    /// The value stored under `key`, if any.
    pub fn get(&self, key: &[u8]) -> (r: Option<&[u8]>)
        ensures
            opt_bytes(r) == lookup(self@, key@),
    {
        proof {
            use_type_invariant(self);
        }
        match find_in(&self.entries, key) {
            Ok(i) => {
                proof {
                    lemma_entries_map_at(self.entries@, i as int);
                }
                Some(self.entries[i].val.as_slice())
            },
            Err(i) => {
                proof {
                    lemma_key_lt_irreflexive(key@);
                    assert forall|j: int| 0 <= j < self.entries@.len() implies (
                    #[trigger] self.entries@[j]).key@ != key@ by {
                        if j < i {
                            assert(key_lt(self.entries@[j].key@, key@));
                        } else {
                            assert(key_lt(key@, self.entries@[j].key@));
                        }
                    }
                }
                None
            },
        }
    }

    /// Stores `val` under `key`, replacing the value that was there.
    pub fn put(&mut self, key: Vec<u8>, val: Vec<u8>)
        ensures
            final(self)@ == old(self)@.insert(key@, val@),
    {
        proof {
            use_type_invariant(&*self);
        }
        let mut entries: Vec<Entry> = Vec::new();
        std::mem::swap(&mut entries, &mut self.entries);
        match find_in(&entries, key.as_slice()) {
            Ok(i) => {
                let e = Entry { key, val };
                proof {
                    lemma_replace_entry(entries@, i as int, e);
                }
                entries.set(i, e);
            },
            Err(i) => {
                let e = Entry { key, val };
                proof {
                    lemma_insert_entry(entries@, i as int, e);
                }
                entries.insert(i, e);
            },
        }
        self.entries = entries;
    }
}

} // verus!
