//! The open databases: each database name with the store that serves it.

use vstd::prelude::*;

verus! {

/// No name occurs twice in the sequence.
pub open spec fn names_distinct<S>(s: Seq<(String, S)>) -> bool {
    forall|i: int, j: int|
        #![trigger s[i], s[j]]
        0 <= i < j < s.len() ==> s[i].0@ != s[j].0@
}

/// Some pair of the sequence carries the name `n`.
pub open spec fn has_name<S>(s: Seq<(String, S)>, n: Seq<char>) -> bool {
    exists|i: int| 0 <= i < s.len() && (#[trigger] s[i]).0@ == n
}

/// An index at which the name `n` occurs, where it occurs.
pub open spec fn index_of_name<S>(s: Seq<(String, S)>, n: Seq<char>) -> int {
    choose|i: int| 0 <= i < s.len() && (#[trigger] s[i]).0@ == n
}

/// The map from names to stores that a sequence of pairs stands for.
pub open spec fn pairs_map<S>(s: Seq<(String, S)>) -> Map<Seq<char>, S> {
    Map::new(|n: Seq<char>| has_name(s, n), |n: Seq<char>| s[index_of_name(s, n)].1)
}

/// With distinct names, the pair at `i` gives its name's store.
proof fn lemma_pairs_map_at<S>(s: Seq<(String, S)>, i: int)
    requires
        names_distinct(s),
        0 <= i < s.len(),
    ensures
        pairs_map(s).contains_key(s[i].0@),
        pairs_map(s)[s[i].0@] == s[i].1,
{
    let n = s[i].0@;
    assert(has_name(s, n));
    let j = index_of_name(s, n);
    if j < i {
        assert(s[j].0@ != s[i].0@);
    } else if j > i {
        assert(s[i].0@ != s[j].0@);
    }
    assert(pairs_map(s)[n] == s[j].1);
}

/// Appending a pair under a new name adds it to the map.
proof fn lemma_pairs_push<S>(s: Seq<(String, S)>, p: (String, S))
    requires
        names_distinct(s),
        !has_name(s, p.0@),
    ensures
        names_distinct(s.push(p)),
        pairs_map(s.push(p)) == pairs_map(s).insert(p.0@, p.1),
{
    let t = s.push(p);
    assert forall|i: int, j: int| 0 <= i < j < t.len() implies (#[trigger] t[i]).0@ != (
    #[trigger] t[j]).0@ by {
        if j == s.len() {
            assert(s[i] == t[i]);
        }
    }
    let m1 = pairs_map(t);
    let m2 = pairs_map(s).insert(p.0@, p.1);
    assert forall|n: Seq<char>| m1.contains_key(n) <==> m2.contains_key(n) by {
        if has_name(t, n) {
            let j = index_of_name(t, n);
            if j < s.len() {
                assert(s[j] == t[j]);
            }
        }
        if has_name(s, n) {
            let j = index_of_name(s, n);
            assert(t[j] == s[j]);
        }
        if n == p.0@ {
            assert(t[s.len() as int] == p);
        }
    }
    assert forall|n: Seq<char>| #[trigger] m1.contains_key(n) implies m1[n] == m2[n] by {
        let j = index_of_name(t, n);
        lemma_pairs_map_at(t, j);
        if j < s.len() {
            assert(t[j] == s[j]);
            lemma_pairs_map_at(s, j);
        }
    }
    assert(m1 =~= m2);
}

/// Replacing the pair at `i` by one of the same name sets that name's store.
proof fn lemma_pairs_update<S>(s: Seq<(String, S)>, i: int, p: (String, S))
    requires
        names_distinct(s),
        0 <= i < s.len(),
        s[i].0@ == p.0@,
    ensures
        names_distinct(s.update(i, p)),
        pairs_map(s.update(i, p)) == pairs_map(s).insert(p.0@, p.1),
{
    let t = s.update(i, p);
    assert forall|a: int, b: int| 0 <= a < b < t.len() implies (#[trigger] t[a]).0@ != (
    #[trigger] t[b]).0@ by {
        assert(s[a].0@ != s[b].0@);
    }
    let m1 = pairs_map(t);
    let m2 = pairs_map(s).insert(p.0@, p.1);
    assert forall|n: Seq<char>| m1.contains_key(n) <==> m2.contains_key(n) by {
        if has_name(t, n) {
            let j = index_of_name(t, n);
            assert(s[j].0@ == n);
        }
        if has_name(s, n) {
            let j = index_of_name(s, n);
            assert(t[j].0@ == n);
        }
        if n == p.0@ {
            assert(t[i].0@ == n);
        }
    }
    assert forall|n: Seq<char>| #[trigger] m1.contains_key(n) implies m1[n] == m2[n] by {
        let j = index_of_name(t, n);
        lemma_pairs_map_at(t, j);
        if j != i {
            lemma_pairs_map_at(s, j);
            if j < i {
                assert(s[j].0@ != s[i].0@);
            } else {
                assert(s[i].0@ != s[j].0@);
            }
        }
    }
    assert(m1 =~= m2);
}

/// Removing the pair at `i` removes its name from the map.
proof fn lemma_pairs_remove<S>(s: Seq<(String, S)>, i: int)
    requires
        names_distinct(s),
        0 <= i < s.len(),
    ensures
        names_distinct(s.remove(i)),
        pairs_map(s.remove(i)) == pairs_map(s).remove(s[i].0@),
{
    let t = s.remove(i);
    s.remove_ensures(i);
    assert forall|j: int| 0 <= j < t.len() implies #[trigger] t[j] == (if j < i {
        s[j]
    } else {
        s[j + 1]
    }) by {}
    assert forall|a: int, b: int| 0 <= a < b < t.len() implies (#[trigger] t[a]).0@ != (
    #[trigger] t[b]).0@ by {
        if a < i && b >= i {
            assert(s[a].0@ != s[b + 1].0@);
        } else if a >= i {
            assert(s[a + 1].0@ != s[b + 1].0@);
        } else {
            assert(s[a].0@ != s[b].0@);
        }
    }
    let m1 = pairs_map(t);
    let m2 = pairs_map(s).remove(s[i].0@);
    assert forall|n: Seq<char>| m1.contains_key(n) <==> m2.contains_key(n) by {
        if has_name(t, n) {
            let j = index_of_name(t, n);
            if j < i {
                assert(s[j].0@ == n);
                assert(s[j].0@ != s[i].0@);
            } else {
                assert(s[j + 1].0@ == n);
                assert(s[i].0@ != s[j + 1].0@);
            }
        }
        if has_name(s, n) && n != s[i].0@ {
            let j = index_of_name(s, n);
            if j < i {
                assert(t[j].0@ == n);
            } else {
                assert(t[j - 1].0@ == n);
            }
        }
    }
    assert forall|n: Seq<char>| #[trigger] m1.contains_key(n) implies m1[n] == m2[n] by {
        let j = index_of_name(t, n);
        lemma_pairs_map_at(t, j);
        if j < i {
            lemma_pairs_map_at(s, j);
        } else {
            lemma_pairs_map_at(s, j + 1);
        }
    }
    assert(m1 =~= m2);
}

/// Whether two strings hold the same text.
pub fn same_text(a: &String, b: &str) -> (r: bool)
    ensures
        r == (a@ == b@),
{
    let b_owned = b.to_owned();
    *a == b_owned
}

/// The open databases, each name with the store that serves it.
pub struct Connections<S> {
    items: Vec<(String, S)>,
}

impl<S> View for Connections<S> {
    type V = Map<Seq<char>, S>;

    closed spec fn view(&self) -> Map<Seq<char>, S> {
        pairs_map(self.items@)
    }
}

impl<S> Connections<S> {
    #[verifier::type_invariant]
    spec fn names_unique(self) -> bool {
        names_distinct(self.items@)
    }

    /// No database open.
    pub fn new() -> (c: Connections<S>)
        ensures
            c@ == Map::<Seq<char>, S>::empty(),
    {
        let c = Connections { items: Vec::new() };
        assert(c@ =~= Map::<Seq<char>, S>::empty());
        c
    }

    /// The index at which `name` is stored.
    fn position(&self, name: &String) -> (r: Option<usize>)
        ensures
            match r {
                Some(i) => i < self.items@.len() && self.items@[i as int].0@ == name@,
                None => !has_name(self.items@, name@),
            },
    {
        let n: usize = self.items.len();
        let mut i: usize = 0;
        while i < n
            invariant
                n == self.items@.len(),
                i <= n,
                forall|j: int| 0 <= j < i ==> (#[trigger] self.items@[j]).0@ != name@,
            decreases n - i,
        {
            if *name == self.items[i].0 {
                return Some(i);
            }
            i = i + 1;
        }
        None
    }

    /// Whether `name` is open.
    pub fn contains(&self, name: &String) -> (r: bool)
        ensures
            r == self@.contains_key(name@),
    {
        self.position(name).is_some()
    }

    /// The store that serves `name`, if it is open.
    pub fn get(&self, name: &String) -> (r: Option<&S>)
        ensures
            match r {
                Some(s) => self@.contains_key(name@) && *s == self@[name@],
                None => !self@.contains_key(name@),
            },
    {
        proof {
            use_type_invariant(self);
        }
        match self.position(name) {
            Some(i) => {
                proof {
                    lemma_pairs_map_at(self.items@, i as int);
                }
                Some(&self.items[i].1)
            },
            None => None,
        }
    }

    /// Opens `name` with `store`, in place of any store it had.
    pub fn insert(&mut self, name: String, store: S)
        ensures
            final(self)@ == old(self)@.insert(name@, store),
    {
        proof {
            use_type_invariant(&*self);
        }
        let found = self.position(&name);
        let mut items: Vec<(String, S)> = Vec::new();
        std::mem::swap(&mut items, &mut self.items);
        match found {
            Some(i) => {
                proof {
                    lemma_pairs_update(items@, i as int, (name, store));
                }
                items.set(i, (name, store));
            },
            None => {
                proof {
                    lemma_pairs_push(items@, (name, store));
                }
                items.push((name, store));
            },
        }
        self.items = items;
    }

    /// Closes `name`, handing back the store that served it.
    pub fn remove(&mut self, name: &String) -> (r: Option<S>)
        ensures
            final(self)@ == old(self)@.remove(name@),
            match r {
                Some(s) => old(self)@.contains_key(name@) && s == old(self)@[name@],
                None => !old(self)@.contains_key(name@),
            },
    {
        proof {
            use_type_invariant(&*self);
        }
        match self.position(name) {
            Some(i) => {
                let mut items: Vec<(String, S)> = Vec::new();
                std::mem::swap(&mut items, &mut self.items);
                proof {
                    lemma_pairs_remove(items@, i as int);
                    lemma_pairs_map_at(items@, i as int);
                }
                let (_, store) = items.remove(i);
                self.items = items;
                Some(store)
            },
            None => {
                assert(old(self)@.remove(name@) =~= old(self)@);
                None
            },
        }
    }

    /// The names of the open databases, each once.
    pub fn names(&self) -> (r: Vec<String>)
        ensures
            r@.len() == self@.dom().len(),
            forall|i: int| 0 <= i < r@.len() ==> self@.contains_key((#[trigger] r@[i])@),
            forall|n: Seq<char>| self@.contains_key(n) ==> exists|i: int| 0 <= i < r@.len() && (#[trigger] r@[i])@ == n,
            forall|i: int, j: int| 0 <= i < j < r@.len() ==> (#[trigger] r@[i])@ != (#[trigger] r@[j])@,
    {
        proof {
            use_type_invariant(self);
        }
        let n: usize = self.items.len();
        let mut r: Vec<String> = Vec::new();
        let mut i: usize = 0;
        while i < n
            invariant
                n == self.items@.len(),
                names_distinct(self.items@),
                i <= n,
                r@.len() == i,
                forall|j: int| 0 <= j < i ==> (#[trigger] r@[j])@ == self.items@[j].0@,
            decreases n - i,
        {
            r.push(self.items[i].0.clone());
            i = i + 1;
        }
        proof {
            assert forall|j: int| 0 <= j < r@.len() implies self@.contains_key((#[trigger] r@[j])@) by {
                lemma_pairs_map_at(self.items@, j);
            }
            assert forall|x: Seq<char>| self@.contains_key(x) implies exists|j: int| 0 <= j < r@.len() && (#[trigger] r@[j])@ == x by {
                let j = index_of_name(self.items@, x);
                assert(r@[j]@ == x);
            }
            assert forall|a: int, b: int| 0 <= a < b < r@.len() implies (#[trigger] r@[a])@ != (#[trigger] r@[b])@ by {
                assert(self.items@[a].0@ != self.items@[b].0@);
            }
            lemma_names_len(self.items@);
        }
        r
    }
}

/// The map of a sequence with distinct names has one key per pair.
proof fn lemma_names_len<S>(s: Seq<(String, S)>)
    requires
        names_distinct(s),
    ensures
        pairs_map(s).dom().len() == s.len(),
        pairs_map(s).dom().finite(),
    decreases s.len(),
{
    if s.len() == 0 {
        assert(pairs_map(s).dom() =~= Set::<Seq<char>>::empty());
    } else {
        let t = s.drop_last();
        assert(names_distinct(t)) by {
            assert forall|a: int, b: int| 0 <= a < b < t.len() implies (#[trigger] t[a]).0@ != (
            #[trigger] t[b]).0@ by {
                assert(s[a].0@ != s[b].0@);
            }
        }
        lemma_names_len(t);
        assert(!has_name(t, s.last().0@)) by {
            if has_name(t, s.last().0@) {
                let j = index_of_name(t, s.last().0@);
                assert(s[j].0@ != s[s.len() - 1].0@);
            }
        }
        lemma_pairs_push(t, s.last());
        assert(t.push(s.last()) =~= s);
    }
}

} // verus!
