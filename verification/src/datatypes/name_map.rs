//! A map from names to values that keeps its entries in insertion order.
use vstd::prelude::*;
use crate::text::str_eq;

verus! {

/// Entries keyed by name; each name occurs at most once (see `wf`). Iterating the
/// entries visits names in the order they were first inserted.
#[derive(Debug, PartialEq)]
pub struct NameMap<V> {
    pub entries: Vec<(String, V)>,
}

impl<V> NameMap<V> {
    pub open spec fn len_spec(&self) -> nat {
        self.entries@.len()
    }

    pub open spec fn key_at(&self, i: int) -> Seq<char> {
        self.entries@[i].0@
    }

    pub open spec fn value_at(&self, i: int) -> V {
        self.entries@[i].1
    }

    /// No name occurs twice.
    pub open spec fn wf(&self) -> bool {
        forall|i: int, j: int|
            0 <= i < j < self.entries@.len() ==> #[trigger] self.key_at(i) != #[trigger] self.key_at(j)
    }

    pub open spec fn contains(&self, k: Seq<char>) -> bool {
        exists|i: int| 0 <= i < self.entries@.len() && #[trigger] self.key_at(i) == k
    }

    /// Where `k` stands, when it is present.
    pub open spec fn index_of(&self, k: Seq<char>) -> int {
        choose|i: int| 0 <= i < self.entries@.len() && #[trigger] self.key_at(i) == k
    }

    /// The value stored under `k`.
    pub open spec fn lookup(&self, k: Seq<char>) -> Option<V> {
        if self.contains(k) {
            Some(self.value_at(self.index_of(k)))
        } else {
            None
        }
    }

    /// The names, in insertion order.
    pub open spec fn keys(&self) -> Seq<Seq<char>> {
        self.entries@.map_values(|e: (String, V)| e.0@)
    }

    pub proof fn lemma_lookup_at(&self, i: int)
        requires
            self.wf(),
            0 <= i < self.entries@.len(),
        ensures
            self.lookup(self.key_at(i)) == Some(self.value_at(i)),
            self.index_of(self.key_at(i)) == i,
    {
        let k = self.key_at(i);
        assert(self.contains(k));
        let j = self.index_of(k);
        if j < i {
            assert(self.key_at(j) != self.key_at(i));
        } else if i < j {
            assert(self.key_at(i) != self.key_at(j));
        }
    }

    pub fn new() -> (r: Self)
        ensures
            r.entries@.len() == 0,
            r.wf(),
    {
        NameMap { entries: Vec::new() }
    }

    pub fn len(&self) -> (r: usize)
        ensures
            r == self.entries@.len(),
    {
        self.entries.len()
    }

    /// Position of `k` among the entries.
    pub fn position(&self, k: &str) -> (r: Option<usize>)
        requires
            self.wf(),
        ensures
            r is Some <==> self.contains(k@),
            r matches Some(i) ==> i < self.entries@.len() && self.key_at(i as int) == k@
                && self.index_of(k@) == i,
    {
        let mut i: usize = 0;
        while i < self.entries.len()
            invariant
                i <= self.entries@.len(),
                self.wf(),
                forall|j: int| 0 <= j < i ==> #[trigger] self.key_at(j) != k@,
            decreases self.entries@.len() - i,
        {
            if str_eq(self.entries[i].0.as_str(), k) {
                proof {
                    self.lemma_lookup_at(i as int);
                }
                return Some(i);
            }
            i = i + 1;
        }
        None
    }

    pub fn contains_key(&self, k: &str) -> (r: bool)
        requires
            self.wf(),
        ensures
            r == self.contains(k@),
    {
        self.position(k).is_some()
    }

    /// The value stored under `k`.
    pub fn get(&self, k: &str) -> (r: Option<&V>)
        requires
            self.wf(),
        ensures
            r is Some <==> self.contains(k@),
            r matches Some(v) ==> self.lookup(k@) == Some(*v),
    {
        match self.position(k) {
            Some(i) => {
                proof {
                    self.lemma_lookup_at(i as int);
                }
                Some(&self.entries[i].1)
            },
            None => None,
        }
    }

    /// Replaces the value of the `i`-th entry, keeping its name and place.
    pub fn set_value(&mut self, i: usize, v: V)
        requires
            old(self).wf(),
            i < old(self).entries@.len(),
        ensures
            final(self).wf(),
            final(self).entries@.len() == old(self).entries@.len(),
            final(self).keys() == old(self).keys(),
            forall|j: int| 0 <= j < old(self).entries@.len() ==> #[trigger] final(self).key_at(j) == old(self).key_at(j),
            final(self).value_at(i as int) == v,
            forall|j: int|
                0 <= j < old(self).entries@.len() && j != i ==> #[trigger] final(self).value_at(j) == old(self).value_at(j),
    {
        let ghost old_self = *self;
        self.entries[i].1 = v;
        assert(self.keys() =~= old_self.keys());
        assert forall|a: int, b: int|
            0 <= a < b < self.entries@.len() implies #[trigger] self.key_at(a) != #[trigger] self.key_at(b) by {
            assert(old_self.key_at(a) != old_self.key_at(b));
        }
    }

    /// Two maps with the same names in the same places agree on where each name stands.
    pub proof fn lemma_same_keys(&self, other: &Self)
        requires
            self.wf(),
            self.entries@.len() == other.entries@.len(),
            forall|j: int| 0 <= j < self.entries@.len() ==> #[trigger] self.key_at(j) == other.key_at(j),
        ensures
            other.wf(),
            forall|k: Seq<char>| #[trigger] other.contains(k) == self.contains(k),
            forall|k: Seq<char>| self.contains(k) ==> #[trigger] other.index_of(k) == self.index_of(k),
    {
        assert forall|a: int, b: int|
            0 <= a < b < other.entries@.len() implies #[trigger] other.key_at(a) != #[trigger] other.key_at(b) by {
            assert(self.key_at(a) != self.key_at(b));
        }
        assert forall|k: Seq<char>| #[trigger] other.contains(k) == self.contains(k) by {
            if self.contains(k) {
                let j = self.index_of(k);
                assert(other.key_at(j) == k);
            }
            if other.contains(k) {
                let j = other.index_of(k);
                assert(self.key_at(j) == k);
            }
        }
        assert forall|k: Seq<char>| self.contains(k) implies #[trigger] other.index_of(k) == self.index_of(k) by {
            let j = self.index_of(k);
            self.lemma_lookup_at(j);
            assert(other.key_at(j) == k);
            other.lemma_lookup_at(j);
        }
    }

    /// Stores `v` under `k`: an entry already named `k` keeps its place and takes the new
    /// value, otherwise a new entry goes at the end.
    pub fn insert(&mut self, k: String, v: V)
        requires
            old(self).wf(),
        ensures
            final(self).wf(),
            old(self).contains(k@) ==> {
                &&& final(self).entries@.len() == old(self).entries@.len()
                &&& final(self).keys() == old(self).keys()
            },
            !old(self).contains(k@) ==> final(self).keys() == old(self).keys().push(k@),
            !old(self).contains(k@) ==> final(self).entries@ == old(self).entries@.push((k, v)),
            final(self).lookup(k@) == Some(v),
            forall|k2: Seq<char>| k2 != k@ ==> #[trigger] final(self).lookup(k2) == old(self).lookup(k2),
    {
        let ghost old_self = *self;
        match self.position(k.as_str()) {
            Some(i) => {
                self.entries.set(i, (k, v));
                assert(self.keys() =~= old_self.keys());
                assert forall|a: int, b: int|
                    0 <= a < b < self.entries@.len() implies #[trigger] self.key_at(a) != #[trigger] self.key_at(b) by {
                    assert(old_self.key_at(a) != old_self.key_at(b));
                }
                proof {
                    self.lemma_lookup_at(i as int);
                }
                assert forall|k2: Seq<char>| k2 != k@ implies #[trigger] self.lookup(k2) == old_self.lookup(k2) by {
                    if old_self.contains(k2) {
                        let j = old_self.index_of(k2);
                        old_self.lemma_lookup_at(j);
                        assert(self.key_at(j) == k2);
                        self.lemma_lookup_at(j);
                    } else {
                        if self.contains(k2) {
                            let j = self.index_of(k2);
                            assert(old_self.key_at(j) == k2);
                        }
                    }
                }
            },
            None => {
                let ghost kv = k@;
                self.entries.push((k, v));
                let ghost n = old_self.entries@.len();
                assert(self.keys() =~= old_self.keys().push(kv));
                assert forall|a: int, b: int|
                    0 <= a < b < self.entries@.len() implies #[trigger] self.key_at(a) != #[trigger] self.key_at(b) by {
                    if b < n {
                        assert(old_self.key_at(a) != old_self.key_at(b));
                    } else {
                        assert(old_self.key_at(a) != kv);
                    }
                }
                proof {
                    self.lemma_lookup_at(n as int);
                }
                assert forall|k2: Seq<char>| k2 != kv implies #[trigger] self.lookup(k2) == old_self.lookup(k2) by {
                    if old_self.contains(k2) {
                        let j = old_self.index_of(k2);
                        old_self.lemma_lookup_at(j);
                        assert(self.key_at(j) == k2);
                        self.lemma_lookup_at(j);
                    } else {
                        if self.contains(k2) {
                            let j = self.index_of(k2);
                            assert(j != n);
                            assert(old_self.key_at(j) == k2);
                        }
                    }
                }
            },
        }
    }
}

} // verus!
