//! A map keyed by strings that remembers the order in which keys were first
//! inserted, so that every traversal of it is deterministic.

use vstd::prelude::*;
use crate::text::str_eq;

verus! {

/// A string-keyed map; its keys are distinct and kept in first-insertion order.
#[derive(Debug)]
pub struct StrMap<V> {
    entries: Vec<(String, V)>,
}

impl<V> StrMap<V> {
    /// The keys, in first-insertion order.
    pub closed spec fn keys(self) -> Seq<Seq<char>> {
        self.entries@.map_values(|e: (String, V)| e.0@)
    }

    /// The values, aligned with `keys`.
    pub closed spec fn vals(self) -> Seq<V> {
        self.entries@.map_values(|e: (String, V)| e.1)
    }

    #[verifier::type_invariant]
    closed spec fn keys_distinct(self) -> bool {
        forall|i: int, j: int|
            0 <= i < j < self.entries@.len() ==> self.entries@[i].0@ != self.entries@[j].0@
    }

    /// The position of key `k`, if it is present.
    pub open spec fn find(self, k: Seq<char>) -> Option<int> {
        if self.keys().contains(k) {
            Some(choose|i: int| 0 <= i < self.keys().len() && self.keys()[i] == k)
        } else {
            None
        }
    }

    /// The value stored under `k`, if any.
    pub open spec fn lookup(self, k: Seq<char>) -> Option<V> {
        match self.find(k) {
            Some(i) => Some(self.vals()[i]),
            None => None,
        }
    }

    proof fn lemma_distinct(self)
        requires
            self.keys_distinct(),
        ensures
            self.keys().no_duplicates(),
            self.keys().len() == self.vals().len(),
    {
        assert forall|i: int, j: int|
            0 <= i < self.keys().len() && 0 <= j < self.keys().len() && i != j implies self.keys()[i]
            != self.keys()[j] by {
            if i < j {
                assert(self.entries@[i].0@ != self.entries@[j].0@);
            } else {
                assert(self.entries@[j].0@ != self.entries@[i].0@);
            }
        }
    }

    pub proof fn lemma_find(self, i: int)
        requires
            0 <= i < self.keys().len(),
            self.keys().no_duplicates(),
        ensures
            self.find(self.keys()[i]) == Some(i),
            self.lookup(self.keys()[i]) == Some(self.vals()[i]),
    {
        let k = self.keys()[i];
        assert(self.keys().contains(k));
        let j = choose|j: int| 0 <= j < self.keys().len() && self.keys()[j] == k;
        assert(j == i);
    }

    /// An empty map.
    pub fn new() -> (m: Self)
        ensures
            m.keys() == Seq::<Seq<char>>::empty(),
            m.vals() == Seq::<V>::empty(),
    {
        let m = StrMap { entries: Vec::new() };
        assert(m.keys() =~= Seq::<Seq<char>>::empty());
        assert(m.vals() =~= Seq::<V>::empty());
        m
    }

    /// The number of entries.
    pub fn len(&self) -> (n: usize)
        ensures
            n == self.keys().len(),
            n == self.vals().len(),
            self.keys().no_duplicates(),
    {
        proof {
            use_type_invariant(self);
            self.lemma_distinct();
        }
        self.entries.len()
    }

    /// The position of `k`, if it is present.
    pub fn position(&self, k: &str) -> (r: Option<usize>)
        ensures
            r matches Some(i) ==> self.find(k@) == Some(i as int) && i < self.keys().len()
                && self.keys()[i as int] == k@,
            r is None ==> self.find(k@) is None && !self.keys().contains(k@),
            self.keys().len() == self.vals().len(),
            self.keys().no_duplicates(),
    {
        proof {
            use_type_invariant(self);
            self.lemma_distinct();
        }
        let n = self.entries.len();
        let mut i: usize = 0;
        while i < n
            invariant
                n == self.entries@.len(),
                i <= n,
                self.keys().no_duplicates(),
                self.keys().len() == self.vals().len(),
                forall|j: int| 0 <= j < i ==> self.keys()[j] != k@,
            decreases n - i,
        {
            if str_eq(self.entries[i].0.as_str(), k) {
                proof {
                    self.lemma_find(i as int);
                }
                return Some(i);
            }
            i = i + 1;
        }
        assert(!self.keys().contains(k@));
        None
    }

    /// Whether `k` is a key.
    pub fn contains_key(&self, k: &str) -> (r: bool)
        ensures
            r == self.keys().contains(k@),
    {
        self.position(k).is_some()
    }

    /// The value stored under `k`, if any.
    pub fn get(&self, k: &str) -> (r: Option<&V>)
        ensures
            match self.lookup(k@) {
                Some(v) => r == Some(&v),
                None => r is None,
            },
    {
        match self.position(k) {
            Some(i) => {
                proof {
                    use_type_invariant(self);
            self.lemma_distinct();
                    self.lemma_find(i as int);
                }
                Some(&self.entries[i].1)
            },
            None => None,
        }
    }

    /// The key at position `i`.
    pub fn key_at(&self, i: usize) -> (r: &String)
        requires
            i < self.keys().len(),
        ensures
            r@ == self.keys()[i as int],
    {
        &self.entries[i].0
    }

    /// The value at position `i`.
    pub fn value_at(&self, i: usize) -> (r: &V)
        requires
            i < self.keys().len(),
        ensures
            *r == self.vals()[i as int],
    {
        &self.entries[i].1
    }

    /// Stores `v` under `k`. A present key keeps its position and gets the new value,
    /// and the old value is returned; a new key is appended.
    pub fn insert(&mut self, k: String, v: V) -> (r: Option<V>)
        ensures
            match old(self).find(k@) {
                Some(i) => {
                    &&& final(self).keys() == old(self).keys()
                    &&& final(self).vals() == old(self).vals().update(i, v)
                    &&& r == Some(old(self).vals()[i])
                },
                None => {
                    &&& final(self).keys() == old(self).keys().push(k@)
                    &&& final(self).vals() == old(self).vals().push(v)
                    &&& r is None
                },
            },
            forall|x: Seq<char>| #[trigger]
                final(self).keys().contains(x) <==> old(self).keys().contains(x) || x == k@,
            final(self).lookup(k@) == Some(v),
            forall|x: Seq<char>| x != k@ ==> #[trigger] final(self).lookup(x) == old(self).lookup(x),
    {
        proof {
            use_type_invariant(&*self);
            self.lemma_distinct();
        }
        let ghost kv = k@;
        let ghost vv = v;
        let r = self.insert_entry(k, v);
        proof {
            use_type_invariant(&*self);
            self.lemma_distinct();
            let n = self.keys().len();
            let i = choose|i: int| 0 <= i < n && self.keys()[i] == kv;
            self.lemma_find(i);
            assert forall|x: Seq<char>| x != kv implies #[trigger] self.lookup(x) == old(self).lookup(x) by {
                if old(self).keys().contains(x) {
                    let j = choose|j: int| 0 <= j < old(self).keys().len() && old(self).keys()[j] == x;
                    old(self).lemma_find(j);
                    assert(self.keys()[j] == x);
                    self.lemma_find(j);
                } else {
                    assert(!self.keys().contains(x));
                }
            }
        }
        r
    }

    fn insert_entry(&mut self, k: String, v: V) -> (r: Option<V>)
        ensures
            match old(self).find(k@) {
                Some(i) => {
                    &&& final(self).keys() == old(self).keys()
                    &&& final(self).vals() == old(self).vals().update(i, v)
                    &&& r == Some(old(self).vals()[i])
                },
                None => {
                    &&& final(self).keys() == old(self).keys().push(k@)
                    &&& final(self).vals() == old(self).vals().push(v)
                    &&& r is None
                },
            },
            forall|x: Seq<char>| #[trigger]
                final(self).keys().contains(x) <==> old(self).keys().contains(x) || x == k@,
            final(self).keys().contains(k@),
            final(self).vals().len() == final(self).keys().len(),
            forall|i: int| 0 <= i < final(self).keys().len() && final(self).keys()[i] == k@ ==> final(self).vals()[i] == v,
    {
        proof {
            use_type_invariant(&*self);
            self.lemma_distinct();
        }
        match self.position(k.as_str()) {
            Some(i) => {
                let ghost old_entries = self.entries@;
                let mut entries: Vec<(String, V)> = Vec::new();
                std::mem::swap(&mut entries, &mut self.entries);
                let key = entries[i].0.clone();
                let old_v = entries.remove(i);
                entries.insert(i, (key, v));
                assert(entries@ =~= old_entries.update(i as int, (key, v)));
                assert forall|a: int, b: int| 0 <= a < b < entries@.len() implies entries@[a].0@
                    != entries@[b].0@ by {
                    assert(old_entries[a].0@ != old_entries[b].0@);
                }
                self.entries = entries;
                assert(self.keys() =~= old(self).keys());
                assert(self.vals() =~= old(self).vals().update(i as int, v));
                Some(old_v.1)
            },
            None => {
                assert(!old(self).keys().contains(k@));
                assert forall|j: int| 0 <= j < self.entries@.len() implies self.entries@[j].0@
                    != k@ by {
                    assert(self.keys()[j] == self.entries@[j].0@);
                }
                let mut entries: Vec<(String, V)> = Vec::new();
                std::mem::swap(&mut entries, &mut self.entries);
                entries.push((k, v));
                self.entries = entries;
                assert(self.keys() =~= old(self).keys().push(k@));
                assert(self.vals() =~= old(self).vals().push(v));
                assert forall|x: Seq<char>| #[trigger]
                    self.keys().contains(x) <==> old(self).keys().contains(x) || x == k@ by {
                    if self.keys().contains(x) && x != k@ {
                        let j = choose|j: int| 0 <= j < self.keys().len() && self.keys()[j] == x;
                        assert(old(self).keys()[j] == x);
                    }
                    if old(self).keys().contains(x) {
                        let j = choose|j: int| 0 <= j < old(self).keys().len() && old(self).keys()[j] == x;
                        assert(self.keys()[j] == x);
                    }
                    if x == k@ {
                        assert(self.keys()[self.keys().len() - 1] == x);
                    }
                }
                None
            },
        }
    }

    /// Replaces the value at position `i`.
    pub fn set_value_at(&mut self, i: usize, v: V)
        requires
            i < old(self).keys().len(),
        ensures
            final(self).keys() == old(self).keys(),
            final(self).vals() == old(self).vals().update(i as int, v),
    {
        proof {
            use_type_invariant(&*self);
            self.lemma_distinct();
        }
        let ghost old_entries = self.entries@;
        let mut entries: Vec<(String, V)> = Vec::new();
        std::mem::swap(&mut entries, &mut self.entries);
        let key = entries[i].0.clone();
        let _ = entries.remove(i);
        entries.insert(i, (key, v));
        assert(entries@ =~= old_entries.update(i as int, (key, v)));
        assert forall|a: int, b: int| 0 <= a < b < entries@.len() implies entries@[a].0@
            != entries@[b].0@ by {
            assert(old_entries[a].0@ != old_entries[b].0@);
        }
        self.entries = entries;
        assert(self.keys() =~= old(self).keys());
        assert(self.vals() =~= old(self).vals().update(i as int, v));
    }

    /// References to the values, in key order.
    pub fn values(&self) -> (r: Vec<&V>)
        ensures
            r@.len() == self.vals().len(),
            forall|i: int| 0 <= i < r@.len() ==> *r@[i] == self.vals()[i],
    {
        let mut r: Vec<&V> = Vec::new();
        let n = self.entries.len();
        let mut i: usize = 0;
        while i < n
            invariant
                n == self.entries@.len(),
                i <= n,
                r@.len() == i,
                forall|j: int| 0 <= j < i ==> *r@[j] == self.vals()[j],
            decreases n - i,
        {
            r.push(&self.entries[i].1);
            i = i + 1;
        }
        r
    }
}

impl<V: Clone> Clone for StrMap<V> {
    /// A copy with the same keys in the same order; each value is cloned.
    fn clone(&self) -> (r: Self)
        ensures
            r.keys() == self.keys(),
    {
        proof {
            use_type_invariant(self);
        }
        let mut entries: Vec<(String, V)> = Vec::new();
        let n = self.entries.len();
        let mut i: usize = 0;
        while i < n
            invariant
                n == self.entries@.len(),
                i <= n,
                entries@.len() == i,
                forall|j: int| 0 <= j < i ==> (#[trigger] entries@[j]).0@ == self.entries@[j].0@,
                forall|a: int, b: int|
                    0 <= a < b < self.entries@.len() ==> self.entries@[a].0@ != self.entries@[b].0@,
            decreases n - i,
        {
            let k = self.entries[i].0.clone();
            let v = self.entries[i].1.clone();
            entries.push((k, v));
            i = i + 1;
        }
        let r = StrMap { entries };
        assert(r.keys() =~= self.keys());
        r
    }
}

impl StrMap<String> {
    /// A copy with the same entries in the same order.
    pub fn duplicate(&self) -> (r: Self)
        ensures
            r.deep_view() == self.deep_view(),
            r.keys() == self.keys(),
    {
        proof {
            use_type_invariant(self);
        }
        let mut entries: Vec<(String, String)> = Vec::new();
        let n = self.entries.len();
        let mut i: usize = 0;
        while i < n
            invariant
                n == self.entries@.len(),
                i <= n,
                entries@.len() == i,
                forall|j: int| 0 <= j < i ==> (#[trigger] entries@[j]).0@ == self.entries@[j].0@
                    && entries@[j].1@ == self.entries@[j].1@,
                forall|a: int, b: int|
                    0 <= a < b < self.entries@.len() ==> self.entries@[a].0@ != self.entries@[b].0@,
            decreases n - i,
        {
            let k = self.entries[i].0.clone();
            let v = self.entries[i].1.clone();
            entries.push((k, v));
            i = i + 1;
        }
        let r = StrMap { entries };
        assert(r.keys() =~= self.keys());
        assert(r.deep_view() =~= self.deep_view());
        r
    }
}

impl<V: DeepView> DeepView for StrMap<V> {
    type V = Seq<(Seq<char>, V::V)>;

    closed spec fn deep_view(&self) -> Seq<(Seq<char>, V::V)> {
        self.entries@.map_values(|e: (String, V)| (e.0@, e.1.deep_view()))
    }
}

} // verus!
