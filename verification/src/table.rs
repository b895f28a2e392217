//! A table keyed by strings, in insertion order.
//!
//! The table is modelled as a finite map from the keys' character sequences to
//! the values; its entries keep the order in which keys were first inserted.

use vstd::prelude::*;

use crate::text::str_eq;

verus! {

/// A map from strings to values that remembers insertion order.
#[derive(Debug)]
pub struct StringTable<V> {
    entries: Vec<(String, V)>,
}

impl<V> StringTable<V> {
    /// No key occurs twice.
    #[verifier::type_invariant]
    pub closed spec fn wf(&self) -> bool {
        forall|i: int, j: int|
            0 <= i < self.entries@.len() && 0 <= j < self.entries@.len() && i != j
                ==> #[trigger] self.entries@[i].0@ != #[trigger] self.entries@[j].0@
    }

    /// The keys, in insertion order.
    pub closed spec fn keys(&self) -> Seq<Seq<char>> {
        self.entries@.map_values(|e: (String, V)| e.0@)
    }

    /// The values, in the order of their keys.
    pub closed spec fn values(&self) -> Seq<V> {
        self.entries@.map_values(|e: (String, V)| e.1)
    }

    /// The position of key `k`, if present.
    closed spec fn index_of(&self, k: Seq<char>) -> int {
        choose|i: int| 0 <= i < self.entries@.len() && self.entries@[i].0@ == k
    }

    /// The table as a map.
    pub closed spec fn as_map(&self) -> Map<Seq<char>, V> {
        Map::new(
            |k: Seq<char>| exists|i: int| 0 <= i < self.entries@.len() && self.entries@[i].0@ == k,
            |k: Seq<char>| self.entries@[self.index_of(k)].1,
        )
    }

    /// Keys and values line up: the entry at position `i` is key `keys()[i]`
    /// mapped to `values()[i]`, and the map holds exactly these pairs.
    pub proof fn lemma_entries(&self)
        requires
            self.wf(),
        ensures
            self.keys().len() == self.values().len(),
            self.keys().len() == self.as_map().dom().len(),
            forall|i: int|
                0 <= i < self.keys().len() ==> #[trigger] self.as_map().contains_key(self.keys()[i])
                    && self.as_map()[self.keys()[i]] == self.values()[i],
            forall|k: Seq<char>| #[trigger]
                self.as_map().contains_key(k) ==> self.keys().contains(k),
            self.as_map().dom().finite(),
    {
        assert forall|i: int| 0 <= i < self.keys().len() implies #[trigger] self.as_map().contains_key(
            self.keys()[i],
        ) && self.as_map()[self.keys()[i]] == self.values()[i] by {
            assert(self.entries@[i].0@ == self.keys()[i]);
            let j = self.index_of(self.keys()[i]);
            assert(self.entries@[j].0@ == self.keys()[i]);
        }
        assert forall|k: Seq<char>| #[trigger] self.as_map().contains_key(k) implies self.keys().contains(
            k,
        ) by {
            let i = choose|i: int| 0 <= i < self.entries@.len() && self.entries@[i].0@ == k;
            assert(self.keys()[i] == k);
        }
        self.lemma_dom_len();
    }

    proof fn lemma_dom_len(&self)
        requires
            self.wf(),
        ensures
            self.as_map().dom().finite(),
            self.as_map().dom().len() == self.entries@.len(),
    {
        let ks = self.keys();
        assert forall|q: Seq<char>| self.as_map().dom().contains(q) <==> #[trigger] ks.to_set().contains(
            q,
        ) by {
            if self.as_map().dom().contains(q) {
                let i = choose|i: int| 0 <= i < self.entries@.len() && self.entries@[i].0@ == q;
                assert(ks[i] == q);
            }
            if ks.to_set().contains(q) {
                let i = choose|i: int| 0 <= i < ks.len() && ks[i] == q;
                assert(self.entries@[i].0@ == q);
            }
        }
        assert(self.as_map().dom() =~= ks.to_set());
        assert forall|i: int, j: int| 0 <= i < ks.len() && 0 <= j < ks.len() && i != j implies ks[i]
            != ks[j] by {
            assert(ks[i] == self.entries@[i].0@);
            assert(ks[j] == self.entries@[j].0@);
        }
        assert(ks.no_duplicates());
        ks.unique_seq_to_set();
    }

    /// An empty table.
    pub fn new() -> (t: Self)
        ensures
            t.wf(),
            t.as_map() == Map::<Seq<char>, V>::empty(),
            t.keys() == Seq::<Seq<char>>::empty(),
    {
        let t = StringTable { entries: Vec::new() };
        assert(t.as_map() =~= Map::<Seq<char>, V>::empty());
        assert(t.keys() =~= Seq::<Seq<char>>::empty());
        t
    }

    /// The number of keys.
    pub fn len(&self) -> (n: usize)
        ensures
            n == self.as_map().dom().len(),
            n == self.keys().len(),
    {
        proof {
            use_type_invariant(self);
            self.lemma_dom_len();
        }
        self.entries.len()
    }

    /// The position of `key` in the entries, if present.
    fn position(&self, key: &str) -> (r: Option<usize>)
        ensures
            r matches Some(i) ==> i < self.entries@.len() && self.entries@[i as int].0@ == key@,
            r is None ==> !self.as_map().contains_key(key@),
    {
        let mut i: usize = 0;
        while i < self.entries.len()
            invariant
                i <= self.entries@.len(),
                forall|j: int| 0 <= j < i ==> self.entries@[j].0@ != key@,
            decreases self.entries.len() - i,
        {
            if str_eq(self.entries[i].0.as_str(), key) {
                return Some(i);
            }
            i += 1;
        }
        None
    }

    /// The value stored under `key`, if any.
    pub fn get(&self, key: &str) -> (r: Option<&V>)
        ensures
            r matches Some(v) ==> self.as_map().contains_key(key@) && *v == self.as_map()[key@],
            r is None ==> !self.as_map().contains_key(key@),
    {
        proof {
            use_type_invariant(self);
        }
        match self.position(key) {
            Some(i) => {
                let ghost j = self.index_of(key@);
                assert(self.entries@[j].0@ == key@);
                Some(&self.entries[i].1)
            },
            None => None,
        }
    }

    /// Tests whether `key` is present.
    pub fn contains_key(&self, key: &str) -> (r: bool)
        ensures
            r == self.as_map().contains_key(key@),
    {
        self.position(key).is_some()
    }

    /// Stores `value` under `key`, replacing what was there.
    pub fn insert(&mut self, key: String, value: V)
        ensures
            final(self).as_map() == old(self).as_map().insert(key@, value),
            old(self).as_map().contains_key(key@) ==> final(self).keys() == old(self).keys(),
            !old(self).as_map().contains_key(key@) ==> final(self).keys() == old(self).keys().push(
                key@,
            ),
    {
        proof {
            use_type_invariant(&*self);
        }
        let ghost k = key@;
        let ghost old_map = self.as_map();
        let pos = self.position(key.as_str());
        let mut es: Vec<(String, V)> = Vec::new();
        std::mem::swap(&mut es, &mut self.entries);
        match pos {
            Some(i) => {
                let ghost oj = old(self).index_of(k);
                assert(old(self).entries@[oj].0@ == k);
                es.set(i, (key, value));
                assert forall|a: int, b: int|
                    0 <= a < es@.len() && 0 <= b < es@.len() && a != b
                        implies #[trigger] es@[a].0@ != #[trigger] es@[b].0@ by {
                    assert(old(self).entries@[a].0@ != old(self).entries@[b].0@);
                }
                self.entries = es;
                assert(self.as_map() =~= old_map.insert(k, value)) by {
                    assert forall|q: Seq<char>| #[trigger] self.as_map().contains_key(q) implies old_map.insert(
                        k,
                        value,
                    ).contains_key(q) && self.as_map()[q] == old_map.insert(k, value)[q] by {
                        let j = self.index_of(q);
                        assert(self.entries@[j].0@ == q);
                        if q != k {
                            assert(old(self).entries@[j].0@ == q);
                            let oq = old(self).index_of(q);
                            assert(old(self).entries@[oq].0@ == q);
                        }
                    }
                    assert forall|q: Seq<char>| #[trigger] old_map.insert(k, value).contains_key(q) implies self.as_map().contains_key(q) by {
                        if q != k {
                            let oq = old(self).index_of(q);
                            assert(self.entries@[oq].0@ == q);
                        } else {
                            assert(self.entries@[i as int].0@ == q);
                        }
                    }
                }
                assert(self.keys() =~= old(self).keys());
            },
            None => {
                es.push((key, value));
                let ghost n: int = es@.len() - 1;
                assert forall|a: int, b: int|
                    0 <= a < es@.len() && 0 <= b < es@.len() && a != b
                        implies #[trigger] es@[a].0@ != #[trigger] es@[b].0@ by {
                    if a == n {
                        if old(self).entries@[b].0@ == k {
                            assert(old(self).as_map().contains_key(k));
                        }
                    } else if b == n {
                        if old(self).entries@[a].0@ == k {
                            assert(old(self).as_map().contains_key(k));
                        }
                    } else {
                        assert(old(self).entries@[a].0@ != old(self).entries@[b].0@);
                    }
                }
                self.entries = es;
                assert(self.as_map() =~= old_map.insert(k, value)) by {
                    assert forall|q: Seq<char>| #[trigger] self.as_map().contains_key(q) implies old_map.insert(
                        k,
                        value,
                    ).contains_key(q) && self.as_map()[q] == old_map.insert(k, value)[q] by {
                        let j = self.index_of(q);
                        assert(self.entries@[j].0@ == q);
                        if q != k {
                            assert(j != n);
                            assert(old(self).entries@[j].0@ == q);
                            let oq = old(self).index_of(q);
                            assert(old(self).entries@[oq].0@ == q);
                        } else {
                            if j != n {
                                assert(old(self).entries@[j].0@ == k);
                            }
                        }
                    }
                    assert forall|q: Seq<char>| #[trigger] old_map.insert(k, value).contains_key(q) implies self.as_map().contains_key(q) by {
                        if q != k {
                            let oq = old(self).index_of(q);
                            assert(self.entries@[oq].0@ == q);
                        } else {
                            assert(self.entries@[n].0@ == q);
                        }
                    }
                }
                assert(self.keys() =~= old(self).keys().push(k));
            },
        }
    }

    /// Removes `key` and what was stored under it, returning that value.
    pub fn remove(&mut self, key: &str) -> (r: Option<V>)
        ensures
            final(self).as_map() == old(self).as_map().remove(key@),
            r is Some <==> old(self).as_map().contains_key(key@),
            r matches Some(v) ==> v == old(self).as_map()[key@],
    {
        proof {
            use_type_invariant(&*self);
        }
        let ghost k = key@;
        let ghost old_map = self.as_map();
        match self.position(key) {
            Some(i) => {
                let ghost oj = self.index_of(k);
                assert(self.entries@[oj].0@ == k);
                let mut es: Vec<(String, V)> = Vec::new();
                std::mem::swap(&mut es, &mut self.entries);
                let e = es.remove(i);
                assert forall|a: int, b: int|
                    0 <= a < es@.len() && 0 <= b < es@.len() && a != b
                        implies #[trigger] es@[a].0@ != #[trigger] es@[b].0@ by {
                    let oa = if a < i {
                        a
                    } else {
                        a + 1
                    };
                    let ob = if b < i {
                        b
                    } else {
                        b + 1
                    };
                    assert(old(self).entries@[oa].0@ != old(self).entries@[ob].0@);
                }
                self.entries = es;
                assert(self.as_map() =~= old_map.remove(k)) by {
                    assert forall|q: Seq<char>| #[trigger] self.as_map().contains_key(q) implies old_map.remove(
                        k,
                    ).contains_key(q) && self.as_map()[q] == old_map.remove(k)[q] by {
                        let j = self.index_of(q);
                        assert(self.entries@[j].0@ == q);
                        let oj2 = if j < i {
                            j
                        } else {
                            j + 1
                        };
                        assert(old(self).entries@[oj2].0@ == q);
                        assert(oj2 != i);
                        let oq = old(self).index_of(q);
                        assert(old(self).entries@[oq].0@ == q);
                    }
                    assert forall|q: Seq<char>| #[trigger] old_map.remove(k).contains_key(q) implies self.as_map().contains_key(q) by {
                        let oq = old(self).index_of(q);
                        assert(old(self).entries@[oq].0@ == q);
                        assert(oq != i);
                        let nq = if oq < i {
                            oq
                        } else {
                            oq - 1
                        };
                        assert(self.entries@[nq].0@ == q);
                    }
                }
                Some(e.1)
            },
            None => {
                assert(self.as_map() =~= old_map.remove(k));
                None
            },
        }
    }

    /// The values, in the order of their keys.
    pub fn values_slice(&self) -> (r: Vec<&V>)
        ensures
            r@.len() == self.values().len(),
            forall|i: int| 0 <= i < r@.len() ==> *#[trigger] r@[i] == self.values()[i],
    {
        let mut out: Vec<&V> = Vec::new();
        let mut i: usize = 0;
        while i < self.entries.len()
            invariant
                i <= self.entries@.len(),
                out@.len() == i,
                forall|j: int| 0 <= j < i ==> *#[trigger] out@[j] == self.values()[j],
            decreases self.entries.len() - i,
        {
            out.push(&self.entries[i].1);
            i += 1;
        }
        out
    }
}

impl StringTable<String> {
    /// A copy of this table.
    pub fn duplicate(&self) -> (r: Self)
        ensures
            r.as_map() == self.as_map(),
            r.keys() == self.keys(),
            r.values() == self.values(),
    {
        proof {
            use_type_invariant(self);
        }
        let mut es: Vec<(String, String)> = Vec::new();
        let mut i: usize = 0;
        while i < self.entries.len()
            invariant
                i <= self.entries@.len(),
                es@ == self.entries@.take(i as int),
            decreases self.entries.len() - i,
        {
            let k = self.entries[i].0.clone();
            let v = self.entries[i].1.clone();
            es.push((k, v));
            i += 1;
            assert(es@ =~= self.entries@.take(i as int));
        }
        assert(self.entries@.take(self.entries@.len() as int) =~= self.entries@);
        let r = StringTable { entries: es };
        assert(r.as_map() =~= self.as_map());
        assert(r.keys() =~= self.keys());
        assert(r.values() =~= self.values());
        r
    }
}

impl<V: Clone> Clone for StringTable<V> {
    /// A copy with the same keys in the same order; the values are cloned.
    fn clone(&self) -> (r: Self)
        ensures
            r.keys() == self.keys(),
    {
        proof {
            use_type_invariant(self);
        }
        let mut es: Vec<(String, V)> = Vec::new();
        let mut i: usize = 0;
        while i < self.entries.len()
            invariant
                i <= self.entries@.len(),
                es@.len() == i,
                forall|j: int| 0 <= j < i ==> #[trigger] es@[j].0@ == self.entries@[j].0@,
            decreases self.entries.len() - i,
        {
            let k = self.entries[i].0.clone();
            let v = self.entries[i].1.clone();
            es.push((k, v));
            i += 1;
        }
        assert forall|a: int, b: int|
            0 <= a < es@.len() && 0 <= b < es@.len() && a != b
                implies #[trigger] es@[a].0@ != #[trigger] es@[b].0@ by {
            assert(self.entries@[a].0@ != self.entries@[b].0@);
        }
        let r = StringTable { entries: es };
        assert(r.keys() =~= self.keys());
        r
    }
}

} // verus!
