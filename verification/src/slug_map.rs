//! A map keyed by strings (game slugs), kept as a vector of pairs whose keys
//! are all distinct. It stands where a `HashMap<String, _>` would, with its
//! contents stated as a `Map` over the keys' characters: vstd states what a
//! `HashMap` holds only for keys whose hashing it models (integers, `bool`),
//! so with `String` keys not even the length after one insert follows.

use vstd::prelude::*;

verus! {

pub struct SlugMap<V> {
    entries: Vec<(String, V)>,
}

impl<V> SlugMap<V> {
    #[verifier::type_invariant]
    spec fn keys_distinct(self) -> bool {
        forall|i: int, j: int|
            0 <= i < j < self.entries@.len() ==> #[trigger] self.entries@[i].0@
                != #[trigger] self.entries@[j].0@
    }

    /// The position of key `k`.
    spec fn index_of(self, k: Seq<char>) -> int {
        choose|i: int| 0 <= i < self.entries@.len() && self.entries@[i].0@ == k
    }

    spec fn has(self, k: Seq<char>) -> bool {
        exists|i: int| 0 <= i < self.entries@.len() && self.entries@[i].0@ == k
    }

    /// The contents: each key's characters mapped to its value.
    pub closed spec fn view(self) -> Map<Seq<char>, V> {
        Map::new(|k: Seq<char>| self.has(k), |k: Seq<char>| self.entries@[self.index_of(k)].1)
    }

    /// The keys in the order the map holds them.
    pub closed spec fn key_order(self) -> Seq<Seq<char>> {
        self.entries@.map_values(|e: (String, V)| e.0@)
    }

    proof fn lemma_index(self, i: int)
        requires
            self.keys_distinct(),
            0 <= i < self.entries@.len(),
        ensures
            self.has(self.entries@[i].0@),
            self.index_of(self.entries@[i].0@) == i,
    {
        let k = self.entries@[i].0@;
        assert(self.has(k));
        let j = self.index_of(k);
        if j != i {
            if j < i {
                assert(self.entries@[j].0@ != self.entries@[i].0@);
            } else {
                assert(self.entries@[i].0@ != self.entries@[j].0@);
            }
        }
    }

    pub fn new() -> (m: Self)
        ensures
            m.view() == Map::<Seq<char>, V>::empty(),
    {
        let m = SlugMap { entries: Vec::new() };
        assert(m.view() =~= Map::<Seq<char>, V>::empty());
        m
    }

    pub fn len(&self) -> (n: usize)
        ensures
            n == self.view().len(),
            n == self.key_order().len(),
            self.key_order().no_duplicates(),
            self.key_order().to_set() == self.view().dom(),
    {
        proof {
            use_type_invariant(self);
            self.lemma_key_order();
        }
        self.entries.len()
    }

    /// The key order lists each key of the map exactly once.
    proof fn lemma_key_order(self)
        requires
            self.keys_distinct(),
        ensures
            self.key_order().no_duplicates(),
            self.key_order().to_set() == self.view().dom(),
            self.key_order().len() == self.view().len(),
    {
        let ks = self.key_order();
        assert(ks.to_set() =~= self.view().dom()) by {
            assert forall|k: Seq<char>| ks.to_set().contains(k) implies self.has(k) by {
                let i = choose|i: int| 0 <= i < ks.len() && ks[i] == k;
                assert(self.entries@[i].0@ == k);
            }
            assert forall|k: Seq<char>| self.has(k) implies ks.to_set().contains(k) by {
                let i = choose|i: int| 0 <= i < self.entries@.len() && self.entries@[i].0@ == k;
                assert(ks[i] == k);
            }
        };
        assert(ks.no_duplicates()) by {
            assert forall|i: int, j: int| 0 <= i < ks.len() && 0 <= j < ks.len() && i != j implies ks[i]
                != ks[j] by {
                if i < j {
                    assert(self.entries@[i].0@ != self.entries@[j].0@);
                } else {
                    assert(self.entries@[j].0@ != self.entries@[i].0@);
                }
            }
        };
        ks.unique_seq_to_set();
    }

    fn find(&self, k: &str) -> (r: Option<usize>)
        ensures
            match r {
                Some(i) => i < self.entries@.len() && self.entries@[i as int].0@ == k@,
                None => !self.has(k@),
            },
    {
        let mut i: usize = 0;
        while i < self.entries.len()
            invariant
                i <= self.entries@.len(),
                forall|j: int| 0 <= j < i ==> self.entries@[j].0@ != k@,
            decreases self.entries.len() - i,
        {
            if crate::text::str_eq(self.entries[i].0.as_str(), k) {
                return Some(i);
            }
            i += 1;
        }
        None
    }

    pub fn contains_key(&self, k: &str) -> (b: bool)
        ensures
            b == self.view().dom().contains(k@),
    {
        self.find(k).is_some()
    }

    pub fn get(&self, k: &str) -> (r: Option<&V>)
        ensures
            match r {
                Some(v) => self.view().dom().contains(k@) && *v == self.view()[k@],
                None => !self.view().dom().contains(k@),
            },
    {
        proof {
            use_type_invariant(self);
        }
        match self.find(k) {
            Some(i) => {
                proof {
                    self.lemma_index(i as int);
                }
                Some(&self.entries[i].1)
            },
            None => None,
        }
    }

    /// Sets the value of `k`, replacing any value it had.
    pub fn insert(&mut self, k: String, v: V)
        ensures
            final(self).view() == old(self).view().insert(k@, v),
            final(self).key_order() == if old(self).view().dom().contains(k@) {
                old(self).key_order()
            } else {
                old(self).key_order().push(k@)
            },
    {
        proof {
            use_type_invariant(&*self);
        }
        let ghost old_self = *self;
        match self.find(k.as_str()) {
            Some(i) => {
                proof {
                    old_self.lemma_index(i as int);
                }
                let ghost kv = k@;
                let mut entries = Vec::new();
                std::mem::swap(&mut entries, &mut self.entries);
                entries.set(i, (k, v));
                self.entries = entries;
                proof {
                    assert forall|j: int| 0 <= j < self.entries@.len() implies #[trigger] self.entries@[j].0@
                        == old_self.entries@[j].0@ by {}
                    assert(self.key_order() =~= old_self.key_order());
                    assert(old_self.has(kv));
                    assert(self.view() =~= old_self.view().insert(kv, v)) by {
                        assert forall|key: Seq<char>| #![auto]
                            self.view().dom().contains(key) implies self.view()[key]
                            == old_self.view().insert(kv, v)[key] by {
                            let j = self.index_of(key);
                            self.lemma_index(j);
                            if key != kv {
                                old_self.lemma_index(j);
                            }
                        }
                        assert forall|key: Seq<char>|
                            old_self.view().insert(kv, v).dom().contains(key) implies self.has(key) by {
                            if key != kv {
                                let j = old_self.index_of(key);
                                assert(self.entries@[j].0@ == key);
                            } else {
                                assert(self.entries@[i as int].0@ == key);
                            }
                        }
                    };
                }
            },
            None => {
                let ghost kv = k@;
                let mut entries = Vec::new();
                std::mem::swap(&mut entries, &mut self.entries);
                entries.push((k, v));
                self.entries = entries;
                proof {
                    let n = old_self.entries@.len() as int;
                    assert(self.entries@[n].0@ == kv);
                    assert(self.key_order() =~= old_self.key_order().push(kv));
                    assert(self.view() =~= old_self.view().insert(kv, v)) by {
                        assert forall|key: Seq<char>| #![auto]
                            self.view().dom().contains(key) implies self.view()[key]
                            == old_self.view().insert(kv, v)[key] by {
                            let j = self.index_of(key);
                            self.lemma_index(j);
                            if key != kv {
                                assert(j < n);
                                old_self.lemma_index(j);
                            } else {
                                self.lemma_index(n);
                            }
                        }
                        assert forall|key: Seq<char>|
                            old_self.view().insert(kv, v).dom().contains(key) implies self.has(key) by {
                            if key != kv {
                                let j = old_self.index_of(key);
                                assert(self.entries@[j].0@ == key);
                            } else {
                                assert(self.entries@[n].0@ == key);
                            }
                        }
                    };
                }
            },
        }
    }

    /// Removes `k`, handing back the value it had.
    pub fn remove(&mut self, k: &str) -> (r: Option<V>)
        ensures
            final(self).view() == old(self).view().remove(k@),
            old(self).view().dom().contains(k@) ==> exists|i: int|
                0 <= i < old(self).key_order().len() && old(self).key_order()[i] == k@
                    && final(self).key_order() == old(self).key_order().remove(i),
            !old(self).view().dom().contains(k@) ==> final(self).key_order() == old(self).key_order(),
            match r {
                Some(v) => old(self).view().dom().contains(k@) && v == old(self).view()[k@],
                None => !old(self).view().dom().contains(k@),
            },
    {
        proof {
            use_type_invariant(&*self);
        }
        let ghost old_self = *self;
        match self.find(k) {
            Some(i) => {
                proof {
                    old_self.lemma_index(i as int);
                }
                let mut entries = Vec::new();
                std::mem::swap(&mut entries, &mut self.entries);
                let (_, v) = entries.remove(i);
                self.entries = entries;
                proof {
                    let oe = old_self.entries@;
                    assert forall|j: int| 0 <= j < self.entries@.len() implies #[trigger] self.entries@[j]
                        == if j < i {
                        oe[j]
                    } else {
                        oe[j + 1]
                    } by {}
                    assert(self.key_order() =~= old_self.key_order().remove(i as int));
                    assert(old_self.key_order()[i as int] == k@);
                    assert(self.view() =~= old_self.view().remove(k@)) by {
                        assert forall|key: Seq<char>| #![auto]
                            self.view().dom().contains(key) implies old_self.view().remove(k@).dom().contains(key)
                            && self.view()[key] == old_self.view()[key] by {
                            let j = self.index_of(key);
                            self.lemma_index(j);
                            let oj = if j < i {
                                j
                            } else {
                                j + 1
                            };
                            old_self.lemma_index(oj);
                            if key == k@ {
                                if oj < i {
                                    assert(oe[oj].0@ != oe[i as int].0@);
                                } else {
                                    assert(oe[i as int].0@ != oe[oj].0@);
                                }
                            }
                        }
                        assert forall|key: Seq<char>|
                            old_self.view().remove(k@).dom().contains(key) implies self.has(key) by {
                            let oj = old_self.index_of(key);
                            if oj < i {
                                assert(self.entries@[oj].0@ == key);
                            } else {
                                assert(oj != i);
                                assert(self.entries@[oj - 1].0@ == key);
                            }
                        }
                    };
                }
                Some(v)
            },
            None => {
                assert(old_self.view().remove(k@) =~= old_self.view());
                None
            },
        }
    }

    /// The key and value at position `i` of the key order.
    pub fn entry_at(&self, i: usize) -> (r: (&String, &V))
        requires
            i < self.key_order().len(),
        ensures
            r.0@ == self.key_order()[i as int],
            self.view().dom().contains(r.0@),
            *r.1 == self.view()[r.0@],
    {
        proof {
            use_type_invariant(self);
            self.lemma_index(i as int);
        }
        let e = &self.entries[i];
        (&e.0, &e.1)
    }
}

} // verus!
