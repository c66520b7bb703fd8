//! A finite map from names to values, kept as a list of entries with
//! distinct names.

use vstd::prelude::*;

verus! {

/// A map from names to values.
#[derive(Debug)]
pub struct NameMap<V> {
    entries: Vec<(String, V)>,
}

impl<V> NameMap<V> {
    /// No name occurs twice.
    pub closed spec fn wf(&self) -> bool {
        forall|i: int, j: int|
            0 <= i < j < self.entries@.len() ==> #[trigger] self.entries@[i].0@
                != #[trigger] self.entries@[j].0@
    }

    closed spec fn has_key(&self, k: Seq<char>) -> bool {
        exists|i: int| 0 <= i < self.entries@.len() && #[trigger] self.entries@[i].0@ == k
    }

    closed spec fn key_index(&self, k: Seq<char>) -> int {
        choose|i: int| 0 <= i < self.entries@.len() && #[trigger] self.entries@[i].0@ == k
    }

    proof fn lemma_entry(&self, i: int)
        requires
            self.wf(),
            0 <= i < self.entries@.len(),
        ensures
            self@.contains_key(self.entries@[i].0@),
            self@[self.entries@[i].0@] == self.entries@[i].1,
    {
        let k = self.entries@[i].0@;
        assert(self.has_key(k));
        let j = self.key_index(k);
        if i < j {
            assert(self.entries@[i].0@ != self.entries@[j].0@);
        } else if j < i {
            assert(self.entries@[j].0@ != self.entries@[i].0@);
        }
    }

    /// The empty map.
    pub fn new() -> (m: Self)
        ensures
            m.wf(),
            m@ == Map::<Seq<char>, V>::empty(),
    {
        let m = NameMap { entries: Vec::new() };
        assert(m@ =~= Map::<Seq<char>, V>::empty());
        m
    }

    /// Where `k` stands in the entry list, if it is there.
    fn find(&self, k: &String) -> (r: Option<usize>)
        requires
            self.wf(),
        ensures
            match r {
                Some(i) => i < self.entries@.len() && self.entries@[i as int].0@ == k@,
                None => forall|i: int|
                    0 <= i < self.entries@.len() ==> #[trigger] self.entries@[i].0@ != k@,
            },
    {
        let mut i: usize = 0;
        while i < self.entries.len()
            invariant
                i <= self.entries@.len(),
                forall|j: int| 0 <= j < i ==> #[trigger] self.entries@[j].0@ != k@,
            decreases self.entries@.len() - i,
        {
            if self.entries[i].0 == *k {
                return Some(i);
            }
            i = i + 1;
        }
        None
    }

    /// Whether `k` has a value.
    pub fn contains_key(&self, k: &String) -> (r: bool)
        requires
            self.wf(),
        ensures
            r == self@.contains_key(k@),
    {
        match self.find(k) {
            Some(i) => {
                proof {
                    self.lemma_entry(i as int);
                }
                true
            },
            None => false,
        }
    }

    /// The value of `k`, if it has one.
    pub fn get(&self, k: &String) -> (r: Option<&V>)
        requires
            self.wf(),
        ensures
            match r {
                Some(v) => self@.contains_key(k@) && *v == self@[k@],
                None => !self@.contains_key(k@),
            },
    {
        match self.find(k) {
            Some(i) => {
                proof {
                    self.lemma_entry(i as int);
                }
                Some(&self.entries[i].1)
            },
            None => None,
        }
    }

    /// The names that have a value, each once, in the order they were first
    /// given one.
    pub fn names(&self) -> (r: Vec<String>)
        requires
            self.wf(),
        ensures
            forall|i: int| 0 <= i < r@.len() ==> self@.contains_key(#[trigger] r@[i]@),
            forall|k: Seq<char>| #[trigger]
                self@.contains_key(k) ==> exists|i: int| 0 <= i < r@.len() && #[trigger] r@[i]@ == k,
            forall|i: int, j: int| 0 <= i < j < r@.len() ==> #[trigger] r@[i]@ != #[trigger] r@[j]@,
    {
        let mut out: Vec<String> = Vec::new();
        let mut i: usize = 0;
        while i < self.entries.len()
            invariant
                self.wf(),
                i <= self.entries@.len(),
                out@.len() == i,
                forall|j: int| 0 <= j < i ==> #[trigger] out@[j]@ == self.entries@[j].0@,
            decreases self.entries@.len() - i,
        {
            out.push(self.entries[i].0.clone());
            i = i + 1;
        }
        proof {
            assert forall|j: int| 0 <= j < out@.len() implies self@.contains_key(#[trigger] out@[j]@) by {
                self.lemma_entry(j);
            }
            assert forall|k: Seq<char>| #[trigger] self@.contains_key(k) implies exists|j: int|
                0 <= j < out@.len() && #[trigger] out@[j]@ == k by {
                assert(self.has_key(k));
                let j = self.key_index(k);
                assert(out@[j]@ == k);
            }
            assert forall|a: int, b: int| 0 <= a < b < out@.len() implies #[trigger] out@[a]@ != #[trigger] out@[b]@ by {
                assert(self.entries@[a].0@ != self.entries@[b].0@);
            }
        }
        out
    }

    /// Gives `k` the value `v`, replacing any value it had.
    pub fn insert(&mut self, k: String, v: V)
        requires
            old(self).wf(),
        ensures
            final(self).wf(),
            final(self)@ == old(self)@.insert(k@, v),
    {
        let ghost kv = k@;
        match self.find(&k) {
            Some(i) => {
                self.entries.set(i, (k, v));
                proof {
                    assert forall|a: int, b: int|
                        0 <= a < b < self.entries@.len() implies #[trigger] self.entries@[a].0@
                        != #[trigger] self.entries@[b].0@ by {
                        assert(old(self).entries@[a].0@ != old(self).entries@[b].0@);
                    }
                    assert forall|key: Seq<char>| #[trigger] self@.contains_key(key) <==> old(self)@.insert(kv, v).contains_key(key) by {
                        if self@.contains_key(key) {
                            let j = self.key_index(key);
                            if j != i {
                                old(self).lemma_entry(j);
                            }
                        }
                        if old(self)@.contains_key(key) && key != kv {
                            let j = old(self).key_index(key);
                            self.lemma_entry(j);
                        }
                        if key == kv {
                            self.lemma_entry(i as int);
                        }
                    }
                    assert forall|key: Seq<char>| #[trigger] self@.contains_key(key) implies self@[key] == old(self)@.insert(kv, v)[key] by {
                        let j = self.key_index(key);
                        self.lemma_entry(j);
                        if j != i {
                            old(self).lemma_entry(j);
                        }
                    }
                    assert(self@ =~= old(self)@.insert(kv, v));
                }
            },
            None => {
                self.entries.push((k, v));
                proof {
                    let n: int = old(self).entries@.len() as int;
                    assert forall|a: int, b: int|
                        0 <= a < b < self.entries@.len() implies #[trigger] self.entries@[a].0@
                        != #[trigger] self.entries@[b].0@ by {
                        if b < n {
                            assert(old(self).entries@[a].0@ != old(self).entries@[b].0@);
                        } else {
                            assert(old(self).entries@[a].0@ != kv);
                        }
                    }
                    assert forall|key: Seq<char>| #[trigger] self@.contains_key(key) <==> old(self)@.insert(kv, v).contains_key(key) by {
                        if self@.contains_key(key) {
                            let j = self.key_index(key);
                            if j != n {
                                old(self).lemma_entry(j);
                            }
                        }
                        if old(self)@.contains_key(key) && key != kv {
                            let j = old(self).key_index(key);
                            self.lemma_entry(j);
                        }
                        if key == kv {
                            self.lemma_entry(n);
                        }
                    }
                    assert forall|key: Seq<char>| #[trigger] self@.contains_key(key) implies self@[key] == old(self)@.insert(kv, v)[key] by {
                        let j = self.key_index(key);
                        self.lemma_entry(j);
                        if j != n {
                            old(self).lemma_entry(j);
                        }
                    }
                    assert(self@ =~= old(self)@.insert(kv, v));
                }
            },
        }
    }

    /// Takes `k` out of the map, with the value it had.
    pub fn remove(&mut self, k: &String) -> (r: Option<V>)
        requires
            old(self).wf(),
        ensures
            final(self).wf(),
            final(self)@ == old(self)@.remove(k@),
            match r {
                Some(v) => old(self)@.contains_key(k@) && v == old(self)@[k@],
                None => !old(self)@.contains_key(k@),
            },
    {
        match self.find(k) {
            Some(i) => {
                proof {
                    self.lemma_entry(i as int);
                }
                let (_, v) = self.entries.remove(i);
                proof {
                    let o = old(self).entries@;
                    assert forall|a: int, b: int|
                        0 <= a < b < self.entries@.len() implies #[trigger] self.entries@[a].0@
                        != #[trigger] self.entries@[b].0@ by {
                        let oa = if a < i { a } else { a + 1 };
                        let ob = if b < i { b } else { b + 1 };
                        assert(self.entries@[a] == o[oa]);
                        assert(self.entries@[b] == o[ob]);
                        assert(o[oa].0@ != o[ob].0@);
                    }
                    assert forall|key: Seq<char>| #[trigger] self@.contains_key(key) <==> old(self)@.remove(k@).contains_key(key) by {
                        if self@.contains_key(key) {
                            let j = self.key_index(key);
                            let oj = if j < i { j } else { j + 1 };
                            assert(self.entries@[j] == o[oj]);
                            old(self).lemma_entry(oj);
                            if oj != i {
                                assert(o[oj].0@ != o[i as int].0@);
                            }
                        }
                        if old(self)@.contains_key(key) && key != k@ {
                            let j = old(self).key_index(key);
                            assert(j != i);
                            let nj = if j < i { j } else { j - 1 };
                            assert(self.entries@[nj] == o[j]);
                            self.lemma_entry(nj);
                        }
                    }
                    assert forall|key: Seq<char>| #[trigger] self@.contains_key(key) implies self@[key] == old(self)@.remove(k@)[key] by {
                        let j = self.key_index(key);
                        self.lemma_entry(j);
                        let oj = if j < i { j } else { j + 1 };
                        assert(self.entries@[j] == o[oj]);
                        old(self).lemma_entry(oj);
                    }
                    assert(self@ =~= old(self)@.remove(k@));
                }
                Some(v)
            },
            None => {
                proof {
                    assert(self@ =~= old(self)@.remove(k@));
                }
                None
            },
        }
    }
}

impl<V> View for NameMap<V> {
    type V = Map<Seq<char>, V>;

    closed spec fn view(&self) -> Map<Seq<char>, V> {
        Map::new(|k: Seq<char>| self.has_key(k), |k: Seq<char>| self.entries@[self.key_index(k)].1)
    }
}

} // verus!
