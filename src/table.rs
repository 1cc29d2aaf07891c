//! A small map keyed by byte strings.

use vstd::prelude::*;
use crate::replica_id::bytes_equal;

verus! {

/// Map from byte strings to values, kept as a list of distinct keys.
pub struct ByteTable<V> {
    entries: Vec<(Vec<u8>, V)>,
}

impl<V> ByteTable<V> {
    pub closed spec fn spec_entries(&self) -> Seq<(Seq<u8>, V)> {
        self.entries@.map_values(|e: (Vec<u8>, V)| (e.0@, e.1))
    }

    /// Every key appears once.
    pub closed spec fn wf(&self) -> bool {
        forall|i: int, j: int|
            0 <= i < j < self.spec_entries().len() ==> #[trigger] self.spec_entries()[i].0
                != #[trigger] self.spec_entries()[j].0
    }

    pub closed spec fn has(&self, k: Seq<u8>) -> bool {
        exists|i: int| 0 <= i < self.spec_entries().len() && self.spec_entries()[i].0 == k
    }

    pub closed spec fn index_of(&self, k: Seq<u8>) -> int {
        choose|i: int| 0 <= i < self.spec_entries().len() && self.spec_entries()[i].0 == k
    }

    /// The table as a map.
    pub closed spec fn view(&self) -> Map<Seq<u8>, V> {
        Map::new(|k: Seq<u8>| self.has(k), |k: Seq<u8>| self.spec_entries()[self.index_of(k)].1)
    }

    /// Entry `i` of the list is in the map.
    pub proof fn lemma_at(&self, i: int)
        requires
            self.wf(),
            0 <= i < self.spec_entries().len(),
        ensures
            self.view().contains_key(self.spec_entries()[i].0),
            self.view()[self.spec_entries()[i].0] == self.spec_entries()[i].1,
    {
        let k = self.spec_entries()[i].0;
        assert(self.has(k));
        let c = self.index_of(k);
        assert(c == i);
    }

    pub fn new() -> (r: ByteTable<V>)
        ensures
            r.wf(),
            r.view() == Map::<Seq<u8>, V>::empty(),
    {
        let r = ByteTable { entries: Vec::new() };
        assert(r.view() =~= Map::<Seq<u8>, V>::empty());
        r
    }

    fn find(&self, k: &[u8]) -> (r: Option<usize>)
        requires
            self.wf(),
        ensures
            match r {
                Some(i) => i < self.spec_entries().len() && self.spec_entries()[i as int].0 == k@,
                None => !self.view().contains_key(k@),
            },
    {
        let mut i: usize = 0;
        while i < self.entries.len()
            invariant
                i <= self.entries@.len(),
                forall|j: int| 0 <= j < i ==> self.spec_entries()[j].0 != k@,
            decreases self.entries@.len() - i,
        {
            if bytes_equal(self.entries[i].0.as_slice(), k) {
                return Some(i);
            }
            i = i + 1;
        }
        None
    }

    /// Whether `k` has a value.
    pub fn contains_key(&self, k: &[u8]) -> (r: bool)
        requires
            self.wf(),
        ensures
            r == self.view().contains_key(k@),
    {
        match self.find(k) {
            Some(i) => {
                proof {
                    self.lemma_at(i as int);
                }
                true
            },
            None => false,
        }
    }

    /// The value of `k`, if any.
    pub fn get(&self, k: &[u8]) -> (r: Option<&V>)
        requires
            self.wf(),
        ensures
            match r {
                Some(v) => self.view().contains_key(k@) && self.view()[k@] == *v,
                None => !self.view().contains_key(k@),
            },
    {
        match self.find(k) {
            Some(i) => {
                proof {
                    self.lemma_at(i as int);
                }
                Some(&self.entries[i].1)
            },
            None => None,
        }
    }

    /// Sets the value of `k`, replacing the one it had.
    pub fn insert(&mut self, k: Vec<u8>, v: V)
        requires
            old(self).wf(),
        ensures
            final(self).wf(),
            final(self).view() == old(self).view().insert(k@, v),
    {
        let ghost kv = k@;
        let ghost o = old(self).spec_entries();
        let ghost idx: int;
        match self.find(k.as_slice()) {
            Some(i) => {
                self.entries.set(i, (k, v));
                proof {
                    idx = i as int;
                    assert(self.spec_entries() =~= o.update(i as int, (kv, v)));
                }
            },
            None => {
                self.entries.push((k, v));
                proof {
                    idx = o.len() as int;
                    assert(self.spec_entries() =~= o.push((kv, v)));
                    assert forall|j: int| 0 <= j < o.len() implies o[j].0 != kv by {
                        old(self).lemma_at(j);
                    }
                }
            },
        }
        proof {
            let n = self.spec_entries();
            assert(self.wf());
            self.lemma_at(idx);
            assert forall|key: Seq<u8>| key != kv implies (self.has(key) == old(self).has(key)) && (
            self.has(key) ==> self.view()[key] == old(self).view()[key]) by {
                if old(self).has(key) {
                    let j = old(self).index_of(key);
                    assert(j != idx);
                    assert(n[j] == o[j]);
                    self.lemma_at(j);
                    old(self).lemma_at(j);
                }
                if self.has(key) {
                    let j = self.index_of(key);
                    assert(j != idx);
                    assert(n[j] == o[j]);
                    assert(old(self).has(key));
                }
            }
            assert(self.view() =~= old(self).view().insert(kv, v));
        }
    }

    /// Removes `k` and returns its value, if it had one.
    pub fn remove(&mut self, k: &[u8]) -> (r: Option<V>)
        requires
            old(self).wf(),
        ensures
            final(self).wf(),
            final(self).view() == old(self).view().remove(k@),
            match r {
                Some(v) => old(self).view().contains_key(k@) && old(self).view()[k@] == v,
                None => !old(self).view().contains_key(k@),
            },
    {
        let ghost o = old(self).spec_entries();
        match self.find(k) {
            Some(i) => {
                proof {
                    old(self).lemma_at(i as int);
                }
                let (_, v) = self.entries.remove(i);
                proof {
                    let n = self.spec_entries();
                    assert(n =~= o.remove(i as int));
                    assert(self.wf()) by {
                        assert forall|p: int, q: int| 0 <= p < q < n.len() implies #[trigger] n[p].0
                            != #[trigger] n[q].0 by {
                            let pp = if p < i { p } else { p + 1 };
                            let qq = if q < i { q } else { q + 1 };
                            assert(o[pp].0 != o[qq].0);
                        }
                    }
                    assert forall|key: Seq<u8>| (self.has(key) == (old(self).has(key) && key != k@)) && (
                    self.has(key) ==> self.view()[key] == old(self).view()[key]) by {
                        if old(self).has(key) && key != k@ {
                            let j = old(self).index_of(key);
                            assert(j != i);
                            let jj = if j < i { j } else { j - 1 };
                            assert(n[jj] == o[j]);
                            self.lemma_at(jj);
                            old(self).lemma_at(j);
                        }
                        if self.has(key) {
                            let j = self.index_of(key);
                            let jj = if j < i { j } else { j + 1 };
                            assert(n[j] == o[jj]);
                            assert(jj != i);
                            assert(o[jj].0 != k@);
                            assert(old(self).has(key));
                        }
                    }
                    assert(self.view() =~= old(self).view().remove(k@));
                }
                Some(v)
            },
            None => {
                assert(self.view() =~= old(self).view().remove(k@));
                None
            },
        }
    }

    /// Keys of different entries differ.
    pub proof fn lemma_unique(&self, i: int, j: int)
        requires
            self.wf(),
            0 <= i < self.spec_entries().len(),
            0 <= j < self.spec_entries().len(),
            i != j,
        ensures
            self.spec_entries()[i].0 != self.spec_entries()[j].0,
    {
        if i < j {
            assert(self.spec_entries()[i].0 != self.spec_entries()[j].0);
        } else {
            assert(self.spec_entries()[j].0 != self.spec_entries()[i].0);
        }
    }

    /// Every key of the map is in the list.
    pub proof fn lemma_key_listed(&self, k: Seq<u8>)
        requires
            self.wf(),
            self.view().contains_key(k),
        ensures
            0 <= self.index_of(k) < self.spec_entries().len(),
            self.spec_entries()[self.index_of(k)].0 == k,
    {
    }

    /// Number of keys.
    pub fn entry_count(&self) -> (r: usize)
        ensures
            r == self.spec_entries().len(),
    {
        self.entries.len()
    }

    /// Key and value of entry `i`.
    pub fn entry_at(&self, i: usize) -> (r: (&Vec<u8>, &V))
        requires
            i < self.spec_entries().len(),
        ensures
            r.0@ == self.spec_entries()[i as int].0,
            *r.1 == self.spec_entries()[i as int].1,
    {
        let e = &self.entries[i];
        (&e.0, &e.1)
    }
}

} // verus!
