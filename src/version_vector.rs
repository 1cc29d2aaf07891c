//! Version vectors: one counter per writer, ordered pointwise.

use vstd::prelude::*;
use vstd::slice::slice_to_vec;
use crate::table::ByteTable;

verus! {

/// How two version vectors relate.
#[derive(Clone, Copy, Debug, PartialEq, Eq, Structural)]
pub enum VvOrder {
    Less,
    Equal,
    Greater,
    /// Neither is below the other.
    Concurrent,
}

/// A counter per writer id; a writer that is not listed has counter 0.
pub struct VersionVector {
    counters: ByteTable<u64>,
}

/// `a ≤ b`: every counter of `a` is at most the same counter of `b`.
pub open spec fn vv_le(a: VersionVector, b: VersionVector) -> bool {
    forall|w: Seq<u8>| #[trigger] a.spec_get(w) <= b.spec_get(w)
}

/// `a` and `b` have the same counters.
pub open spec fn vv_eq(a: VersionVector, b: VersionVector) -> bool {
    forall|w: Seq<u8>| #[trigger] a.spec_get(w) == b.spec_get(w)
}

/// `a < b`: `a ≤ b` and some counter of `b` is higher.
pub open spec fn vv_lt(a: VersionVector, b: VersionVector) -> bool {
    vv_le(a, b) && !vv_le(b, a)
}

/// How `a` relates to `b`.
pub open spec fn vv_order(a: VersionVector, b: VersionVector) -> VvOrder {
    if vv_le(a, b) && vv_le(b, a) {
        VvOrder::Equal
    } else if vv_le(a, b) {
        VvOrder::Less
    } else if vv_le(b, a) {
        VvOrder::Greater
    } else {
        VvOrder::Concurrent
    }
}

impl VersionVector {
    pub closed spec fn wf(&self) -> bool {
        self.counters.wf()
    }

    /// Counter of writer `w`.
    pub closed spec fn spec_get(&self, w: Seq<u8>) -> u64 {
        if self.counters.view().contains_key(w) {
            self.counters.view()[w]
        } else {
            0
        }
    }

    /// All counters 0.
    pub fn new() -> (r: VersionVector)
        ensures
            r.wf(),
            forall|w: Seq<u8>| #[trigger] r.spec_get(w) == 0,
    {
        VersionVector { counters: ByteTable::new() }
    }

    /// Counter of writer `w`.
    pub fn get(&self, w: &[u8]) -> (r: u64)
        requires
            self.wf(),
        ensures
            r == self.spec_get(w@),
    {
        match self.counters.get(w) {
            Some(v) => *v,
            None => 0,
        }
    }

    /// Sets the counter of `w` to `value`.
    fn set(&mut self, w: &[u8], value: u64)
        requires
            old(self).wf(),
        ensures
            final(self).wf(),
            final(self).spec_get(w@) == value,
            forall|x: Seq<u8>| x != w@ ==> #[trigger] final(self).spec_get(x) == old(self).spec_get(x),
    {
        let key = slice_to_vec(w);
        self.counters.insert(key, value);
    }

    /// Adds one to the counter of `w`.
    pub fn increment(&mut self, w: &[u8])
        requires
            old(self).wf(),
            old(self).spec_get(w@) < u64::MAX,
        ensures
            final(self).wf(),
            final(self).spec_get(w@) == old(self).spec_get(w@) + 1,
            forall|x: Seq<u8>| x != w@ ==> #[trigger] final(self).spec_get(x) == old(self).spec_get(x),
    {
        let v = self.get(w);
        self.set(w, v + 1);
    }

    /// Raises every counter to the one of `other` where that is higher.
    pub fn merge(&mut self, other: &VersionVector)
        requires
            old(self).wf(),
            other.wf(),
        ensures
            final(self).wf(),
            forall|w: Seq<u8>| #[trigger] final(self).spec_get(w) == if old(self).spec_get(w)
                >= other.spec_get(w) {
                old(self).spec_get(w)
            } else {
                other.spec_get(w)
            },
    {
        let n = other.counters.entry_count();
        let mut i: usize = 0;
        while i < n
            invariant
                self.wf(),
                other.wf(),
                i <= n,
                n == other.counters.spec_entries().len(),
                forall|w: Seq<u8>| #[trigger] self.spec_get(w) >= old(self).spec_get(w),
                forall|w: Seq<u8>| #[trigger] self.spec_get(w) == old(self).spec_get(w)
                    || self.spec_get(w) == other.spec_get(w),
                forall|w: Seq<u8>| #[trigger] self.spec_get(w) <= old(self).spec_get(w)
                    || self.spec_get(w) <= other.spec_get(w),
                forall|j: int| 0 <= j < i ==> self.spec_get(other.counters.spec_entries()[j].0)
                    >= #[trigger] other.counters.spec_entries()[j].1,
            decreases n - i,
        {
            let (k, v) = other.counters.entry_at(i);
            proof {
                other.counters.lemma_at(i as int);
            }
            let current = self.get(k.as_slice());
            if *v > current {
                self.set(k.as_slice(), *v);
            }
            i = i + 1;
        }
        proof {
            assert forall|w: Seq<u8>| #[trigger] self.spec_get(w) >= other.spec_get(w) by {
                if other.counters.view().contains_key(w) {
                    other.counters.lemma_key_listed(w);
                    let j = other.counters.index_of(w);
                    other.counters.lemma_at(j);
                    assert(self.spec_get(other.counters.spec_entries()[j].0)
                        >= other.counters.spec_entries()[j].1);
                }
            }
        }
    }

    /// A vector with the same counters.
    pub fn duplicate(&self) -> (r: VersionVector)
        requires
            self.wf(),
        ensures
            r.wf(),
            vv_eq(r, *self),
    {
        let mut r = VersionVector::new();
        r.merge(self);
        r
    }

    /// `self` with the counters of `other` merged in and the counter of `w` then
    /// incremented.
    pub fn merged_incremented(&self, other: &VersionVector, w: &[u8]) -> (r: VersionVector)
        requires
            self.wf(),
            other.wf(),
            self.spec_get(w@) < u64::MAX,
            other.spec_get(w@) < u64::MAX,
        ensures
            r.wf(),
            forall|x: Seq<u8>| #[trigger] r.spec_get(x) == (if self.spec_get(x) >= other.spec_get(x) {
                self.spec_get(x)
            } else {
                other.spec_get(x)
            }) + (if x == w@ {
                1int
            } else {
                0int
            }),
    {
        let mut r = self.duplicate();
        r.merge(other);
        r.increment(w);
        r
    }

    /// Whether every counter is at most the same counter of `other`.
    pub fn le(&self, other: &VersionVector) -> (r: bool)
        requires
            self.wf(),
            other.wf(),
        ensures
            r == vv_le(*self, *other),
    {
        let n = self.counters.entry_count();
        let mut i: usize = 0;
        while i < n
            invariant
                self.wf(),
                other.wf(),
                i <= n,
                n == self.counters.spec_entries().len(),
                forall|j: int| 0 <= j < i ==> #[trigger] self.counters.spec_entries()[j].1
                    <= other.spec_get(self.counters.spec_entries()[j].0),
            decreases n - i,
        {
            let (k, v) = self.counters.entry_at(i);
            proof {
                self.counters.lemma_at(i as int);
            }
            if *v > other.get(k.as_slice()) {
                assert(self.spec_get(k@) > other.spec_get(k@));
                return false;
            }
            i = i + 1;
        }
        proof {
            assert forall|w: Seq<u8>| #[trigger] self.spec_get(w) <= other.spec_get(w) by {
                if self.counters.view().contains_key(w) {
                    self.counters.lemma_key_listed(w);
                    let j = self.counters.index_of(w);
                    self.counters.lemma_at(j);
                    assert(self.counters.spec_entries()[j].1 <= other.spec_get(
                        self.counters.spec_entries()[j].0,
                    ));
                }
            }
        }
        true
    }

    /// How `self` relates to `other`.
    pub fn compare(&self, other: &VersionVector) -> (r: VvOrder)
        requires
            self.wf(),
            other.wf(),
        ensures
            r == vv_order(*self, *other),
    {
        let le = self.le(other);
        let ge = other.le(self);
        if le && ge {
            VvOrder::Equal
        } else if le {
            VvOrder::Less
        } else if ge {
            VvOrder::Greater
        } else {
            VvOrder::Concurrent
        }
    }
}

/// Merging and then incrementing the counter of `w` gives a vector strictly above both
/// merged ones.
pub proof fn lemma_merged_incremented_exceeds(a: VersionVector, b: VersionVector, r: VersionVector, w: Seq<u8>)
    requires
        forall|x: Seq<u8>| #[trigger] r.spec_get(x) == (if a.spec_get(x) >= b.spec_get(x) {
            a.spec_get(x)
        } else {
            b.spec_get(x)
        }) + (if x == w {
            1int
        } else {
            0int
        }),
    ensures
        vv_lt(a, r),
        vv_lt(b, r),
{
    assert(r.spec_get(w) > a.spec_get(w));
    assert(r.spec_get(w) > b.spec_get(w));
}

} // verus!
