//! Identifiers made of random bytes.

use vstd::prelude::*;

verus! {

/// Size of a replica id in bytes.
pub const REPLICA_ID_SIZE: usize = 16;

/// Whether `a` and `b` hold the same bytes.
pub fn bytes_equal(a: &[u8], b: &[u8]) -> (r: bool)
    ensures
        r == (a@ == b@),
{
    if a.len() != b.len() {
        return false;
    }
    let mut i: usize = 0;
    while i < a.len()
        invariant
            a@.len() == b@.len(),
            i <= a@.len(),
            a@.subrange(0, i as int) == b@.subrange(0, i as int),
        decreases a@.len() - i,
    {
        if a[i] != b[i] {
            assert(a@[i as int] != b@[i as int]);
            return false;
        }
        i = i + 1;
        assert(a@.subrange(0, i as int) =~= a@.subrange(0, i - 1).push(a@[i - 1]));
        assert(b@.subrange(0, i as int) =~= b@.subrange(0, i - 1).push(b@[i - 1]));
    }
    assert(a@ =~= a@.subrange(0, a@.len() as int));
    assert(b@ =~= b@.subrange(0, b@.len() as int));
    true
}

/// Unique id of a replica.
#[derive(Clone, Copy, Debug, PartialEq, Eq, Hash)]
pub struct ReplicaId(pub [u8; REPLICA_ID_SIZE]);

impl ReplicaId {
    /// Whether the id begins with the bytes of `needle`.
    pub fn starts_with(&self, needle: &[u8]) -> (r: bool)
        ensures
            r == (needle@.len() <= REPLICA_ID_SIZE && self.0@.subrange(0, needle@.len() as int)
                == needle@),
    {
        if needle.len() > REPLICA_ID_SIZE {
            return false;
        }
        let mut i: usize = 0;
        while i < needle.len()
            invariant
                needle@.len() <= REPLICA_ID_SIZE,
                self.0@.len() == REPLICA_ID_SIZE,
                i <= needle@.len(),
                self.0@.subrange(0, i as int) == needle@.subrange(0, i as int),
            decreases needle@.len() - i,
        {
            if self.0[i] != needle[i] {
                assert(self.0@.subrange(0, needle@.len() as int)[i as int] != needle@[i as int]);
                return false;
            }
            i = i + 1;
            assert(self.0@.subrange(0, i as int) =~= self.0@.subrange(0, i - 1).push(
                self.0@[i - 1],
            ));
            assert(needle@.subrange(0, i as int) =~= needle@.subrange(0, i - 1).push(
                needle@[i - 1],
            ));
        }
        assert(needle@ =~= needle@.subrange(0, needle@.len() as int));
        true
    }
}

} // verus!
