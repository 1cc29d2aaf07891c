//! Lifecycle locks on blobs, by root id. Any number of read locks and one write lock may
//! be held together; a unique lock excludes every other lock. Forking and overwriting a
//! blob need the unique lock.

use vstd::prelude::*;
use vstd::slice::slice_to_vec;
use crate::table::ByteTable;

verus! {

#[derive(Clone, Copy, Debug, PartialEq, Eq, Structural)]
pub enum LockKind {
    Read,
    Write,
    Unique,
}

/// The locks held on one blob.
#[derive(Clone, Copy, Debug, PartialEq, Eq, Structural)]
pub struct LockState {
    pub readers: u64,
    pub writer: bool,
    pub unique: bool,
}

/// The lock that stands in the way of taking `kind` in `state`, if any.
pub open spec fn spec_blocking(state: LockState, kind: LockKind) -> Option<LockKind> {
    if state.unique {
        Some(LockKind::Unique)
    } else {
        match kind {
            LockKind::Read => None,
            LockKind::Write => if state.writer {
                Some(LockKind::Write)
            } else {
                None
            },
            LockKind::Unique => if state.writer {
                Some(LockKind::Write)
            } else if state.readers > 0 {
                Some(LockKind::Read)
            } else {
                None
            },
        }
    }
}

/// `state` with a lock of `kind` added.
pub open spec fn spec_acquired(state: LockState, kind: LockKind) -> LockState {
    match kind {
        LockKind::Read => LockState { readers: (state.readers + 1) as u64, ..state },
        LockKind::Write => LockState { writer: true, ..state },
        LockKind::Unique => LockState { unique: true, ..state },
    }
}

/// `state` with a lock of `kind` given back.
pub open spec fn spec_released(state: LockState, kind: LockKind) -> LockState {
    match kind {
        LockKind::Read => LockState {
            readers: if state.readers > 0 {
                (state.readers - 1) as u64
            } else {
                0
            },
            ..state
        },
        LockKind::Write => LockState { writer: false, ..state },
        LockKind::Unique => LockState { unique: false, ..state },
    }
}

pub open spec fn unlocked() -> LockState {
    LockState { readers: 0, writer: false, unique: false }
}

/// The locks held on each blob.
pub struct BlobLocks {
    states: ByteTable<LockState>,
}

impl BlobLocks {
    pub closed spec fn wf(&self) -> bool {
        self.states.wf()
    }

    /// Locks held on blob `id`.
    pub closed spec fn spec_state(&self, id: Seq<u8>) -> LockState {
        if self.states.view().contains_key(id) {
            self.states.view()[id]
        } else {
            unlocked()
        }
    }

    pub fn new() -> (r: BlobLocks)
        ensures
            r.wf(),
            forall|id: Seq<u8>| #[trigger] r.spec_state(id) == unlocked(),
    {
        BlobLocks { states: ByteTable::new() }
    }

    /// Locks held on blob `id`.
    pub fn state(&self, id: &[u8]) -> (r: LockState)
        requires
            self.wf(),
        ensures
            r == self.spec_state(id@),
    {
        match self.states.get(id) {
            Some(s) => *s,
            None => LockState { readers: 0, writer: false, unique: false },
        }
    }

    /// Takes a lock of `kind` on blob `id`, or returns the lock that stands in the way.
    pub fn try_lock(&mut self, id: &[u8], kind: LockKind) -> (r: Result<(), LockKind>)
        requires
            old(self).wf(),
            kind == LockKind::Read ==> old(self).spec_state(id@).readers < u64::MAX,
        ensures
            final(self).wf(),
            r == match spec_blocking(old(self).spec_state(id@), kind) {
                Some(k) => Err::<(), LockKind>(k),
                None => Ok::<(), LockKind>(()),
            },
            final(self).spec_state(id@) == if r is Ok {
                spec_acquired(old(self).spec_state(id@), kind)
            } else {
                old(self).spec_state(id@)
            },
            forall|other: Seq<u8>| other != id@ ==> #[trigger] final(self).spec_state(other) == old(self).spec_state(other),
    {
        let s = self.state(id);
        if s.unique {
            return Err(LockKind::Unique);
        }
        let next = match kind {
            LockKind::Read => LockState { readers: s.readers + 1, ..s },
            LockKind::Write => {
                if s.writer {
                    return Err(LockKind::Write);
                }
                LockState { writer: true, ..s }
            },
            LockKind::Unique => {
                if s.writer {
                    return Err(LockKind::Write);
                }
                if s.readers > 0 {
                    return Err(LockKind::Read);
                }
                LockState { unique: true, ..s }
            },
        };
        self.states.insert(slice_to_vec(id), next);
        Ok(())
    }

    /// Gives back a lock of `kind` on blob `id`.
    pub fn release(&mut self, id: &[u8], kind: LockKind)
        requires
            old(self).wf(),
        ensures
            final(self).wf(),
            final(self).spec_state(id@) == spec_released(old(self).spec_state(id@), kind),
            forall|other: Seq<u8>| other != id@ ==> #[trigger] final(self).spec_state(other) == old(self).spec_state(other),
    {
        let s = self.state(id);
        let next = match kind {
            LockKind::Read => LockState {
                readers: if s.readers > 0 {
                    s.readers - 1
                } else {
                    0
                },
                ..s
            },
            LockKind::Write => LockState { writer: false, ..s },
            LockKind::Unique => LockState { unique: false, ..s },
        };
        self.states.insert(slice_to_vec(id), next);
    }
}

/// A unique lock is never held together with another lock: taking it needs the blob free
/// of locks, and no lock is granted while it is held.
pub proof fn lemma_unique_is_exclusive(state: LockState, kind: LockKind)
    ensures
        kind == LockKind::Unique && spec_blocking(state, kind) is None ==> state == unlocked(),
        state.unique ==> spec_blocking(state, kind) == Some(LockKind::Unique),
{
}

} // verus!
