//! Forking blobs into a branch: the branch gets its own copy of the blob's blocks under the
//! blob's root id. Forking again what is already there changes nothing.

use vstd::prelude::*;
use vstd::slice::slice_to_vec;
use crate::cursor::copy_bytes;
use crate::error::Error;
use crate::replica_id::bytes_equal;
use crate::version_vector::vv_eq;
use crate::table::ByteTable;
use crate::directory::{check_insert, spec_check_insert, Directory, Entry, InsertCheck};
use crate::lock::{spec_blocking, BlobLocks, LockKind};

verus! {

/// Blocks as values.
pub open spec fn blocks_view(blocks: Seq<Vec<u8>>) -> Seq<Seq<u8>> {
    blocks.map_values(|b: Vec<u8>| b@)
}

/// The blobs of one branch: the blocks of each, by root id.
pub struct BranchBlobs {
    blobs: ByteTable<Vec<Vec<u8>>>,
}

impl BranchBlobs {
    pub closed spec fn wf(&self) -> bool {
        self.blobs.wf()
    }

    /// Root ids with the blocks of their blob.
    pub closed spec fn spec_blobs(&self) -> Map<Seq<u8>, Seq<Seq<u8>>> {
        self.blobs.view().map_values(|v: Vec<Vec<u8>>| blocks_view(v@))
    }

    pub fn new() -> (r: BranchBlobs)
        ensures
            r.wf(),
            r.spec_blobs().is_empty(),
    {
        let r = BranchBlobs { blobs: ByteTable::new() };
        assert(r.spec_blobs() =~= Map::<Seq<u8>, Seq<Seq<u8>>>::empty());
        r
    }

    /// The blocks of blob `id`, if the branch has it.
    pub fn get(&self, id: &[u8]) -> (r: Option<&Vec<Vec<u8>>>)
        requires
            self.wf(),
        ensures
            match r {
                Some(b) => self.spec_blobs().contains_key(id@) && self.spec_blobs()[id@] == blocks_view(b@),
                None => !self.spec_blobs().contains_key(id@),
            },
    {
        self.blobs.get(id)
    }

    /// Gives the branch a copy of `blocks` as blob `id`. Succeeds without change when the
    /// branch holds the same blocks under that id already; fails with `EntryExists`,
    /// without change, when it holds different ones.
    pub fn fork(&mut self, id: &[u8], blocks: &Vec<Vec<u8>>) -> (r: Result<(), Error>)
        requires
            old(self).wf(),
        ensures
            final(self).wf(),
            old(self).spec_blobs().contains_key(id@) ==> final(self).spec_blobs() == old(self).spec_blobs()
                && r == if old(self).spec_blobs()[id@] == blocks_view(blocks@) {
                Ok::<(), Error>(())
            } else {
                Err::<(), Error>(Error::EntryExists)
            },
            !old(self).spec_blobs().contains_key(id@) ==> r is Ok && final(self).spec_blobs()
                == old(self).spec_blobs().insert(id@, blocks_view(blocks@)),
    {
        match self.blobs.get(id) {
            Some(existing) => {
                if same_blocks(existing, blocks) {
                    Ok(())
                } else {
                    Err(Error::EntryExists)
                }
            },
            None => {
                let copy = copy_blocks(blocks);
                let key = slice_to_vec(id);
                self.blobs.insert(key, copy);
                proof {
                    assert(self.spec_blobs() =~= old(self).spec_blobs().insert(id@, blocks_view(blocks@)));
                }
                Ok(())
            },
        }
    }
}

fn copy_blocks(blocks: &Vec<Vec<u8>>) -> (r: Vec<Vec<u8>>)
    ensures
        blocks_view(r@) == blocks_view(blocks@),
{
    let mut r: Vec<Vec<u8>> = Vec::new();
    let mut i: usize = 0;
    while i < blocks.len()
        invariant
            i <= blocks@.len(),
            r@.len() == i,
            blocks_view(r@) == blocks_view(blocks@.subrange(0, i as int)),
        decreases blocks@.len() - i,
    {
        let ghost prev = r@;
        let c = copy_bytes(&blocks[i]);
        r.push(c);
        proof {
            let goal = blocks_view(blocks@.subrange(0, i + 1));
            assert forall|k: int| 0 <= k < i + 1 implies #[trigger] blocks_view(r@)[k] == goal[k] by {
                if k < i {
                    assert(blocks_view(prev)[k] == blocks_view(blocks@.subrange(0, i as int))[k]);
                    assert(r@[k] == prev[k]);
                }
            }
            assert(blocks_view(r@) =~= goal);
        }
        i = i + 1;
    }
    assert(blocks@.subrange(0, blocks@.len() as int) =~= blocks@);
    r
}

fn same_blocks(a: &Vec<Vec<u8>>, b: &Vec<Vec<u8>>) -> (r: bool)
    ensures
        r == (blocks_view(a@) == blocks_view(b@)),
{
    if a.len() != b.len() {
        assert(blocks_view(a@).len() != blocks_view(b@).len());
        return false;
    }
    let mut i: usize = 0;
    while i < a.len()
        invariant
            a@.len() == b@.len(),
            i <= a@.len(),
            forall|k: int| 0 <= k < i ==> #[trigger] a@[k]@ == b@[k]@,
        decreases a@.len() - i,
    {
        if !bytes_equal(a[i].as_slice(), b[i].as_slice()) {
            assert(blocks_view(a@)[i as int] != blocks_view(b@)[i as int]);
            return false;
        }
        i = i + 1;
    }
    assert(blocks_view(a@) =~= blocks_view(b@));
    true
}

/// Forking twice is the same as forking once: the second fork of the same blocks under the
/// same id succeeds and changes nothing.
pub proof fn lemma_fork_idempotent(
    before: Map<Seq<u8>, Seq<Seq<u8>>>,
    id: Seq<u8>,
    blocks: Seq<Seq<u8>>,
)
    requires
        !before.contains_key(id) || before[id] == blocks,
    ensures
        ({
            let once = before.insert(id, blocks);
            &&& once.contains_key(id)
            &&& once[id] == blocks
            &&& once.insert(id, blocks) == once
            &&& !before.contains_key(id) ==> once == before.insert(id, blocks)
            &&& before.contains_key(id) ==> once == before
        }),
{
    let once = before.insert(id, blocks);
    assert(once.insert(id, blocks) =~= once);
    if before.contains_key(id) {
        assert(once =~= before);
    }
}

/// How a fork of an entry ended when it did not fail.
#[derive(Clone, Copy, Debug, PartialEq, Eq, Structural)]
pub enum ForkOutcome {
    /// The blob was copied and the entry inserted.
    Forked,
    /// The destination holds this version already.
    AlreadyForked,
    /// Another fork holds the unique lock of the blob: try again once it is released.
    Busy,
}

/// Whether the old blob at the destination, if it is another blob, is locked against the
/// fork.
pub open spec fn old_blob_blocked(existing: Option<Entry>, src: Entry, locks: BlobLocks) -> bool {
    match existing {
        Some(e) => e.blob_id@ != src.blob_id@ && spec_blocking(
            locks.spec_state(e.blob_id@),
            LockKind::Unique,
        ) is Some,
        None => false,
    }
}

/// Forks the entry `name` of version `src` with the blocks `src_blocks` into the
/// destination directory `dst_dir` and blob store `dst_blobs`:
/// - a destination that holds this version already is left as it is (`AlreadyForked`);
///   one that holds a conflicting version fails the fork with `EntryExists`;
/// - the blob needs its unique lock: `Busy` while another fork holds it, `Locked` while it
///   is read or written; an older blob being replaced needs its unique lock too (`Locked`);
/// - the blob is then copied (which fails with `EntryExists` if the store holds different
///   blocks under its id) and the entry inserted with the version vector of `src`.
/// Every lock taken is given back; on any outcome but `Forked` nothing changes.
pub fn fork_entry(
    dst_dir: &mut Directory,
    name: &[u8],
    src: &Entry,
    src_blocks: &Vec<Vec<u8>>,
    dst_blobs: &mut BranchBlobs,
    locks: &mut BlobLocks,
) -> (r: Result<ForkOutcome, Error>)
    requires
        old(dst_dir).wf(),
        old(dst_blobs).wf(),
        old(locks).wf(),
        src.vv.wf(),
    ensures
        final(dst_dir).wf(),
        final(dst_blobs).wf(),
        final(locks).wf(),
        forall|id: Seq<u8>| #[trigger] final(locks).spec_state(id) == old(locks).spec_state(id),
        ({
            let existing = if old(dst_dir).spec_entries().contains_key(name@) {
                Some(old(dst_dir).spec_entries()[name@])
            } else {
                None
            };
            let check = spec_check_insert(existing, *src);
            let new_lock = spec_blocking(old(locks).spec_state(src.blob_id@), LockKind::Unique);
            &&& check is Err ==> r == Err::<ForkOutcome, Error>(Error::EntryExists)
            &&& check == Ok::<InsertCheck, Error>(InsertCheck::Same) ==> r == Ok::<ForkOutcome, Error>(ForkOutcome::AlreadyForked)
            &&& check == Ok::<InsertCheck, Error>(InsertCheck::Insert) ==> {
                &&& new_lock == Some(LockKind::Unique) ==> r == Ok::<ForkOutcome, Error>(ForkOutcome::Busy)
                &&& (new_lock == Some(LockKind::Read) || new_lock == Some(LockKind::Write)) ==> r == Err::<ForkOutcome, Error>(Error::Locked)
                &&& new_lock is None && old_blob_blocked(existing, *src, *old(locks)) ==> r == Err::<ForkOutcome, Error>(Error::Locked)
                &&& new_lock is None && !old_blob_blocked(existing, *src, *old(locks)) ==> {
                    let blobs = old(dst_blobs).spec_blobs();
                    let fits = !blobs.contains_key(src.blob_id@) || blobs[src.blob_id@] == blocks_view(src_blocks@);
                    &&& fits ==> r == Ok::<ForkOutcome, Error>(ForkOutcome::Forked)
                    &&& !fits ==> r == Err::<ForkOutcome, Error>(Error::EntryExists)
                }
            }
        }),
        r != Ok::<ForkOutcome, Error>(ForkOutcome::Forked) ==> final(dst_dir).spec_entries() == old(dst_dir).spec_entries()
            && final(dst_blobs).spec_blobs() == old(dst_blobs).spec_blobs(),
        r == Ok::<ForkOutcome, Error>(ForkOutcome::Forked) ==> {
            let e = final(dst_dir).spec_entries()[name@];
            &&& final(dst_dir).spec_entries().contains_key(name@)
            &&& e.kind == src.kind
            &&& e.blob_id@ == src.blob_id@
            &&& vv_eq(e.vv, src.vv)
            &&& forall|n: Seq<u8>| n != name@ ==> #[trigger] final(dst_dir).spec_entries().contains_key(n)
                == old(dst_dir).spec_entries().contains_key(n)
            &&& final(dst_blobs).spec_blobs().contains_key(src.blob_id@)
            &&& final(dst_blobs).spec_blobs()[src.blob_id@] == blocks_view(src_blocks@)
        },
{
    let check = check_insert(dst_dir.lookup(name), src);
    match check {
        Err(e) => return Err(e),
        Ok(InsertCheck::Same) => return Ok(ForkOutcome::AlreadyForked),
        Ok(InsertCheck::Insert) => {},
    }
    let new_id = src.blob_id.as_slice();
    match locks.try_lock(new_id, LockKind::Unique) {
        Ok(()) => {},
        Err(LockKind::Unique) => return Ok(ForkOutcome::Busy),
        Err(_) => return Err(Error::Locked),
    }
    let old_id: Option<[u8; 32]> = match dst_dir.lookup(name) {
        Some(e) => if bytes_equal(e.blob_id.as_slice(), new_id) {
            None
        } else {
            Some(e.blob_id)
        },
        None => None,
    };
    let ghost after_first = *locks;
    match old_id {
        Some(id) => {
            proof {
                assert(id@ != src.blob_id@);
            }
            match locks.try_lock(id.as_slice(), LockKind::Unique) {
                Ok(()) => {},
                Err(_) => {
                    locks.release(new_id, LockKind::Unique);
                    return Err(Error::Locked);
                },
            }
        },
        None => {},
    }
    let result = dst_blobs.fork(new_id, src_blocks);
    match old_id {
        Some(id) => locks.release(id.as_slice(), LockKind::Unique),
        None => {},
    }
    locks.release(new_id, LockKind::Unique);
    match result {
        Err(e) => Err(e),
        Ok(()) => {
            dst_dir.insert(slice_to_vec(name), Entry { kind: src.kind, blob_id: src.blob_id, vv: src.vv.duplicate() });
            Ok(ForkOutcome::Forked)
        },
    }
}

/// A second fork of an entry finds the version the first one inserted and so changes
/// nothing: after `fork_entry` returns `Forked`, the destination entry has the kind, blob
/// and version vector of the source, which the insert check reports as the same version.
pub proof fn lemma_fork_entry_idempotent(forked: Entry, src: Entry)
    requires
        forked.kind == src.kind,
        forked.blob_id@ == src.blob_id@,
        vv_eq(forked.vv, src.vv),
    ensures
        spec_check_insert(Some(forked), src) == Ok::<InsertCheck, Error>(InsertCheck::Same),
{
}

} // verus!
