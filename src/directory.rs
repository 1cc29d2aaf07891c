//! Directory entries and moving an entry from one directory to another.

use vstd::prelude::*;
use vstd::slice::slice_to_vec;
use crate::error::Error;
use crate::table::ByteTable;
use crate::version_vector::{vv_eq, vv_lt, VersionVector, VvOrder, lemma_merged_incremented_exceeds};
use crate::replica_id::bytes_equal;

verus! {

/// Size of a blob id in bytes.
pub const BLOB_ID_SIZE: usize = 32;

/// What a directory entry is.
#[derive(Clone, Copy, Debug, PartialEq, Eq, Structural)]
pub enum EntryKind {
    File,
    /// A directory; `empty` when all its entries are tombstones.
    Directory { empty: bool },
    /// What is left of a removed or moved entry.
    Tombstone,
}

/// An entry: what it is, the id of its blob, and its version vector.
pub struct Entry {
    pub kind: EntryKind,
    pub blob_id: [u8; BLOB_ID_SIZE],
    pub vv: VersionVector,
}

/// The entries of one directory, by name.
pub struct Directory {
    entries: ByteTable<Entry>,
}

impl Directory {
    /// Entries by name.
    pub closed spec fn spec_entries(&self) -> Map<Seq<u8>, Entry> {
        self.entries.view()
    }

    pub closed spec fn wf(&self) -> bool {
        &&& self.entries.wf()
        &&& forall|n: Seq<u8>| #[trigger]
            self.entries.view().contains_key(n) ==> self.entries.view()[n].vv.wf()
    }

    pub fn new() -> (r: Directory)
        ensures
            r.wf(),
            r.spec_entries().is_empty(),
    {
        Directory { entries: ByteTable::new() }
    }

    /// The entry called `name`, if any.
    pub fn lookup(&self, name: &[u8]) -> (r: Option<&Entry>)
        requires
            self.wf(),
        ensures
            match r {
                Some(e) => self.spec_entries().contains_key(name@) && self.spec_entries()[name@] == *e
                    && e.vv.wf(),
                None => !self.spec_entries().contains_key(name@),
            },
    {
        self.entries.get(name)
    }

    /// Sets the entry called `name`.
    pub fn insert(&mut self, name: Vec<u8>, entry: Entry)
        requires
            old(self).wf(),
            entry.vv.wf(),
        ensures
            final(self).wf(),
            final(self).spec_entries() == old(self).spec_entries().insert(name@, entry),
    {
        self.entries.insert(name, entry);
    }
}

/// Whether an entry of kind `src` may replace one of kind `dst` when moved onto it, as a
/// rename does: anything replaces a tombstone, a file replaces a file, and a directory
/// replaces an empty directory.
pub open spec fn move_allowed(src: EntryKind, dst: Option<EntryKind>) -> Result<(), Error> {
    match dst {
        None => Ok(()),
        Some(EntryKind::Tombstone) => Ok(()),
        Some(EntryKind::File) => match src {
            EntryKind::File => Ok(()),
            _ => Err(Error::EntryIsFile),
        },
        Some(EntryKind::Directory { empty }) => match src {
            EntryKind::File => Err(Error::EntryIsDirectory),
            _ => if empty {
                Ok(())
            } else {
                Err(Error::DirectoryNotEmpty)
            },
        },
    }
}

fn check_move(src: EntryKind, dst: Option<EntryKind>) -> (r: Result<(), Error>)
    ensures
        r == move_allowed(src, dst),
{
    match dst {
        None => Ok(()),
        Some(EntryKind::Tombstone) => Ok(()),
        Some(EntryKind::File) => match src {
            EntryKind::File => Ok(()),
            _ => Err(Error::EntryIsFile),
        },
        Some(EntryKind::Directory { empty }) => match src {
            EntryKind::File => Err(Error::EntryIsDirectory),
            _ => if empty {
                Ok(())
            } else {
                Err(Error::DirectoryNotEmpty)
            },
        },
    }
}

/// Moves the entry `src_name` of `src` to `dst_name` in `dst` on behalf of writer
/// `writer`. The moved entry keeps its kind and blob; its version vector is the merge of
/// its own and that of the entry it replaces, with the writer's counter incremented; the
/// old name is left with a tombstone of that same version vector.
///
/// Fails with `EntryNotFound` when there is no live entry `src_name`, and with
/// `EntryIsFile`, `EntryIsDirectory` or `DirectoryNotEmpty` when the entry at `dst_name`
/// may not be replaced (see `move_allowed`); with `InvalidArgument` when the writer's
/// counter cannot grow any more. Nothing changes on failure.
pub fn move_entry(
    src: &mut Directory,
    src_name: &[u8],
    dst: &mut Directory,
    dst_name: &[u8],
    writer: &[u8],
) -> (r: Result<(), Error>)
    requires
        old(src).wf(),
        old(dst).wf(),
    ensures
        final(src).wf(),
        final(dst).wf(),
        !old(src).spec_entries().contains_key(src_name@) || old(src).spec_entries()[src_name@].kind
            == EntryKind::Tombstone ==> r == Err::<(), Error>(Error::EntryNotFound),
        r is Err ==> *final(src) == *old(src) && *final(dst) == *old(dst),
        old(src).spec_entries().contains_key(src_name@) && old(src).spec_entries()[src_name@].kind
            != EntryKind::Tombstone ==> {
            let moved = old(src).spec_entries()[src_name@];
            let replaced = if old(dst).spec_entries().contains_key(dst_name@) {
                Some(old(dst).spec_entries()[dst_name@].kind)
            } else {
                None
            };
            &&& move_allowed(moved.kind, replaced) is Err ==> r == move_allowed(moved.kind, replaced)
            &&& move_allowed(moved.kind, replaced) is Ok && moved.vv.spec_get(writer@) < u64::MAX && (
            old(dst).spec_entries().contains_key(dst_name@) ==> old(dst).spec_entries()[dst_name@].vv.spec_get(
                writer@,
            ) < u64::MAX) ==> r is Ok
            &&& r is Ok ==> {
                let e = final(dst).spec_entries()[dst_name@];
                let t = final(src).spec_entries()[src_name@];
                &&& final(dst).spec_entries().contains_key(dst_name@)
                &&& e.kind == moved.kind
                &&& e.blob_id == moved.blob_id
                &&& vv_lt(moved.vv, e.vv)
                &&& (old(dst).spec_entries().contains_key(dst_name@) ==> vv_lt(
                    old(dst).spec_entries()[dst_name@].vv,
                    e.vv,
                ))
                &&& exists|w: Seq<u8>|
                    e.vv.spec_get(w) > moved.vv.spec_get(w) && (old(dst).spec_entries().contains_key(
                        dst_name@,
                    ) ==> e.vv.spec_get(w) > old(dst).spec_entries()[dst_name@].vv.spec_get(w))
                &&& final(src).spec_entries().contains_key(src_name@)
                &&& t.kind == EntryKind::Tombstone
                &&& vv_lt(moved.vv, t.vv)
                &&& final(dst).spec_entries() == old(dst).spec_entries().insert(dst_name@, e)
                &&& final(src).spec_entries() == old(src).spec_entries().insert(src_name@, t)
            }
        },
{
    let (kind, blob_id, src_vv) = match src.lookup(src_name) {
        Some(e) => match e.kind {
            EntryKind::Tombstone => return Err(Error::EntryNotFound),
            _ => (e.kind, e.blob_id, e.vv.duplicate()),
        },
        None => return Err(Error::EntryNotFound),
    };
    let ghost moved = src.spec_entries()[src_name@];
    let base = match dst.lookup(dst_name) {
        Some(old_entry) => {
            match check_move(kind, Some(old_entry.kind)) {
                Ok(()) => {},
                Err(e) => return Err(e),
            }
            old_entry.vv.duplicate()
        },
        None => VersionVector::new(),
    };
    if base.get(writer) == u64::MAX || src_vv.get(writer) == u64::MAX {
        return Err(Error::InvalidArgument);
    }
    let vv = base.merged_incremented(&src_vv, writer);
    let tomb_vv = vv.duplicate();
    proof {
        lemma_merged_incremented_exceeds(base, src_vv, vv, writer@);
        assert(vv_lt(moved.vv, vv));
        assert(tomb_vv.spec_get(writer@) == vv.spec_get(writer@));
        assert(vv.spec_get(writer@) > moved.vv.spec_get(writer@));
        assert(vv.spec_get(writer@) > base.spec_get(writer@));
        assert(vv_lt(moved.vv, tomb_vv));
    }
    dst.insert(slice_to_vec(dst_name), Entry { kind, blob_id, vv });
    src.insert(slice_to_vec(src_name), Entry { kind: EntryKind::Tombstone, blob_id, vv: tomb_vv });
    Ok(())
}

/// Whether the version `src` of an entry can be put where `existing` is: where there is
/// nothing, or an older version, it is inserted; where the same version is (same kind, blob
/// and version vector) there is nothing to do; anything else is a conflict.
#[derive(Clone, Copy, Debug, PartialEq, Eq, Structural)]
pub enum InsertCheck {
    Insert,
    Same,
}

pub open spec fn spec_check_insert(existing: Option<Entry>, src: Entry) -> Result<InsertCheck, Error> {
    match existing {
        None => Ok(InsertCheck::Insert),
        Some(e) => if e.kind == src.kind && e.blob_id@ == src.blob_id@ && vv_eq(e.vv, src.vv) {
            Ok(InsertCheck::Same)
        } else if vv_lt(e.vv, src.vv) {
            Ok(InsertCheck::Insert)
        } else {
            Err(Error::EntryExists)
        },
    }
}

/// Checks whether `src` may be put where `existing` is; see `spec_check_insert`.
pub fn check_insert(existing: Option<&Entry>, src: &Entry) -> (r: Result<InsertCheck, Error>)
    requires
        src.vv.wf(),
        existing matches Some(e) ==> e.vv.wf(),
    ensures
        r == spec_check_insert(
            match existing {
                Some(e) => Some(*e),
                None => None,
            },
            *src,
        ),
{
    match existing {
        None => Ok(InsertCheck::Insert),
        Some(e) => {
            let order = e.vv.compare(&src.vv);
            let same_blob = bytes_equal(e.blob_id.as_slice(), src.blob_id.as_slice());
            if e.kind == src.kind && same_blob && order == VvOrder::Equal {
                Ok(InsertCheck::Same)
            } else if order == VvOrder::Less {
                Ok(InsertCheck::Insert)
            } else {
                Err(Error::EntryExists)
            }
        },
    }
}

/// Whether `e` carries the same version as `src`: same kind, blob and version vector.
pub open spec fn same_version(e: Entry, src: Entry) -> bool {
    e.kind == src.kind && e.blob_id@ == src.blob_id@ && vv_eq(e.vv, src.vv)
}

/// The entry a merge leaves under a name: the remote version when the local directory has
/// none or an older one, the local version otherwise.
pub open spec fn merged_entry(local: Option<Entry>, remote: Option<Entry>) -> Option<Entry> {
    match (local, remote) {
        (None, r) => r,
        (Some(l), None) => Some(l),
        (Some(l), Some(r)) => if vv_lt(l.vv, r.vv) {
            Some(r)
        } else {
            Some(l)
        },
    }
}

impl Directory {
    pub open spec fn spec_lookup(&self, name: Seq<u8>) -> Option<Entry> {
        if self.spec_entries().contains_key(name) {
            Some(self.spec_entries()[name])
        } else {
            None
        }
    }

    /// Brings the versions of `remote` into this directory: every name gets the entry
    /// `merged_entry` picks, up to an equal version vector where the remote one is copied.
    pub fn merge_from(&mut self, remote: &Directory)
        requires
            old(self).wf(),
            remote.wf(),
        ensures
            final(self).wf(),
            forall|name: Seq<u8>| #[trigger] final(self).spec_entries().contains_key(name)
                == (old(self).spec_entries().contains_key(name) || remote.spec_entries().contains_key(name)),
            forall|name: Seq<u8>| #[trigger] final(self).spec_entries().contains_key(name) ==> {
                let m = merged_entry(old(self).spec_lookup(name), remote.spec_lookup(name))->Some_0;
                let e = final(self).spec_entries()[name];
                if old(self).spec_lookup(name) == Some(m) {
                    e == m
                } else {
                    same_version(e, m)
                }
            },
    {
        let n = remote.entries.entry_count();
        let mut i: usize = 0;
        while i < n
            invariant
                self.wf(),
                remote.wf(),
                i <= n,
                n == remote.entries.spec_entries().len(),
                forall|name: Seq<u8>| #[trigger] self.spec_entries().contains_key(name)
                    == (old(self).spec_entries().contains_key(name) || exists|j: int|
                    0 <= j < i && remote.entries.spec_entries()[j].0 == name),
                forall|name: Seq<u8>| #[trigger] self.spec_entries().contains_key(name) ==> {
                    let in_prefix = exists|j: int| 0 <= j < i && remote.entries.spec_entries()[j].0 == name;
                    let m = merged_entry(
                        old(self).spec_lookup(name),
                        if in_prefix { remote.spec_lookup(name) } else { None },
                    )->Some_0;
                    let e = self.spec_entries()[name];
                    if old(self).spec_lookup(name) == Some(m) {
                        e == m
                    } else {
                        same_version(e, m)
                    }
                },
            decreases n - i,
        {
            let (name, theirs) = remote.entries.entry_at(i);
            proof {
                remote.entries.lemma_at(i as int);
            }
            let take = match self.entries.get(name.as_slice()) {
                None => true,
                Some(ours) => {
                    let order = ours.vv.compare(&theirs.vv);
                    order == VvOrder::Less
                },
            };
            let ghost before = *self;
            let ghost key = name@;
            let ghost processed = |nm: Seq<u8>, k: int| exists|j: int| 0 <= j < k && remote.entries.spec_entries()[j].0 == nm;
            proof {
                assert(remote.spec_lookup(key) == Some(*theirs));
                assert(!processed(key, i as int)) by {
                    if processed(key, i as int) {
                        let j = choose|j: int| 0 <= j < i && remote.entries.spec_entries()[j].0 == key;
                        remote.entries.lemma_unique(j, i as int);
                    }
                }
                if self.spec_entries().contains_key(key) {
                    assert(self.spec_lookup(key) == old(self).spec_lookup(key));
                } else {
                    assert(!old(self).spec_entries().contains_key(key));
                }
            }
            if take {
                let copy = Entry { kind: theirs.kind, blob_id: theirs.blob_id, vv: theirs.vv.duplicate() };
                self.entries.insert(slice_to_vec(name.as_slice()), copy);
            }
            proof {
                assert forall|nm: Seq<u8>| #[trigger] self.spec_entries().contains_key(nm)
                    == (old(self).spec_entries().contains_key(nm) || exists|j: int|
                    0 <= j < i + 1 && remote.entries.spec_entries()[j].0 == nm) by {
                    if nm == key {
                        assert(remote.entries.spec_entries()[i as int].0 == nm);
                    } else if exists|j: int| 0 <= j < i + 1 && remote.entries.spec_entries()[j].0 == nm {
                        let j = choose|j: int| 0 <= j < i + 1 && remote.entries.spec_entries()[j].0 == nm;
                        assert(j < i);
                    }
                }
                assert forall|nm: Seq<u8>| #[trigger] self.spec_entries().contains_key(nm) implies {
                    let in_prefix = exists|j: int| 0 <= j < i + 1 && remote.entries.spec_entries()[j].0 == nm;
                    let m = merged_entry(
                        old(self).spec_lookup(nm),
                        if in_prefix { remote.spec_lookup(nm) } else { None },
                    )->Some_0;
                    let e = self.spec_entries()[nm];
                    if old(self).spec_lookup(nm) == Some(m) {
                        e == m
                    } else {
                        same_version(e, m)
                    }
                } by {
                    if nm == key {
                        assert(remote.entries.spec_entries()[i as int].0 == nm);
                    } else {
                        assert(before.spec_entries().contains_key(nm));
                        if exists|j: int| 0 <= j < i + 1 && remote.entries.spec_entries()[j].0 == nm {
                            let j = choose|j: int| 0 <= j < i + 1 && remote.entries.spec_entries()[j].0 == nm;
                            assert(j < i);
                        }
                    }
                }
            }
            i = i + 1;
        }
        proof {
            assert forall|name: Seq<u8>| remote.spec_entries().contains_key(name) == exists|j: int|
                0 <= j < n && remote.entries.spec_entries()[j].0 == name by {
                if remote.spec_entries().contains_key(name) {
                    remote.entries.lemma_key_listed(name);
                }
                if exists|j: int| 0 <= j < n && remote.entries.spec_entries()[j].0 == name {
                    let j = choose|j: int| 0 <= j < n && remote.entries.spec_entries()[j].0 == name;
                    remote.entries.lemma_at(j);
                }
            }
        }
    }
}

/// One merge in each direction leaves two replicas with the same version of a name, up to
/// equal version vectors, whenever their versions are ordered (or one side has none).
/// Concurrent versions are not covered: each replica keeps its own.
pub proof fn lemma_merge_converges(a: Option<Entry>, b: Option<Entry>)
    requires
        a matches Some(x) ==> b matches Some(y) ==> vv_lt(x.vv, y.vv) || vv_lt(y.vv, x.vv)
            || vv_eq(x.vv, y.vv),
    ensures
        merged_entry(a, b) is Some == merged_entry(b, a) is Some,
        merged_entry(a, b) matches Some(x) ==> vv_eq(x.vv, merged_entry(b, a)->Some_0.vv),
{
    if a is Some && b is Some {
        let x = a->Some_0;
        let y = b->Some_0;
        if vv_lt(x.vv, y.vv) {
            assert(!vv_lt(y.vv, x.vv));
        } else if vv_lt(y.vv, x.vv) {
        } else {
            assert(vv_eq(x.vv, y.vv));
            assert(!vv_lt(y.vv, x.vv)) by {
                assert(forall|w: Seq<u8>| #[trigger] x.vv.spec_get(w) == y.vv.spec_get(w));
            }
        }
    }
}

impl Directory {
    /// Adds one to the counter of `writer` in the version vector of entry `name`, as every
    /// change below an entry does to the entry and to each of its ancestors. Fails with
    /// `EntryNotFound` when there is no such entry and with `InvalidArgument` when the
    /// counter cannot grow; nothing changes then.
    pub fn bump_entry(&mut self, name: &[u8], writer: &[u8]) -> (r: Result<(), Error>)
        requires
            old(self).wf(),
        ensures
            final(self).wf(),
            !old(self).spec_entries().contains_key(name@) ==> r == Err::<(), Error>(Error::EntryNotFound),
            r is Err ==> *final(self) == *old(self),
            old(self).spec_entries().contains_key(name@) && old(self).spec_entries()[name@].vv.spec_get(writer@) < u64::MAX
                ==> r is Ok,
            r is Ok ==> {
                let before = old(self).spec_entries()[name@];
                let after = final(self).spec_entries()[name@];
                &&& final(self).spec_entries().contains_key(name@)
                &&& after.kind == before.kind
                &&& after.blob_id == before.blob_id
                &&& after.vv.spec_get(writer@) == before.vv.spec_get(writer@) + 1
                &&& forall|w: Seq<u8>| w != writer@ ==> #[trigger] after.vv.spec_get(w) == before.vv.spec_get(w)
                &&& final(self).spec_entries() == old(self).spec_entries().insert(name@, after)
            },
    {
        let (kind, blob_id, mut vv) = match self.lookup(name) {
            Some(e) => (e.kind, e.blob_id, e.vv.duplicate()),
            None => return Err(Error::EntryNotFound),
        };
        if vv.get(writer) == u64::MAX {
            return Err(Error::InvalidArgument);
        }
        vv.increment(writer);
        self.insert(slice_to_vec(name), Entry { kind, blob_id, vv });
        Ok(())
    }
}

/// Where an entry sits: its name in its parent directory and, unless that parent is the
/// root, where the parent sits.
pub struct ParentContext {
    pub entry_name: Vec<u8>,
    pub parent: Option<Box<ParentContext>>,
}

/// Names from the root down to the entry of `ctx`.
pub open spec fn path_of(ctx: ParentContext) -> Seq<Seq<u8>>
    decreases ctx,
{
    match ctx.parent {
        Some(p) => path_of(*p).push(ctx.entry_name@),
        None => seq![ctx.entry_name@],
    }
}

impl ParentContext {
    pub fn new(entry_name: Vec<u8>, parent: Option<ParentContext>) -> (r: ParentContext)
        ensures
            r.entry_name == entry_name,
            match parent {
                Some(p) => r.parent == Some(Box::new(p)),
                None => r.parent is None,
            },
    {
        match parent {
            Some(p) => ParentContext { entry_name, parent: Some(Box::new(p)) },
            None => ParentContext { entry_name, parent: None },
        }
    }

    /// Name of the entry in its parent directory.
    pub fn entry_name(&self) -> (r: &Vec<u8>)
        ensures
            r == &self.entry_name,
    {
        &self.entry_name
    }

    /// Names from the root down to this entry: the entries whose version vectors a change
    /// of this entry bumps, innermost last.
    pub fn calculate_path(&self) -> (r: Vec<Vec<u8>>)
        ensures
            r@.map_values(|n: Vec<u8>| n@) == path_of(*self),
        decreases *self,
    {
        let mut path = match &self.parent {
            Some(p) => p.calculate_path(),
            None => Vec::new(),
        };
        let ghost before = path@;
        path.push(slice_to_vec(self.entry_name.as_slice()));
        proof {
            assert(path@.map_values(|n: Vec<u8>| n@) =~= before.map_values(|n: Vec<u8>| n@).push(self.entry_name@));
            if self.parent is None {
                assert(before.map_values(|n: Vec<u8>| n@) =~= Seq::<Seq<u8>>::empty());
            }
        }
        path
    }
}

} // verus!
