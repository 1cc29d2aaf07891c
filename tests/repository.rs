use ouisync::access::{
    access_for, block_request_mode, branches_to_open, requires_local_password_for_reading,
    requires_local_password_for_writing, set_access, skips_branch, unlocked_mode, AccessKind,
    AccessMode, BlockRequestMode, Branch, RootOpenError, Shared, WriterId,
};
use ouisync::directory::{move_entry, Directory, Entry, EntryKind, ParentContext};
use ouisync::error::Error;
use ouisync::metadata::Metadata;
use ouisync::worker::Worker;
use ouisync::fork::{fork_entry, BranchBlobs, ForkOutcome};
use ouisync::lock::{BlobLocks, LockKind};
use ouisync::joint::{disambiguate, joint_names, EntryVersion};
use ouisync::replica_id::ReplicaId;
use ouisync::root::{effective_branches, hash_greater, keep_incoming, RootSummary};
use ouisync::table::ByteTable;
use ouisync::version_vector::{VersionVector, VvOrder};

fn vv(counters: &[(&[u8], u64)]) -> VersionVector {
    let mut v = VersionVector::new();
    for &(w, n) in counters {
        for _ in 0..n {
            v.increment(w);
        }
    }
    v
}

#[test]
fn replica_id_prefix() {
    let id = ReplicaId([1, 2, 3, 4, 5, 6, 7, 8, 9, 10, 11, 12, 13, 14, 15, 16]);
    assert!(id.starts_with(&[]));
    assert!(id.starts_with(&[1, 2, 3]));
    assert!(!id.starts_with(&[1, 3]));
    assert!(!id.starts_with(&[1; 17]));
}

#[test]
fn access_table() {
    assert_eq!(access_for(true, true, AccessMode::Blind), AccessKind::Blind);
    assert_eq!(access_for(false, true, AccessMode::Read), AccessKind::ReadUnlocked);
    assert_eq!(access_for(true, false, AccessMode::Read), AccessKind::ReadLocked);
    assert_eq!(access_for(false, false, AccessMode::Write), AccessKind::WriteUnlocked);
    assert_eq!(access_for(true, false, AccessMode::Write), AccessKind::ReadLocked);
    assert_eq!(access_for(false, true, AccessMode::Write), AccessKind::WriteLockedReadUnlocked);
    assert_eq!(access_for(true, true, AccessMode::Write), AccessKind::WriteLocked);

    let slots = set_access(AccessKind::WriteLockedReadUnlocked);
    assert!(slots.public_read && slots.secret_write && !slots.public_write && !slots.secret_read);
    assert!(!requires_local_password_for_reading(slots));
    assert!(requires_local_password_for_writing(slots));
    assert_eq!(unlocked_mode(slots, false), AccessMode::Read);
    assert_eq!(unlocked_mode(slots, true), AccessMode::Write);
    let blind = set_access(AccessKind::Blind);
    assert!(requires_local_password_for_reading(blind));
    assert_eq!(unlocked_mode(blind, true), AccessMode::Blind);
}

#[test]
fn branches_by_access() {
    let me = WriterId([7; 32]);
    let other = WriterId([8; 32]);
    let blind = Shared { this_writer_id: me, mode: AccessMode::Blind };
    assert_eq!(blind.local_branch(), Err(Error::PermissionDenied));
    let reader = Shared { this_writer_id: me, mode: AccessMode::Read };
    assert!(!reader.local_branch().unwrap().writable);
    let writer = Shared { this_writer_id: me, mode: AccessMode::Write };
    assert!(writer.local_branch().unwrap().writable);
    let theirs = writer.get_branch(other).unwrap();
    assert_eq!(theirs.id, other);
    assert!(!theirs.writable);
}

#[test]
fn byte_table_basics() {
    let mut t: ByteTable<u32> = ByteTable::new();
    t.insert(b"a".to_vec(), 1);
    t.insert(b"b".to_vec(), 2);
    t.insert(b"a".to_vec(), 3);
    assert_eq!(t.entry_count(), 2);
    assert_eq!(t.get(b"a"), Some(&3));
    assert!(t.contains_key(b"b"));
    assert_eq!(t.remove(b"b"), Some(2));
    assert_eq!(t.remove(b"b"), None);
    assert!(!t.contains_key(b"b"));
}

#[test]
fn version_vector_order_and_merge() {
    let a = vv(&[(b"x", 2), (b"y", 1)]);
    let b = vv(&[(b"x", 1), (b"y", 3)]);
    assert_eq!(a.compare(&b), VvOrder::Concurrent);
    assert_eq!(a.compare(&a.duplicate()), VvOrder::Equal);
    let mut m = a.duplicate();
    m.merge(&b);
    assert_eq!(m.get(b"x"), 2);
    assert_eq!(m.get(b"y"), 3);
    assert_eq!(a.compare(&m), VvOrder::Less);
    assert_eq!(m.compare(&b), VvOrder::Greater);
    let n = a.merged_incremented(&b, b"z");
    assert_eq!((n.get(b"x"), n.get(b"y"), n.get(b"z")), (2, 3, 1));
    assert!(VersionVector::new().le(&a));
}

fn file(id: u8, v: VersionVector) -> Entry {
    Entry { kind: EntryKind::File, blob_id: [id; 32], vv: v }
}

#[test]
fn directory_move() {
    let mut a = Directory::new();
    let mut b = Directory::new();
    a.insert(b"x".to_vec(), file(1, vv(&[(b"w1", 2)])));
    b.insert(b"y".to_vec(), Entry { kind: EntryKind::Tombstone, blob_id: [0; 32], vv: vv(&[(b"w2", 5)]) });

    move_entry(&mut a, b"x", &mut b, b"y", b"me").unwrap();

    let old = a.lookup(b"x").unwrap();
    assert_eq!(old.kind, EntryKind::Tombstone);
    let moved = b.lookup(b"y").unwrap();
    assert_eq!(moved.kind, EntryKind::File);
    assert_eq!(moved.blob_id, [1; 32]);
    assert_eq!((moved.vv.get(b"w1"), moved.vv.get(b"w2"), moved.vv.get(b"me")), (2, 5, 1));
    assert_eq!(vv(&[(b"w1", 2)]).compare(&moved.vv), VvOrder::Less);
    assert_eq!(vv(&[(b"w2", 5)]).compare(&moved.vv), VvOrder::Less);

    // Moving the tombstone again finds nothing.
    assert_eq!(move_entry(&mut a, b"x", &mut b, b"z", b"me"), Err(Error::EntryNotFound));
    assert_eq!(move_entry(&mut a, b"nope", &mut b, b"z", b"me"), Err(Error::EntryNotFound));
}

#[test]
fn directory_move_kind_conflicts() {
    let mut a = Directory::new();
    let mut b = Directory::new();
    a.insert(b"f".to_vec(), file(1, VersionVector::new()));
    a.insert(b"d".to_vec(), Entry { kind: EntryKind::Directory { empty: true }, blob_id: [2; 32], vv: VersionVector::new() });
    b.insert(b"file".to_vec(), file(3, VersionVector::new()));
    b.insert(b"full".to_vec(), Entry { kind: EntryKind::Directory { empty: false }, blob_id: [4; 32], vv: VersionVector::new() });
    b.insert(b"empty".to_vec(), Entry { kind: EntryKind::Directory { empty: true }, blob_id: [5; 32], vv: VersionVector::new() });

    assert_eq!(move_entry(&mut a, b"f", &mut b, b"full", b"me"), Err(Error::EntryIsDirectory));
    assert_eq!(move_entry(&mut a, b"d", &mut b, b"file", b"me"), Err(Error::EntryIsFile));
    assert_eq!(move_entry(&mut a, b"d", &mut b, b"full", b"me"), Err(Error::DirectoryNotEmpty));
    assert_eq!(move_entry(&mut a, b"d", &mut b, b"empty", b"me"), Ok(()));
    assert_eq!(move_entry(&mut a, b"f", &mut b, b"file", b"me"), Ok(()));
    assert_eq!(b.lookup(b"file").unwrap().blob_id, [1; 32]);
}

#[test]
fn root_selection() {
    let low = RootSummary { vv: vv(&[(b"w", 1)]), hash: [9; 32] };
    let high = RootSummary { vv: vv(&[(b"w", 2)]), hash: [1; 32] };
    assert!(keep_incoming(&low, &high));
    assert!(!keep_incoming(&high, &low));
    let same_small = RootSummary { vv: vv(&[(b"w", 2)]), hash: [0; 32] };
    assert!(!keep_incoming(&high, &same_small));
    assert!(keep_incoming(&same_small, &high));
    assert!(hash_greater(&[2; 32], &[1; 32]));
    assert!(!hash_greater(&[1; 32], &[1; 32]));

    let tips = vec![
        RootSummary { vv: vv(&[(b"a", 1)]), hash: [0; 32] },
        RootSummary { vv: vv(&[(b"a", 1), (b"b", 1)]), hash: [0; 32] },
        RootSummary { vv: vv(&[(b"c", 1)]), hash: [0; 32] },
    ];
    assert_eq!(effective_branches(&tips), vec![false, true, true]);
}

#[test]
fn concurrent_writes_show_under_distinct_names() {
    let a = WriterId([0xab; 32]);
    let b = WriterId([0x01; 32]);
    // A wrote "apple" and B wrote "banana" to /x while apart: their version vectors are
    // concurrent, so both versions are visible under names that tell them apart.
    let versions = vec![
        EntryVersion { writer: a, entry: file(1, vv(&[(&[0xab; 32], 1)])) },
        EntryVersion { writer: b, entry: file(2, vv(&[(&[0x01; 32], 1)])) },
    ];
    let names = joint_names("x", &versions);
    assert_eq!(names.len(), 2);
    assert_eq!(names[0], (format!("x.{}", "ab".repeat(32)), 0));
    assert_eq!(names[1], (format!("x.{}", "01".repeat(32)), 1));
    assert_ne!(versions[names[0].1].entry.blob_id, versions[names[1].1].entry.blob_id);

    // Once one version is above the other, only it is visible, under the plain name.
    let versions = vec![
        EntryVersion { writer: a, entry: file(1, vv(&[(&[0xab; 32], 1)])) },
        EntryVersion { writer: b, entry: file(2, vv(&[(&[0xab; 32], 1), (&[0x01; 32], 1)])) },
    ];
    assert_eq!(joint_names("x", &versions), vec![("x".to_string(), 1)]);

    // A tombstone above every other version hides the name.
    let versions = vec![
        EntryVersion { writer: a, entry: file(1, vv(&[(&[0xab; 32], 1)])) },
        EntryVersion {
            writer: b,
            entry: Entry { kind: EntryKind::Tombstone, blob_id: [0; 32], vv: vv(&[(&[0xab; 32], 2)]) },
        },
    ];
    assert!(joint_names("x", &versions).is_empty());
    assert_eq!(disambiguate("notes.txt", &WriterId([0x1f; 32])), format!("notes.txt.{}", "1f".repeat(32)));
    // Writers that share a long id prefix still get different names.
    let mut w1 = [0x5a; 32];
    let mut w2 = [0x5a; 32];
    w1[31] = 1;
    w2[31] = 2;
    let close = vec![
        EntryVersion { writer: WriterId(w1), entry: file(7, vv(&[(&w1, 1)])) },
        EntryVersion { writer: WriterId(w2), entry: file(8, vv(&[(&w2, 1)])) },
    ];
    let names = joint_names("y", &close);
    assert_eq!(names.len(), 2);
    assert_ne!(names[0].0, names[1].0);
    assert!(names[0].0.len() >= "y.".len() + 8);
}

#[test]
fn metadata_store_and_read() {
    let mut metadata = Metadata::new();
    assert_eq!(metadata.get::<bool>("flag"), Err(Error::EntryNotFound));
    metadata.set("flag", true);
    metadata.set("quota", 123_456_789u64);
    assert_eq!(metadata.get::<bool>("flag"), Ok(true));
    assert_eq!(metadata.get::<u64>("quota"), Ok(123_456_789));
    assert_eq!(metadata.get::<u64>("flag"), Err(Error::MalformedData));
    assert_eq!(metadata.get::<bool>("quota"), Err(Error::MalformedData));
    metadata.set("flag", false);
    assert_eq!(metadata.get::<bool>("flag"), Ok(false));
    metadata.remove("flag");
    assert_eq!(metadata.get::<bool>("flag"), Err(Error::EntryNotFound));
}

#[test]
fn blob_locks() {
    let mut locks = BlobLocks::new();
    let id = [3u8; 32];
    assert_eq!(locks.try_lock(&id, LockKind::Read), Ok(()));
    assert_eq!(locks.try_lock(&id, LockKind::Read), Ok(()));
    assert_eq!(locks.try_lock(&id, LockKind::Write), Ok(()));
    assert_eq!(locks.try_lock(&id, LockKind::Write), Err(LockKind::Write));
    assert_eq!(locks.try_lock(&id, LockKind::Unique), Err(LockKind::Write));
    locks.release(&id, LockKind::Write);
    assert_eq!(locks.try_lock(&id, LockKind::Unique), Err(LockKind::Read));
    locks.release(&id, LockKind::Read);
    locks.release(&id, LockKind::Read);
    assert_eq!(locks.try_lock(&id, LockKind::Unique), Ok(()));
    assert_eq!(locks.try_lock(&id, LockKind::Read), Err(LockKind::Unique));
    assert_eq!(locks.try_lock(&[4u8; 32], LockKind::Unique), Ok(()));
    locks.release(&id, LockKind::Unique);
    assert_eq!(locks.state(&id).readers, 0);
    assert!(!locks.state(&id).unique);
}

#[test]
fn fork_entry_into_branch() {
    let src = file(1, vv(&[(b"w", 1)]));
    let blocks = vec![vec![1u8; 16], vec![2u8; 16]];
    let mut dir = Directory::new();
    let mut blobs = BranchBlobs::new();
    let mut locks = BlobLocks::new();

    assert_eq!(fork_entry(&mut dir, b"x", &src, &blocks, &mut blobs, &mut locks), Ok(ForkOutcome::Forked));
    let e = dir.lookup(b"x").unwrap();
    assert_eq!(e.blob_id, [1; 32]);
    assert_eq!(e.vv.compare(&src.vv), VvOrder::Equal);
    assert_eq!(blobs.get(&[1; 32]), Some(&blocks));
    // Forking again changes nothing.
    assert_eq!(fork_entry(&mut dir, b"x", &src, &blocks, &mut blobs, &mut locks), Ok(ForkOutcome::AlreadyForked));

    // A newer version replaces the old one; a concurrent one conflicts.
    let newer = file(5, vv(&[(b"w", 2)]));
    let concurrent = file(6, vv(&[(b"v", 1)]));
    assert_eq!(fork_entry(&mut dir, b"x", &concurrent, &blocks, &mut blobs, &mut locks), Err(Error::EntryExists));
    // The blob is busy while another fork holds it, and locked while it is read.
    locks.try_lock(&[5; 32], LockKind::Unique).unwrap();
    assert_eq!(fork_entry(&mut dir, b"x", &newer, &blocks, &mut blobs, &mut locks), Ok(ForkOutcome::Busy));
    locks.release(&[5; 32], LockKind::Unique);
    locks.try_lock(&[5; 32], LockKind::Read).unwrap();
    assert_eq!(fork_entry(&mut dir, b"x", &newer, &blocks, &mut blobs, &mut locks), Err(Error::Locked));
    locks.release(&[5; 32], LockKind::Read);
    // The replaced blob is locked as well.
    locks.try_lock(&[1; 32], LockKind::Read).unwrap();
    assert_eq!(fork_entry(&mut dir, b"x", &newer, &blocks, &mut blobs, &mut locks), Err(Error::Locked));
    locks.release(&[1; 32], LockKind::Read);
    assert_eq!(fork_entry(&mut dir, b"x", &newer, &blocks, &mut blobs, &mut locks), Ok(ForkOutcome::Forked));
    assert_eq!(dir.lookup(b"x").unwrap().blob_id, [5; 32]);
    assert!(!locks.state(&[5; 32]).unique);
}

#[test]
fn merging_directories_converges() {
    let mut a = Directory::new();
    let mut b = Directory::new();
    a.insert(b"only_a".to_vec(), file(1, vv(&[(b"A", 1)])));
    a.insert(b"both".to_vec(), file(2, vv(&[(b"A", 1)])));
    b.insert(b"both".to_vec(), file(3, vv(&[(b"A", 1), (b"B", 1)])));
    b.insert(b"only_b".to_vec(), file(4, vv(&[(b"B", 1)])));
    a.insert(b"conflict".to_vec(), file(5, vv(&[(b"A", 2)])));
    b.insert(b"conflict".to_vec(), file(6, vv(&[(b"B", 2)])));

    a.merge_from(&b);
    b.merge_from(&a);
    for name in [&b"only_a"[..], b"both", b"only_b"] {
        let x = a.lookup(name).unwrap();
        let y = b.lookup(name).unwrap();
        assert_eq!(x.blob_id, y.blob_id);
        assert_eq!(x.vv.compare(&y.vv), VvOrder::Equal);
    }
    assert_eq!(a.lookup(b"both").unwrap().blob_id, [3; 32]);
    // Concurrent versions stay where they are.
    assert_eq!(a.lookup(b"conflict").unwrap().blob_id, [5; 32]);
    assert_eq!(b.lookup(b"conflict").unwrap().blob_id, [6; 32]);
}

#[test]
fn worker_runs_once_at_a_time_after_quiet() {
    let mut w = Worker::new(1000);
    assert!(!w.poll(0));
    w.on_event(100);
    w.on_event(600);
    assert!(!w.poll(1500));
    assert!(w.poll(1600));
    // An event during the run calls for another run, once this one finished.
    w.on_event(1700);
    assert!(!w.poll(3000));
    w.on_finish();
    assert!(w.poll(3000));
    w.on_finish();
    assert!(!w.poll(10_000));
}

#[test]
fn bumping_entries_along_the_path() {
    let root_ctx = ParentContext::new(b"docs".to_vec(), None);
    let ctx = ParentContext::new(b"notes.txt".to_vec(), Some(root_ctx));
    assert_eq!(ctx.entry_name(), &b"notes.txt".to_vec());
    assert_eq!(ctx.calculate_path(), vec![b"docs".to_vec(), b"notes.txt".to_vec()]);

    let mut docs = Directory::new();
    docs.insert(b"notes.txt".to_vec(), file(1, vv(&[(b"me", 1)])));
    assert_eq!(docs.bump_entry(b"notes.txt", b"me"), Ok(()));
    assert_eq!(docs.bump_entry(b"notes.txt", b"you"), Ok(()));
    let e = docs.lookup(b"notes.txt").unwrap();
    assert_eq!((e.vv.get(b"me"), e.vv.get(b"you")), (2, 1));
    assert_eq!(e.blob_id, [1; 32]);
    assert_eq!(docs.bump_entry(b"missing", b"me"), Err(Error::EntryNotFound));
}

#[test]
fn block_requests_and_root_branches() {
    assert_eq!(block_request_mode(AccessMode::Blind), BlockRequestMode::Greedy);
    assert_eq!(block_request_mode(AccessMode::Read), BlockRequestMode::Lazy);
    assert_eq!(block_request_mode(AccessMode::Write), BlockRequestMode::Lazy);

    let me = WriterId([1; 32]);
    let other = WriterId([2; 32]);
    let writable = Branch { id: me, writable: true };
    assert_eq!(branches_to_open(&vec![other], &writable), vec![other, me]);
    assert_eq!(branches_to_open(&vec![me, other], &writable), vec![me, other]);
    let readable = Branch { id: me, writable: false };
    assert_eq!(branches_to_open(&vec![other], &readable), vec![other]);

    assert!(skips_branch(RootOpenError::BranchNotFound));
    assert!(skips_branch(RootOpenError::BlockNotFound));
    assert!(!skips_branch(RootOpenError::Other));
}
