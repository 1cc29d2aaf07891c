use ouisync::blob::{block_count, Blob, BlockStore, Core, MaybeInitShared, SeekFrom, Shared, HEADER_SIZE};
use ouisync::cursor::BLOCK_SIZE;
use ouisync::error::Error;
use ouisync::fork::BranchBlobs;

fn pseudo_random_bytes(len: usize, seed: u64) -> Vec<u8> {
    let mut state = seed;
    (0..len)
        .map(|_| {
            state = state
                .wrapping_mul(6364136223846793005)
                .wrapping_add(1442695040888963407);
            (state >> 33) as u8
        })
        .collect()
}

fn write_flush_reopen(content: &[u8], chunk: usize) -> Blob {
    let mut blob = Blob::create();
    for part in content.chunks(chunk.max(1)) {
        blob.write(part).unwrap();
    }
    blob.flush();
    Blob::open(blob.into_store()).unwrap()
}

fn read_all(blob: &mut Blob, chunk: usize) -> Vec<u8> {
    let mut out = Vec::new();
    let mut buffer = vec![0u8; chunk];
    loop {
        let n = blob.read(&mut buffer);
        if n == 0 {
            break;
        }
        out.extend_from_slice(&buffer[..n]);
    }
    out
}

#[test]
fn empty_blob() {
    let mut blob = Blob::create();
    blob.flush();

    // Re-open the blob and read its contents.
    let mut blob = Blob::open(blob.into_store()).unwrap();

    let mut buffer = vec![0; 1];
    assert_eq!(blob.read(&mut buffer), 0);
}

#[test]
fn empty_file_round_trip() {
    let mut blob = write_flush_reopen(&[], 1);
    assert_eq!(blob.len(), 0);
    let mut buffer = vec![0u8; 32];
    assert_eq!(blob.read(&mut buffer), 0);
}

#[test]
fn write_and_read_in_chunks() {
    for &(blob_len, write_len, read_len, seed) in &[
        (1usize, 1usize, 2usize, 1u64),
        (100, 7, 13, 2),
        (BLOCK_SIZE - HEADER_SIZE, 100, 4096, 3),
        (BLOCK_SIZE - HEADER_SIZE + 1, 4064, 1, 4),
        (3 * BLOCK_SIZE - 1, 1000, 999, 5),
        (2 * BLOCK_SIZE, 4096, 4097, 6),
    ] {
        let content = pseudo_random_bytes(blob_len, seed);
        let mut blob = write_flush_reopen(&content, write_len);
        assert_eq!(blob.len(), blob_len as u64);
        assert_eq!(read_all(&mut blob, read_len), content);
    }
}

#[test]
fn large_write_with_small_chunks() {
    let content = pseudo_random_bytes(1024 * 1024, 0x42);
    let sum_before: u64 = content.iter().map(|&b| b as u64).sum();
    let mut blob = write_flush_reopen(&content, 4096);
    assert_eq!(blob.len(), 1_048_576);
    let read = read_all(&mut blob, 4096);
    let sum_after: u64 = read.iter().map(|&b| b as u64).sum();
    assert_eq!(sum_before, sum_after);
    assert_eq!(read, content);
}

#[test]
fn len_before_and_after_flush() {
    for &len in &[0usize, 1, 4064, 4065, 3 * BLOCK_SIZE - 1] {
        let content = pseudo_random_bytes(len, len as u64);
        let mut blob = Blob::create();
        blob.write(&content).unwrap();
        assert_eq!(blob.len(), len as u64);
        blob.flush();
        assert_eq!(blob.len(), len as u64);
        let blob = Blob::open(blob.into_store()).unwrap();
        assert_eq!(blob.len(), len as u64);
    }
}

#[test]
fn stored_block_count_matches_length() {
    for &(len, blocks) in &[
        (0usize, 1usize),
        (4064, 1),
        (4065, 2),
        (8160, 2),
        (8161, 3),
    ] {
        let mut blob = Blob::create();
        blob.write(&vec![7u8; len]).unwrap();
        blob.flush();
        assert_eq!(blob.block_count() as usize, blocks);
        assert_eq!(blob.into_store().count_blocks(), blocks);
    }
    assert_eq!(block_count(0), 1);
    assert_eq!(block_count(4064), 1);
    assert_eq!(block_count(4065), 2);
    assert_eq!(block_count(u64::MAX), u32::MAX);
}

#[test]
fn seek_and_read() {
    let content = pseudo_random_bytes(5 * BLOCK_SIZE / 2, 9);
    let mut blob = Blob::create();
    blob.write(&content).unwrap();
    blob.flush();

    let mut buffer = vec![0; 1024];
    assert_eq!(blob.read(&mut buffer), 0);

    for &offset in &[
        0u64,
        1,
        2,
        3,
        100,
        1014,
        BLOCK_SIZE as u64,
        2 * BLOCK_SIZE as u64,
        content.len() as u64 - 2,
        content.len() as u64 - 1,
        content.len() as u64,
    ] {
        assert_eq!(blob.seek(SeekFrom::Start(offset)), offset);
        assert_eq!(blob.seek(SeekFrom::Start(offset)), offset);
        let len = blob.read(&mut buffer);
        assert_eq!(len, buffer.len().min(content.len() - offset as usize));
        assert_eq!(buffer[..len], content[offset as usize..offset as usize + len]);
    }

    let len = content.len() as u64;
    assert_eq!(blob.seek(SeekFrom::Start(len + 1)), len);
    assert_eq!(blob.seek(SeekFrom::End(0)), len);
    assert_eq!(blob.seek(SeekFrom::End(-1)), len - 1);
    assert_eq!(blob.seek(SeekFrom::End(-(len as i64))), 0);
    assert_eq!(blob.seek(SeekFrom::End(-(len as i64) - 1)), 0);
    assert_eq!(blob.seek(SeekFrom::End(1)), len);
    assert_eq!(blob.seek(SeekFrom::End(i64::MIN)), 0);

    blob.seek(SeekFrom::Start(0));
    assert_eq!(blob.seek(SeekFrom::Current(0)), 0);
    assert_eq!(blob.seek(SeekFrom::Current(1)), 1);
    assert_eq!(blob.seek(SeekFrom::Current(1)), 2);
    assert_eq!(blob.seek(SeekFrom::Current(-1)), 1);
    assert_eq!(blob.seek(SeekFrom::Current(-2)), 0);
    assert_eq!(blob.seek(SeekFrom::Current(len as i64 + 1)), len);
}

#[test]
fn overwrite_in_the_middle_keeps_length() {
    let content = pseudo_random_bytes(3 * BLOCK_SIZE, 11);
    let mut blob = Blob::create();
    blob.write(&content).unwrap();
    blob.seek(SeekFrom::Start(4000));
    let patch: Vec<u8> = (1..=100).collect();
    blob.write(&patch).unwrap();
    blob.flush();
    let mut expected = content.clone();
    for (i, b) in expected[4000..4100].iter_mut().enumerate() {
        *b = i as u8 + 1;
    }
    let mut blob = Blob::open(blob.into_store()).unwrap();
    assert_eq!(blob.len(), content.len() as u64);
    assert_eq!(read_all(&mut blob, 777), expected);
}

#[test]
fn overwrite_after_reopen_and_extend() {
    let mut blob = write_flush_reopen(b"hello world", 4);
    blob.seek(SeekFrom::End(0));
    blob.write(b", again").unwrap();
    blob.seek(SeekFrom::Start(0));
    blob.write(b"J").unwrap();
    blob.flush();
    let mut blob = Blob::open(blob.into_store()).unwrap();
    assert_eq!(read_all(&mut blob, 5), b"Jello world, again".to_vec());
}

#[test]
fn open_rejects_bad_stores() {
    assert_eq!(Blob::open(BlockStore::new()).err(), Some(Error::BlockNotFound));

    let mut blob = Blob::create();
    blob.write(&vec![1u8; 5000]).unwrap();
    blob.flush();
    let mut store = blob.into_store();
    store.blocks.pop();
    assert_eq!(Blob::open(store).err(), Some(Error::Corrupt));

    let mut short = BlockStore::new();
    short.blocks.push(vec![0u8; 10]);
    assert_eq!(Blob::open(short).err(), Some(Error::Corrupt));
}

#[test]
fn nonce_prefix_survives_reopen() {
    let mut blob = Blob::create();
    let prefix = blob.nonce_prefix().clone();
    assert_eq!(prefix.len(), 24);
    blob.flush();
    let blob = Blob::open(blob.into_store()).unwrap();
    assert_eq!(blob.nonce_prefix(), &prefix);
    let other = Blob::create();
    assert_ne!(other.nonce_prefix(), &prefix);
}

#[test]
fn quota_limits_blocks() {
    assert_eq!(Blob::create_with_quota(100).err(), Some(Error::QuotaExceeded));
    let mut blob = Blob::create_with_quota(2 * BLOCK_SIZE as u64).unwrap();
    // Two blocks hold the header and 8160 payload bytes.
    blob.write(&vec![1u8; 8000]).unwrap();
    assert_eq!(blob.write(&vec![2u8; 161]), Err(Error::QuotaExceeded));
    assert_eq!(blob.len(), 8000);
    blob.write(&vec![3u8; 160]).unwrap();
    assert_eq!(blob.len(), 8160);
    assert_eq!(blob.write(&[4u8]), Err(Error::QuotaExceeded));
    // Overwriting inside the blob needs no new block.
    blob.seek(SeekFrom::Start(0));
    blob.write(&vec![5u8; 100]).unwrap();
    blob.flush();
    let store = blob.into_store();
    assert_eq!(store.quota, 2 * BLOCK_SIZE as u64);
    assert_eq!(store.size(), 2 * BLOCK_SIZE as u64);
    let mut blob = Blob::open(store).unwrap();
    let mut buffer = vec![0u8; 8160];
    assert_eq!(blob.read(&mut buffer), 8160);
    assert_eq!(buffer[0], 5);
    assert_eq!(buffer[8159], 3);
}

#[test]
fn open_checks_quota() {
    let mut blob = Blob::create();
    blob.write(&vec![1u8; 5000]).unwrap();
    blob.flush();
    let mut store = blob.into_store();
    store.quota = BLOCK_SIZE as u64;
    assert_eq!(Blob::open(store).err(), Some(Error::QuotaExceeded));
}

#[test]
fn fork_twice_is_fork_once() {
    let mut blob = Blob::create();
    blob.write(b"forked content").unwrap();
    blob.flush();
    let blocks = blob.into_store().blocks;

    let mut branch = BranchBlobs::new();
    assert_eq!(branch.fork(&[1; 32], &blocks), Ok(()));
    assert_eq!(branch.get(&[1; 32]), Some(&blocks));
    assert_eq!(branch.fork(&[1; 32], &blocks), Ok(()));
    assert_eq!(branch.get(&[1; 32]), Some(&blocks));

    let mut other = blocks.clone();
    other[0][40] ^= 1;
    assert_eq!(branch.fork(&[1; 32], &other), Err(Error::EntryExists));
    assert_eq!(branch.get(&[1; 32]), Some(&blocks));
    assert_eq!(branch.get(&[2; 32]), None);
}

#[test]
fn truncate_shrinks_and_grows_with_zeros() {
    let content = pseudo_random_bytes(3 * BLOCK_SIZE, 21);
    let mut blob = Blob::create();
    blob.write(&content).unwrap();
    // Shrinking moves the position back to the new end.
    blob.truncate(5000).unwrap();
    assert_eq!(blob.len(), 5000);
    assert_eq!(blob.seek(SeekFrom::Current(0)), 5000);
    blob.flush();
    assert_eq!(blob.block_count(), 2);

    // Growing pads with zeros, even over bytes that were cut before.
    blob.seek(SeekFrom::Start(10));
    blob.truncate(9000).unwrap();
    assert_eq!(blob.len(), 9000);
    assert_eq!(blob.seek(SeekFrom::Current(0)), 10);
    blob.flush();
    let mut blob = Blob::open(blob.into_store()).unwrap();
    let mut buffer = vec![0u8; 9000];
    assert_eq!(blob.read(&mut buffer), 9000);
    assert_eq!(&buffer[..5000], &content[..5000]);
    assert!(buffer[5000..].iter().all(|&b| b == 0));

    let mut small = Blob::create_with_quota(BLOCK_SIZE as u64).unwrap();
    assert_eq!(small.truncate(5000), Err(Error::QuotaExceeded));
    assert_eq!(small.len(), 0);
    small.truncate(4064).unwrap();
    assert_eq!(small.len(), 4064);
    small.truncate(0).unwrap();
    assert_eq!(small.len(), 0);
}

#[test]
fn shared_length_initialisation() {
    let fresh = Shared::uninit();
    assert_eq!(fresh.ensure_init(77).len, 77);
    let known = MaybeInitShared::from(Shared::uninit().assume_init().deep_clone());
    assert_eq!(known.ensure_init(5).len, 0);
    let copy = Shared::uninit().ensure_init(10).deep_clone();
    assert_eq!(copy.len, 10);
    assert_eq!(copy.block_count(), 1);
    assert_eq!(Core { len: 4065, len_dirty: false }.block_count(), 2);
}
