//! Variable-length byte streams laid out over fixed-size blocks.
//!
//! The first block of a blob starts with a header holding the nonce prefix and the blob's
//! length; the payload follows it and continues through the later blocks. A blob keeps one
//! block in memory (the current block) together with the read/write position inside it;
//! moving to another block first writes the current one back if it was modified. Blocks
//! are stored in plaintext: this layer applies no cipher.

use vstd::prelude::*;
use vstd::bytes::{spec_u64_from_le_bytes, spec_u64_to_le_bytes, lemma_auto_spec_u64_to_from_le_bytes};
use vstd::arithmetic::div_mod::{lemma_fundamental_div_mod, lemma_fundamental_div_mod_converse};
use crate::cursor::{Buffer, Cursor, BLOCK_SIZE, overwrite};
use crate::error::Error;
use vstd::slice::slice_subrange;

verus! {

/// Size of the nonce prefix at the start of a blob's first block.
pub const NONCE_PREFIX_SIZE: usize = 24;

/// Size of the blob header: the nonce prefix followed by the length as a little-endian `u64`.
pub const HEADER_SIZE: usize = 32;

/// Largest length of a blob: its blocks must be numbered by a `u32`, with one number to spare.
pub const MAX_BLOB_LEN: u64 = 0xFFFF_FFFE * 4096 - 32;

/// Number of blocks that a blob of `len` payload bytes occupies, header included.
pub open spec fn blocks_for(len: int) -> int {
    (len + HEADER_SIZE + BLOCK_SIZE - 1) / (BLOCK_SIZE as int)
}

/// Block that holds payload byte `i`.
pub open spec fn block_of(i: int) -> int {
    (i + HEADER_SIZE) / (BLOCK_SIZE as int)
}

/// Offset of payload byte `i` inside its block.
pub open spec fn offset_of(i: int) -> int {
    (i + HEADER_SIZE) % (BLOCK_SIZE as int)
}

/// Length recorded in the header of a first block.
pub open spec fn header_len(head: Seq<u8>) -> u64 {
    spec_u64_from_le_bytes(head.subrange(NONCE_PREFIX_SIZE as int, HEADER_SIZE as int))
}

/// Whether `blocks` is a stored blob: at least one block, every block full-sized, and as
/// many blocks as the length in the header needs.
pub open spec fn store_valid(blocks: Seq<Seq<u8>>) -> bool {
    &&& blocks.len() >= 1
    &&& forall|k: int| 0 <= k < blocks.len() ==> #[trigger] blocks[k].len() == BLOCK_SIZE
    &&& header_len(blocks[0]) <= MAX_BLOB_LEN
    &&& blocks_for(header_len(blocks[0]) as int) == blocks.len()
}

/// Payload of the blob stored in `blocks`.
pub open spec fn stored_content(blocks: Seq<Seq<u8>>) -> Seq<u8> {
    Seq::new(header_len(blocks[0]) as nat, |i: int| blocks[block_of(i)][offset_of(i)])
}

/// `s` after writing `src` at position `at`: the bytes there are replaced and `s` grows
/// where `src` runs past its end.
pub open spec fn splice(s: Seq<u8>, at: int, src: Seq<u8>) -> Seq<u8> {
    Seq::new(
        (if at + src.len() > s.len() { at + src.len() } else { s.len() as int }) as nat,
        |i: int| if at <= i < at + src.len() { src[i - at] } else { s[i] },
    )
}

/// Length of a payload of length `len` after a write that ends at `end`.
pub open spec fn grown_len(len: int, end: int) -> int {
    if end > len {
        end
    } else {
        len
    }
}

/// Where to seek from.
#[derive(Clone, Copy, Debug, PartialEq, Eq, Structural)]
pub enum SeekFrom {
    Start(u64),
    End(i64),
    Current(i64),
}

/// Position that a seek from `from` reaches in a blob of length `len` whose position is
/// `position`: the requested offset clamped to `[0, len]`.
pub open spec fn seek_target(position: int, len: int, from: SeekFrom) -> int {
    let target = match from {
        SeekFrom::Start(n) => n as int,
        SeekFrom::End(n) => len + n,
        SeekFrom::Current(n) => position + n,
    };
    if target < 0 {
        0
    } else if target > len {
        len
    } else {
        target
    }
}

proof fn lemma_block_offset(k: int, off: int)
    requires
        0 <= off < BLOCK_SIZE,
    ensures
        (k * BLOCK_SIZE + off) / (BLOCK_SIZE as int) == k,
        (k * BLOCK_SIZE + off) % (BLOCK_SIZE as int) == off,
{
    lemma_fundamental_div_mod_converse(k * BLOCK_SIZE + off, BLOCK_SIZE as int, k, off);
}

proof fn lemma_div(x: int)
    ensures
        x == (BLOCK_SIZE as int) * (x / (BLOCK_SIZE as int)) + x % (BLOCK_SIZE as int),
        0 <= x % (BLOCK_SIZE as int) < BLOCK_SIZE,
{
    lemma_fundamental_div_mod(x, BLOCK_SIZE as int);
}

/// Where payload byte `i` of a blob of length `len` lies.
proof fn lemma_block_of(i: int, len: int)
    requires
        0 <= i < len,
    ensures
        0 <= block_of(i) < blocks_for(len),
        0 <= offset_of(i) < BLOCK_SIZE,
        i + HEADER_SIZE == block_of(i) * BLOCK_SIZE + offset_of(i),
        block_of(i) == 0 ==> offset_of(i) >= HEADER_SIZE,
{
    lemma_div(i + HEADER_SIZE);
    lemma_div(len + HEADER_SIZE + BLOCK_SIZE - 1);
}

/// How the number of blocks relates to a block number `k`.
proof fn lemma_blocks_for(k: int, len: int)
    requires
        0 <= len,
        0 <= k,
    ensures
        k * BLOCK_SIZE < len + HEADER_SIZE <==> k < blocks_for(len),
        blocks_for(len) >= 1,
{
    lemma_div(len + HEADER_SIZE + BLOCK_SIZE - 1);
}

proof fn lemma_blocks_for_monotonic(a: int, b: int)
    requires
        0 <= a <= b,
    ensures
        blocks_for(a) <= blocks_for(b),
{
    lemma_div(a + HEADER_SIZE + BLOCK_SIZE - 1);
    lemma_div(b + HEADER_SIZE + BLOCK_SIZE - 1);
}

/// The magnitude of a negative `i64`.
fn magnitude(n: i64) -> (r: u64)
    requires
        n < 0,
    ensures
        r as int == -n,
{
    (-(n + 1)) as u64 + 1
}

/// Blocks of one blob, indexed by their number within it, with the largest number of
/// bytes they may take.
pub struct BlockStore {
    pub blocks: Vec<Vec<u8>>,
    pub quota: u64,
}

impl View for BlockStore {
    type V = Seq<Seq<u8>>;

    open spec fn view(&self) -> Seq<Seq<u8>> {
        self.blocks@.map_values(|b: Vec<u8>| b@)
    }
}

impl BlockStore {
    /// A store with no blocks and no quota.
    pub fn new() -> (r: BlockStore)
        ensures
            r@ == Seq::<Seq<u8>>::empty(),
            r.quota == u64::MAX,
    {
        BlockStore::with_quota(u64::MAX)
    }

    /// A store with no blocks whose blocks may take at most `quota` bytes.
    pub fn with_quota(quota: u64) -> (r: BlockStore)
        ensures
            r@ == Seq::<Seq<u8>>::empty(),
            r.quota == quota,
    {
        let r = BlockStore { blocks: Vec::new(), quota };
        assert(r@ =~= Seq::<Seq<u8>>::empty());
        r
    }

    /// Bytes the stored blocks take.
    pub fn size(&self) -> (r: u64)
        requires
            self@.len() * BLOCK_SIZE <= u64::MAX,
        ensures
            r == self@.len() * BLOCK_SIZE,
    {
        self.blocks.len() as u64 * BLOCK_SIZE as u64
    }

    /// Number of blocks stored.
    pub fn count_blocks(&self) -> (r: usize)
        ensures
            r == self@.len(),
    {
        self.blocks.len()
    }
}

/// Relies on rand::random: an array of bytes drawn from the thread-local generator.
#[verifier::external_body]
fn random_nonce_prefix() -> (r: Vec<u8>)
    ensures
        r@.len() == NONCE_PREFIX_SIZE,
{
    rand::random::<[u8; NONCE_PREFIX_SIZE]>().to_vec()
}

/// Number of blocks of a blob of `len` bytes, including a partly filled last block; at most
/// `u32::MAX`.
pub fn block_count(len: u64) -> (r: u32)
    ensures
        r as int == if blocks_for(len as int) <= u32::MAX {
            blocks_for(len as int)
        } else {
            u32::MAX as int
        },
{
    let q = len / (BLOCK_SIZE as u64);
    let r = len % (BLOCK_SIZE as u64);
    proof {
        lemma_div(len as int);
        lemma_div(r + HEADER_SIZE + BLOCK_SIZE - 1);
        lemma_div(len + HEADER_SIZE + BLOCK_SIZE - 1);
    }
    let count = q + (r + HEADER_SIZE as u64 + BLOCK_SIZE as u64 - 1) / (BLOCK_SIZE as u64);
    if count <= u32::MAX as u64 {
        count as u32
    } else {
        u32::MAX
    }
}

/// Length of a blob together with whether the header still has to be updated to it.
pub struct Core {
    pub len: u64,
    pub len_dirty: bool,
}

impl Core {
    /// Number of blocks of the blob, including a partly filled last block.
    pub fn block_count(&self) -> (r: u32)
        ensures
            r as int == if blocks_for(self.len as int) <= u32::MAX {
                blocks_for(self.len as int)
            } else {
                u32::MAX as int
            },
    {
        block_count(self.len)
    }
}

/// The block a blob has in memory.
struct OpenBlock {
    /// Number of the block within the blob; the first block is 0.
    number: u32,
    /// Plaintext content and the position inside it.
    content: Cursor,
    /// Whether the content changed since it was last loaded or stored.
    dirty: bool,
}

impl OpenBlock {
    fn next_number(&self) -> (r: u32)
        requires
            self.number < u32::MAX,
        ensures
            r == self.number + 1,
    {
        self.number + 1
    }
}

/// A blob: a byte sequence of any length up to `MAX_BLOB_LEN`, stored in blocks.
pub struct Blob {
    store: BlockStore,
    nonce_prefix: Vec<u8>,
    current_block: OpenBlock,
    len: u64,
    len_dirty: bool,
}

impl Blob {
    /// Content of block `k` as the blob sees it: the block in memory, or the stored one.
    pub closed spec fn block_at(&self, k: int) -> Seq<u8> {
        if k == self.current_block.number {
            self.current_block.content.buffer@
        } else {
            self.store@[k]
        }
    }

    /// The payload.
    pub closed spec fn content(&self) -> Seq<u8> {
        Seq::new(self.len as nat, |i: int| self.block_at(block_of(i))[offset_of(i)])
    }

    /// Length of the payload.
    pub closed spec fn spec_len(&self) -> int {
        self.len as int
    }

    /// Read/write position, from the start of the payload.
    pub closed spec fn position(&self) -> int {
        self.current_block.number * BLOCK_SIZE + self.current_block.content.pos - HEADER_SIZE
    }

    /// What the store holds.
    pub closed spec fn stored(&self) -> Seq<Seq<u8>> {
        self.store@
    }

    /// Largest number of bytes the blocks of the store may take.
    pub closed spec fn spec_quota(&self) -> u64 {
        self.store.quota
    }

    /// Whether everything written has reached the store.
    pub closed spec fn is_flushed(&self) -> bool {
        !self.current_block.dirty
    }

    /// Nonce prefix of the blob.
    pub closed spec fn spec_nonce_prefix(&self) -> Seq<u8> {
        self.nonce_prefix@
    }

    pub closed spec fn wf(&self) -> bool {
        let number = self.current_block.number as int;
        let pos = self.current_block.content.pos as int;
        let n = self.store@.len();
        let count = blocks_for(self.len as int);
        &&& self.nonce_prefix@.len() == NONCE_PREFIX_SIZE
        &&& self.len <= MAX_BLOB_LEN
        &&& count * BLOCK_SIZE <= self.store.quota
        &&& forall|k: int| 0 <= k < n ==> #[trigger] self.store@[k].len() == BLOCK_SIZE
        &&& self.current_block.content.buffer@.len() == BLOCK_SIZE
        &&& pos <= BLOCK_SIZE
        &&& number == 0 ==> pos >= HEADER_SIZE
        &&& self.position() <= self.len
        &&& number <= n
        &&& n <= count
        &&& count <= n + 1
        &&& count == n + 1 ==> number == n && self.current_block.dirty
        &&& self.current_block.dirty ==> number < count
        &&& !self.current_block.dirty && number < n ==> self.current_block.content.buffer@
            == self.store@[number]
        &&& self.len_dirty ==> self.current_block.dirty
        &&& !self.len_dirty ==> header_len(self.block_at(0)) == self.len
    }
}

impl Blob {
    /// Creates an empty blob over an empty store without quota, with a fresh random nonce
    /// prefix.
    pub fn create() -> (r: Blob)
        ensures
            r.wf(),
            r.content() == Seq::<u8>::empty(),
            r.position() == 0,
            r.stored() == Seq::<Seq<u8>>::empty(),
            r.spec_quota() == u64::MAX,
    {
        Blob::create_in(BlockStore::new())
    }

    /// Creates an empty blob over an empty store whose blocks may take at most `quota`
    /// bytes. Fails with `QuotaExceeded` when not even the first block fits.
    pub fn create_with_quota(quota: u64) -> (r: Result<Blob, Error>)
        ensures
            r is Ok <==> quota >= BLOCK_SIZE,
            r is Err ==> r == Err::<Blob, Error>(Error::QuotaExceeded),
            r matches Ok(b) ==> b.wf() && b.content() == Seq::<u8>::empty() && b.position() == 0
                && b.stored() == Seq::<Seq<u8>>::empty() && b.spec_quota() == quota,
    {
        if quota < BLOCK_SIZE as u64 {
            return Err(Error::QuotaExceeded);
        }
        Ok(Blob::create_in(BlockStore::with_quota(quota)))
    }

    fn create_in(store: BlockStore) -> (r: Blob)
        requires
            store@.len() == 0,
            store.quota >= BLOCK_SIZE,
        ensures
            r.wf(),
            r.content() == Seq::<u8>::empty(),
            r.position() == 0,
            r.stored() == store@,
            r.spec_quota() == store.quota,
    {
        let nonce_prefix = random_nonce_prefix();
        let mut content = Cursor::new(Buffer::new());
        content.write(nonce_prefix.as_slice(), 0);
        content.write_u64(0);
        let ghost buffer = content.buffer@;
        proof {
            lemma_auto_spec_u64_to_from_le_bytes();
            assert(buffer.subrange(NONCE_PREFIX_SIZE as int, HEADER_SIZE as int)
                =~= spec_u64_to_le_bytes(0));
            lemma_blocks_for(0, 0);
            assert(blocks_for(0) == 1);
        }
        let r = Blob {
            store,
            nonce_prefix,
            current_block: OpenBlock { number: 0, content, dirty: true },
            len: 0,
            len_dirty: false,
        };
        assert(r.content() =~= Seq::<u8>::empty());
        r
    }

    /// Length of the payload in bytes.
    pub fn len(&self) -> (r: u64)
        ensures
            r == self.spec_len(),
            r == self.content().len(),
    {
        self.len
    }

    /// Number of blocks of this blob, including a partly filled last block.
    pub fn block_count(&self) -> (r: u32)
        requires
            self.wf(),
        ensures
            r as int == blocks_for(self.spec_len()),
    {
        proof {
            lemma_div(self.len + HEADER_SIZE + BLOCK_SIZE - 1);
        }
        block_count(self.len)
    }

    /// Current position, from the start of the payload.
    pub fn seek_position(&self) -> (r: u64)
        requires
            self.wf(),
        ensures
            r == self.position(),
    {
        proof {
            lemma_blocks_for(self.current_block.number as int, self.len as int);
            lemma_div(self.len + HEADER_SIZE + BLOCK_SIZE - 1);
        }
        self.current_block.number as u64 * BLOCK_SIZE as u64 + self.current_block.content.pos as u64
            - HEADER_SIZE as u64
    }

    /// Size of the header at the start of the first block.
    pub fn header_size(&self) -> (r: usize)
        ensures
            r == HEADER_SIZE,
    {
        NONCE_PREFIX_SIZE + 8
    }

    /// Nonce prefix of this blob.
    pub fn nonce_prefix(&self) -> (r: &Vec<u8>)
        ensures
            r@ == self.spec_nonce_prefix(),
    {
        &self.nonce_prefix
    }

    /// Hands over the store that this blob writes to.
    pub fn into_store(self) -> (r: BlockStore)
        ensures
            r@ == self.stored(),
            r.quota == self.spec_quota(),
    {
        self.store
    }

    /// Writes the current length into the header of the first block.
    fn write_len(&mut self)
        requires
            old(self).wf(),
            old(self).current_block.dirty,
        ensures
            final(self).store.quota == old(self).store.quota,
            final(self).wf(),
            !final(self).len_dirty,
            final(self).content() == old(self).content(),
            final(self).len == old(self).len,
            final(self).current_block.dirty,
            final(self).current_block.number == old(self).current_block.number,
            final(self).current_block.content.pos == old(self).current_block.content.pos,
            final(self).store@.len() == old(self).store@.len(),
            final(self).nonce_prefix@ == old(self).nonce_prefix@,
            forall|k: int|
                0 < k < old(self).store@.len() ==> #[trigger] final(self).store@[k]
                    == old(self).store@[k],
    {
        if !self.len_dirty {
            return;
        }
        let ghost before = *self;
        proof {
            lemma_auto_spec_u64_to_from_le_bytes();
        }
        if self.current_block.number == 0 {
            let old_pos = self.current_block.content.pos;
            self.current_block.content.pos = NONCE_PREFIX_SIZE;
            self.current_block.content.write_u64(self.len);
            self.current_block.content.pos = old_pos;
            assert(self.block_at(0).subrange(NONCE_PREFIX_SIZE as int, HEADER_SIZE as int)
                =~= spec_u64_to_le_bytes(self.len));
        } else {
            assert(self.store@[0] == self.store.blocks@[0]@);
            let mut cursor = Cursor::new(Buffer::from_bytes(&self.store.blocks[0]));
            cursor.pos = NONCE_PREFIX_SIZE;
            cursor.write_u64(self.len);
            self.store.blocks.set(0, cursor.buffer.bytes);
            assert forall|k: int| 0 <= k < self.store@.len() implies #[trigger] self.store@[k]
                == if k == 0 { self.store@[0] } else { before.store@[k] } by {
                assert(self.store@[k] == self.store.blocks@[k]@);
                assert(before.store@[k] == before.store.blocks@[k]@);
            }
            assert(self.store@[0].subrange(NONCE_PREFIX_SIZE as int, HEADER_SIZE as int)
                =~= spec_u64_to_le_bytes(self.len));
        }
        self.len_dirty = false;
        proof {
            assert forall|i: int| 0 <= i < self.len implies #[trigger] self.content()[i]
                == before.content()[i] by {
                lemma_block_of(i, self.len as int);
            }
            assert(self.content() =~= before.content());
        }
    }

    /// Writes the current block to the store if it was modified.
    fn flush_in(&mut self)
        requires
            old(self).wf(),
        ensures
            final(self).store.quota == old(self).store.quota,
            final(self).wf(),
            final(self).is_flushed(),
            final(self).content() == old(self).content(),
            final(self).len == old(self).len,
            final(self).current_block.number == old(self).current_block.number,
            final(self).current_block.content.pos == old(self).current_block.content.pos,
            final(self).nonce_prefix@ == old(self).nonce_prefix@,
            final(self).store@.len() == blocks_for(final(self).len as int),
            store_valid(final(self).store@),
            stored_content(final(self).store@) == old(self).content(),
    {
        let ghost before = *self;
        if self.current_block.dirty {
            self.write_len();
            let number = self.current_block.number as usize;
            let bytes = self.current_block.content.buffer.to_vec();
            let ghost mid = *self;
            if number < self.store.blocks.len() {
                self.store.blocks.set(number, bytes);
            } else {
                self.store.blocks.push(bytes);
            }
            self.current_block.dirty = false;
            assert forall|k: int| 0 <= k < self.store@.len() implies #[trigger] self.store@[k]
                == if k == number { self.current_block.content.buffer@ } else { mid.store@[k] } by {
                assert(self.store@[k] == self.store.blocks@[k]@);
                if k < mid.store@.len() {
                    assert(mid.store@[k] == mid.store.blocks@[k]@);
                }
            }
        }
        proof {
            let n = self.store@.len();
            assert(forall|k: int| 0 <= k < n ==> #[trigger] self.block_at(k) == self.store@[k]);
            assert forall|i: int| 0 <= i < self.len implies #[trigger] self.content()[i]
                == before.content()[i] by {
                lemma_block_of(i, self.len as int);
            }
            assert(self.content() =~= before.content());
            assert forall|i: int| 0 <= i < self.len implies #[trigger] stored_content(
                self.store@,
            )[i] == self.content()[i] by {
                lemma_block_of(i, self.len as int);
            }
            assert(stored_content(self.store@) =~= self.content());
        }
    }

    /// Writes everything buffered so far to the store.
    pub fn flush(&mut self)
        requires
            old(self).wf(),
        ensures
            final(self).wf(),
            final(self).is_flushed(),
            final(self).content() == old(self).content(),
            final(self).position() == old(self).position(),
            final(self).spec_nonce_prefix() == old(self).spec_nonce_prefix(),
            final(self).spec_quota() == old(self).spec_quota(),
            final(self).spec_len() == old(self).spec_len(),
            final(self).stored().len() == blocks_for(final(self).spec_len()),
            final(self).stored().len() * BLOCK_SIZE <= final(self).spec_quota(),
            store_valid(final(self).stored()),
            stored_content(final(self).stored()) == final(self).content(),
    {
        self.flush_in();
    }

    /// Makes block `number` the current block, writing the previous one back first if it was
    /// modified. The position moves to the start of the block's payload.
    fn replace_current_block(&mut self, number: u32)
        requires
            old(self).wf(),
            number * BLOCK_SIZE <= old(self).len + HEADER_SIZE,
        ensures
            final(self).store.quota == old(self).store.quota,
            final(self).wf(),
            final(self).content() == old(self).content(),
            final(self).len == old(self).len,
            final(self).nonce_prefix@ == old(self).nonce_prefix@,
            final(self).current_block.number == number,
            !final(self).current_block.dirty,
            final(self).store@.len() == blocks_for(final(self).len as int),
            final(self).current_block.content.pos == if number == 0 {
                HEADER_SIZE as int
            } else {
                0
            },
    {
        self.flush_in();
        let ghost flushed = *self;
        proof {
            lemma_blocks_for(number as int, self.len as int);
        }
        let buffer = if (number as usize) < self.store.blocks.len() {
            assert(self.store@[number as int] == self.store.blocks@[number as int]@);
            Buffer::from_bytes(&self.store.blocks[number as usize])
        } else {
            Buffer::new()
        };
        let pos = if number == 0 { HEADER_SIZE } else { 0 };
        let mut block = OpenBlock { number, content: Cursor { buffer, pos }, dirty: false };
        std::mem::swap(&mut self.current_block, &mut block);
        block.content.buffer.scrub();
        proof {
            let n = self.store@.len();
            assert(forall|k: int| 0 <= k < n ==> #[trigger] self.block_at(k) == self.store@[k]);
            assert forall|i: int| 0 <= i < self.len implies #[trigger] self.content()[i]
                == flushed.content()[i] by {
                lemma_block_of(i, self.len as int);
            }
            assert(self.content() =~= flushed.content());
        }
    }
}

impl Blob {
    /// Opens the blob kept in `store`. Fails with `BlockNotFound` when the store holds no
    /// block, with `Corrupt` when a block has the wrong size or the length in the header
    /// does not match the number of blocks, and with `QuotaExceeded` when the blocks take
    /// more than the store's quota.
    pub fn open(store: BlockStore) -> (r: Result<Blob, Error>)
        ensures
            r.is_ok() <==> store_valid(store@) && store@.len() * BLOCK_SIZE <= store.quota,
            match r {
                Ok(b) => {
                    &&& b.wf()
                    &&& b.content() == stored_content(store@)
                    &&& b.position() == 0
                    &&& b.stored() == store@
                    &&& b.is_flushed()
                    &&& b.spec_nonce_prefix() == store@[0].subrange(0, NONCE_PREFIX_SIZE as int)
                    &&& b.spec_quota() == store.quota
                },
                Err(e) => {
                    &&& e == Error::BlockNotFound <==> store@.len() == 0
                    &&& store@.len() > 0 && !store_valid(store@) ==> e == Error::Corrupt
                    &&& store_valid(store@) ==> e == Error::QuotaExceeded
                },
            },
    {
        let count = store.blocks.len();
        if count == 0 {
            return Err(Error::BlockNotFound);
        }
        let mut k: usize = 0;
        while k < count
            invariant
                k <= count,
                count == store@.len(),
                forall|j: int| 0 <= j < k ==> #[trigger] store@[j].len() == BLOCK_SIZE,
            decreases count - k,
        {
            assert(store@[k as int] == store.blocks@[k as int]@);
            if store.blocks[k].len() != BLOCK_SIZE {
                return Err(Error::Corrupt);
            }
            k = k + 1;
        }
        assert(store@[0] == store.blocks@[0]@);
        let mut content = Cursor::new(Buffer::from_bytes(&store.blocks[0]));
        let nonce_prefix = content.read_bytes(NONCE_PREFIX_SIZE);
        let len = content.read_u64();
        if len > MAX_BLOB_LEN {
            return Err(Error::Corrupt);
        }
        proof {
            lemma_div(len + HEADER_SIZE + BLOCK_SIZE - 1);
        }
        if block_count(len) as usize != count {
            return Err(Error::Corrupt);
        }
        if count as u64 > store.quota / (BLOCK_SIZE as u64) {
            return Err(Error::QuotaExceeded);
        }
        let b = Blob {
            store,
            nonce_prefix,
            current_block: OpenBlock { number: 0, content, dirty: false },
            len,
            len_dirty: false,
        };
        proof {
            assert(forall|k: int| 0 <= k < count ==> #[trigger] b.block_at(k) == b.store@[k]);
            assert forall|i: int| 0 <= i < len implies #[trigger] b.content()[i]
                == stored_content(b.store@)[i] by {
                lemma_block_of(i, len as int);
            }
            assert(b.content() =~= stored_content(b.store@));
        }
        Ok(b)
    }

    /// Reads from the current position into `buffer`, filling it from its start, and moves the
    /// position past what was read. Returns how many bytes were read: `buffer.len()`, or what
    /// is left of the payload if that is less.
    pub fn read(&mut self, buffer: &mut Vec<u8>) -> (n: usize)
        requires
            old(self).wf(),
        ensures
            final(self).wf(),
            n as int == if old(buffer)@.len() <= old(self).spec_len() - old(self).position() {
                old(buffer)@.len() as int
            } else {
                old(self).spec_len() - old(self).position()
            },
            final(buffer)@ == overwrite(
                old(buffer)@,
                0,
                old(self).content().subrange(old(self).position(), old(self).position() + n),
            ),
            final(self).content() == old(self).content(),
            final(self).spec_len() == old(self).spec_len(),
            final(self).position() == old(self).position() + n,
            final(self).spec_nonce_prefix() == old(self).spec_nonce_prefix(),
            final(self).spec_quota() == old(self).spec_quota(),
    {
        let ghost c0 = self.content();
        let ghost p0 = self.position();
        let mut total: usize = 0;
        assert(p0 >= 0);
        assert(buffer@ =~= overwrite(old(buffer)@, 0, c0.subrange(p0, p0)));
        while total < buffer.len() && self.seek_position() < self.len
            invariant
                self.wf(),
                self.content() == c0,
                self.len == old(self).len,
                self.nonce_prefix@ == old(self).nonce_prefix@,
                self.store.quota == old(self).store.quota,
                c0.len() == self.len,
                p0 >= 0,
                buffer@.len() == old(buffer)@.len(),
                total <= buffer@.len(),
                self.position() == p0 + total,
                buffer@ == overwrite(old(buffer)@, 0, c0.subrange(p0, p0 + total)),
            decreases self.len - self.position(),
        {
            if self.current_block.content.pos == BLOCK_SIZE {
                let number = self.current_block.next_number();
                self.replace_current_block(number);
            }
            let remaining = self.len - self.seek_position();
            let room = (buffer.len() - total) as u64;
            let want: usize = if room <= remaining {
                room as usize
            } else {
                remaining as usize
            };
            let ghost pre = *self;
            let ghost pre_buf = buffer@;
            let n = self.current_block.content.read(buffer, total, want);
            proof {
                let pos = pre.current_block.content.pos as int;
                let num = pre.current_block.number as int;
                assert forall|j: int| total <= j < total + n implies #[trigger] buffer@[j]
                    == c0[p0 + j] by {
                    lemma_block_offset(num, pos + (j - total));
                    assert(c0[p0 + j] == pre.content()[pre.position() + (j - total)]);
                }
                assert(pre.position() == p0 + total);
                assert(p0 + total + n <= c0.len());
                let goal = overwrite(old(buffer)@, 0, c0.subrange(p0, p0 + total + n));
                assert forall|j: int| 0 <= j < buffer@.len() implies #[trigger] buffer@[j]
                    == goal[j] by {
                    if j < total {
                        assert(buffer@[j] == pre_buf[j]);
                        assert(pre_buf[j] == c0.subrange(p0, p0 + total)[j]);
                        assert(goal[j] == c0.subrange(p0, p0 + total + n)[j]);
                    } else if j < total + n {
                        assert(goal[j] == c0.subrange(p0, p0 + total + n)[j]);
                        assert(buffer@[j] == c0[p0 + j]);
                    } else {
                        assert(buffer@[j] == pre_buf[j]);
                        assert(goal[j] == old(buffer)@[j]);
                    }
                }
                assert(buffer@ =~= goal);
                assert(self.content() =~= pre.content());
            }
            total = total + n;
        }
        total
    }

    /// Writes `src` at the current position, growing the payload where it runs past the end,
    /// and moves the position past it. Fails, changing nothing, with `InvalidArgument` when
    /// the payload would grow past `MAX_BLOB_LEN`, and with `QuotaExceeded` when its blocks
    /// would take more than the quota.
    pub fn write(&mut self, src: &[u8]) -> (r: Result<(), Error>)
        requires
            old(self).wf(),
        ensures
            final(self).wf(),
            final(self).spec_nonce_prefix() == old(self).spec_nonce_prefix(),
            final(self).spec_quota() == old(self).spec_quota(),
            r.is_ok() <==> old(self).position() + src@.len() <= MAX_BLOB_LEN && blocks_for(
                grown_len(old(self).spec_len(), old(self).position() + src@.len()),
            ) * BLOCK_SIZE <= old(self).spec_quota(),
            r == Err::<(), Error>(Error::InvalidArgument) <==> old(self).position() + src@.len()
                > MAX_BLOB_LEN,
            r == Err::<(), Error>(Error::QuotaExceeded) <==> old(self).position() + src@.len()
                <= MAX_BLOB_LEN && blocks_for(
                grown_len(old(self).spec_len(), old(self).position() + src@.len()),
            ) * BLOCK_SIZE > old(self).spec_quota(),
            r is Ok ==> final(self).spec_len() == grown_len(
                old(self).spec_len(),
                old(self).position() + src@.len(),
            ),
            r.is_ok() ==> final(self).content() == splice(
                old(self).content(),
                old(self).position(),
                src@,
            ) && final(self).position() == old(self).position() + src@.len(),
            r.is_err() ==> (r == Err::<(), Error>(Error::InvalidArgument) || r == Err::<(), Error>(
                Error::QuotaExceeded,
            )) && *final(self) == *old(self),
    {
        let start = self.seek_position();
        if src.len() as u64 > MAX_BLOB_LEN - start {
            return Err(Error::InvalidArgument);
        }
        let end = start + src.len() as u64;
        let new_len = if end > self.len { end } else { self.len };
        proof {
            lemma_blocks_for_monotonic(new_len as int, MAX_BLOB_LEN as int);
            lemma_div(MAX_BLOB_LEN + HEADER_SIZE + BLOCK_SIZE - 1);
            lemma_div(new_len + HEADER_SIZE + BLOCK_SIZE - 1);
        }
        if block_count(new_len) as u64 > self.store.quota / (BLOCK_SIZE as u64) {
            return Err(Error::QuotaExceeded);
        }
        let ghost c0 = self.content();
        let ghost p0 = self.position();
        let mut from: usize = 0;
        assert(self.content() =~= splice(c0, p0, src@.subrange(0, 0)));
        while from < src.len()
            invariant
                self.wf(),
                self.nonce_prefix@ == old(self).nonce_prefix@,
                from <= src@.len(),
                p0 + src@.len() <= MAX_BLOB_LEN,
                p0 <= c0.len(),
                c0.len() <= new_len,
                p0 + src@.len() <= new_len,
                blocks_for(new_len as int) * BLOCK_SIZE <= self.store.quota,
                self.store.quota == old(self).store.quota,
                self.position() == p0 + from,
                self.content() == splice(c0, p0, src@.subrange(0, from as int)),
            decreases src@.len() - from,
        {
            if self.current_block.content.pos == BLOCK_SIZE {
                let number = self.current_block.next_number();
                self.replace_current_block(number);
            }
            let ghost pre = *self;
            let ghost from0 = from as int;
            proof {
                lemma_blocks_for(pre.current_block.number as int, pre.len as int);
                lemma_blocks_for_monotonic(pre.len as int, MAX_BLOB_LEN as int);
            }
            let n = self.current_block.content.write(src, from);
            self.current_block.dirty = true;
            from = from + n;
            let position = self.current_block.number as u64 * BLOCK_SIZE as u64
                + self.current_block.content.pos as u64 - HEADER_SIZE as u64;
            if position > self.len {
                self.len = position;
                self.len_dirty = true;
            }
            proof {
                let num = pre.current_block.number as int;
                let pos = pre.current_block.content.pos as int;
                let p = pre.position();
                let target = splice(c0, p0, src@.subrange(0, from as int));
                lemma_blocks_for(num, self.len as int);
                lemma_blocks_for(num + 1, self.len as int);
                lemma_blocks_for_monotonic(pre.len as int, self.len as int);
                assert(self.block_at(0).subrange(NONCE_PREFIX_SIZE as int, HEADER_SIZE as int)
                    =~= pre.block_at(0).subrange(NONCE_PREFIX_SIZE as int, HEADER_SIZE as int));
                assert(pre.content().len() == pre.len);
                assert(position == p + n);
                assert(target.len() == self.len);
                lemma_blocks_for_monotonic(self.len as int, new_len as int);
                assert forall|i: int| 0 <= i < self.len implies #[trigger] self.content()[i]
                    == target[i] by {
                    lemma_block_of(i, self.len as int);
                    if p <= i < p + n {
                        lemma_block_offset(num, pos + (i - p));
                        assert(self.content()[i] == src@[from0 + (i - p)]);
                        assert(target[i] == src@[i - p0]);
                    } else {
                        assert(i < pre.len);
                        assert(pre.content()[i] == target[i]);
                        lemma_block_of(i, pre.len as int);
                        assert(self.block_at(block_of(i))[offset_of(i)] == pre.block_at(
                            block_of(i),
                        )[offset_of(i)]);
                        assert(self.content()[i] == pre.content()[i]);
                    }
                }
                assert(self.content() =~= target);
            }
        }
        assert(src@.subrange(0, src@.len() as int) =~= src@);
        Ok(())
    }

    /// Moves the position as `from` says, clamped to the payload, and returns the new
    /// position.
    pub fn seek(&mut self, from: SeekFrom) -> (r: u64)
        requires
            old(self).wf(),
        ensures
            final(self).wf(),
            r as int == seek_target(old(self).position(), old(self).spec_len(), from),
            final(self).position() == r,
            final(self).spec_len() == old(self).spec_len(),
            final(self).content() == old(self).content(),
            final(self).spec_nonce_prefix() == old(self).spec_nonce_prefix(),
            final(self).spec_quota() == old(self).spec_quota(),
    {
        let position = self.seek_position();
        let offset: u64 = match from {
            SeekFrom::Start(n) => if n < self.len {
                n
            } else {
                self.len
            },
            SeekFrom::End(n) => if n >= 0 {
                self.len
            } else {
                let back = magnitude(n);
                if back < self.len {
                    self.len - back
                } else {
                    0
                }
            },
            SeekFrom::Current(n) => if n >= 0 {
                let forward = n as u64;
                if forward < self.len - position {
                    position + forward
                } else {
                    self.len
                }
            } else {
                let back = magnitude(n);
                if back < position {
                    position - back
                } else {
                    0
                }
            },
        };
        let actual = offset + HEADER_SIZE as u64;
        proof {
            lemma_div(actual as int);
        }
        let block_number = (actual / BLOCK_SIZE as u64) as u32;
        let block_offset = (actual % BLOCK_SIZE as u64) as usize;
        if block_number != self.current_block.number {
            self.replace_current_block(block_number);
        }
        self.current_block.content.pos = block_offset;
        offset
    }
}

impl Blob {
    /// Sets the length of the payload to `new_len`: a shorter payload is cut, dropping the
    /// blocks it no longer needs once flushed, and the position moves back to the end if it
    /// was past it; a longer payload is padded with zeros and the position stays. Growing
    /// fails, changing nothing, with `InvalidArgument` past `MAX_BLOB_LEN` and with
    /// `QuotaExceeded` when the blocks would take more than the quota.
    pub fn truncate(&mut self, new_len: u64) -> (r: Result<(), Error>)
        requires
            old(self).wf(),
        ensures
            final(self).wf(),
            final(self).spec_nonce_prefix() == old(self).spec_nonce_prefix(),
            final(self).spec_quota() == old(self).spec_quota(),
            new_len <= old(self).spec_len() ==> r is Ok && final(self).content() == old(
                self,
            ).content().subrange(0, new_len as int) && final(self).position() == if old(
                self,
            ).position() <= new_len {
                old(self).position()
            } else {
                new_len as int
            },
            r is Ok ==> final(self).spec_len() == new_len,
            new_len > old(self).spec_len() ==> (r is Ok <==> new_len <= MAX_BLOB_LEN && blocks_for(
                new_len as int,
            ) * BLOCK_SIZE <= old(self).spec_quota()),
            new_len > old(self).spec_len() && r is Ok ==> final(self).content() == old(
                self,
            ).content() + Seq::new((new_len - old(self).spec_len()) as nat, |i: int| 0u8)
                && final(self).position() == old(self).position(),
            r is Err ==> *final(self) == *old(self),
    {
        if new_len <= self.len {
            self.shrink(new_len);
            Ok(())
        } else {
            self.grow(new_len)
        }
    }

    fn shrink(&mut self, new_len: u64)
        requires
            old(self).wf(),
            new_len <= old(self).len,
        ensures
            final(self).wf(),
            final(self).spec_nonce_prefix() == old(self).spec_nonce_prefix(),
            final(self).spec_quota() == old(self).spec_quota(),
            final(self).content() == old(self).content().subrange(0, new_len as int),
            final(self).len == new_len,
            final(self).position() == if old(self).position() <= new_len {
                old(self).position()
            } else {
                new_len as int
            },
    {
        let ghost c0 = self.content();
        let position = self.seek_position();
        self.replace_current_block(0);
        let ghost flushed = *self;
        proof {
            lemma_blocks_for_monotonic(new_len as int, self.len as int);
            lemma_blocks_for(0, new_len as int);
            lemma_div(new_len + HEADER_SIZE + BLOCK_SIZE - 1);
        }
        let count = block_count(new_len) as usize;
        self.store.blocks.truncate(count);
        self.len = new_len;
        self.len_dirty = true;
        self.current_block.dirty = true;
        proof {
            assert(flushed.store@.len() == flushed.store.blocks@.len());
            assert(self.store@ =~= flushed.store@.subrange(0, count as int));
            assert forall|k: int| 0 <= k < self.store@.len() implies #[trigger] self.store@[k].len() == BLOCK_SIZE by {
                assert(self.store@[k] == flushed.store@[k]);
            }
            lemma_blocks_for_monotonic(new_len as int, flushed.len as int);
            assert forall|i: int| 0 <= i < new_len implies #[trigger] self.content()[i] == c0[i] by {
                lemma_block_of(i, new_len as int);
                lemma_block_of(i, flushed.len as int);
                if block_of(i) != 0 {
                    assert(self.store@[block_of(i)] == flushed.store@[block_of(i)]);
                }
            }
            assert(self.content() =~= c0.subrange(0, new_len as int));
        }
        let target = if position <= new_len { position } else { new_len };
        self.seek(SeekFrom::Start(target));
    }

    fn grow(&mut self, new_len: u64) -> (r: Result<(), Error>)
        requires
            old(self).wf(),
            new_len > old(self).len,
        ensures
            final(self).wf(),
            final(self).spec_nonce_prefix() == old(self).spec_nonce_prefix(),
            final(self).spec_quota() == old(self).spec_quota(),
            r is Ok <==> new_len <= MAX_BLOB_LEN && blocks_for(new_len as int) * BLOCK_SIZE
                <= old(self).spec_quota(),
            r is Ok ==> final(self).content() == old(self).content() + Seq::new(
                (new_len - old(self).len) as nat,
                |i: int| 0u8,
            ) && final(self).position() == old(self).position() && final(self).len == new_len,
            r is Err ==> *final(self) == *old(self),
    {
        if new_len > MAX_BLOB_LEN {
            return Err(Error::InvalidArgument);
        }
        proof {
            lemma_blocks_for_monotonic(new_len as int, MAX_BLOB_LEN as int);
            lemma_div(MAX_BLOB_LEN + HEADER_SIZE + BLOCK_SIZE - 1);
            lemma_div(new_len + HEADER_SIZE + BLOCK_SIZE - 1);
        }
        if block_count(new_len) as u64 > self.store.quota / (BLOCK_SIZE as u64) {
            return Err(Error::QuotaExceeded);
        }
        let ghost c0 = self.content();
        let position = self.seek_position();
        let old_len = self.len;
        self.seek(SeekFrom::End(0));
        assert(self.content().len() == c0.len());
        let zeros = Buffer::new();
        while self.len < new_len
            invariant
                self.wf(),
                self.nonce_prefix@ == old(self).nonce_prefix@,
                self.store.quota == old(self).store.quota,
                old_len == c0.len(),
                old_len <= self.len <= new_len,
                new_len <= MAX_BLOB_LEN,
                blocks_for(new_len as int) * BLOCK_SIZE <= self.store.quota,
                self.position() == self.len,
                zeros@ == Seq::new(BLOCK_SIZE as nat, |i: int| 0u8),
                self.content() == c0 + Seq::new((self.len - old_len) as nat, |i: int| 0u8),
            decreases new_len - self.len,
        {
            let left = new_len - self.len;
            let chunk: usize = if left < BLOCK_SIZE as u64 { left as usize } else { BLOCK_SIZE };
            let part = slice_subrange(zeros.bytes.as_slice(), 0, chunk);
            let ghost before = self.content();
            proof {
                lemma_blocks_for_monotonic(self.len + chunk, new_len as int);
            }
            let written = self.write(part);
            proof {
                assert(written is Ok);
                assert(self.content() =~= c0 + Seq::new((self.len - old_len) as nat, |i: int| 0u8));
            }
        }
        self.seek(SeekFrom::Start(position));
        Ok(())
    }
}

/// Length shared by all open handles of one blob.
pub struct Shared {
    pub len: u64,
}

impl Shared {
    /// Shared state that its first user still has to initialise.
    pub fn uninit() -> (r: MaybeInitShared)
        ensures
            !r.is_init(),
            r.spec_shared().len == 0,
    {
        MaybeInitShared { shared: Shared::new(0), init: false }
    }

    /// An independent copy.
    pub fn deep_clone(&self) -> (r: Shared)
        ensures
            r.len == self.len,
    {
        Shared::new(self.len)
    }

    fn new(len: u64) -> (r: Shared)
        ensures
            r.len == len,
    {
        Shared { len }
    }

    /// Number of blocks of the blob, including a partly filled last block.
    pub fn block_count(&self) -> (r: u32)
        ensures
            r as int == if blocks_for(self.len as int) <= u32::MAX {
                blocks_for(self.len as int)
            } else {
                u32::MAX as int
            },
    {
        block_count(self.len)
    }
}

/// Shared state that may not be initialised yet.
pub struct MaybeInitShared {
    shared: Shared,
    init: bool,
}

impl MaybeInitShared {
    pub closed spec fn is_init(&self) -> bool {
        self.init
    }

    pub closed spec fn spec_shared(&self) -> Shared {
        self.shared
    }

    /// The state, with its length set to `len` unless it was initialised already.
    pub fn ensure_init(self, len: u64) -> (r: Shared)
        ensures
            r.len == if self.is_init() {
                self.spec_shared().len
            } else {
                len
            },
    {
        let mut shared = self.shared;
        if !self.init {
            shared.len = len;
        }
        shared
    }

    /// The state, taken as initialised.
    pub fn assume_init(self) -> (r: Shared)
        ensures
            r == self.spec_shared(),
    {
        self.shared
    }
}

impl From<Shared> for MaybeInitShared {
    /// Wraps state that is already initialised.
    fn from(shared: Shared) -> (r: MaybeInitShared) {
        MaybeInitShared { shared, init: true }
    }
}

impl vstd::std_specs::convert::FromSpecImpl<Shared> for MaybeInitShared {
    open spec fn obeys_from_spec() -> bool {
        true
    }

    closed spec fn from_spec(shared: Shared) -> MaybeInitShared {
        MaybeInitShared { shared, init: true }
    }
}

/// State made from initialised state counts as initialised and holds it.
pub proof fn lemma_from_shared(shared: Shared)
    ensures
        <MaybeInitShared as vstd::std_specs::convert::FromSpec<Shared>>::from_spec(shared).is_init(),
        <MaybeInitShared as vstd::std_specs::convert::FromSpec<Shared>>::from_spec(shared).spec_shared() == shared,
{
}

/// Round trip: writing `s` into a new blob, flushing, and opening the store again gives
/// back exactly `s`. `written` is the blob after the write and the flush, `reopened` what
/// `open` made of its store; the premises are what `create`, `write`, `flush` and `open`
/// ensure.
pub proof fn lemma_round_trip(s: Seq<u8>, written: Blob, reopened: Blob)
    requires
        written.content() == splice(Seq::<u8>::empty(), 0, s),
        stored_content(written.stored()) == written.content(),
        reopened.content() == stored_content(written.stored()),
    ensures
        reopened.content() == s,
        reopened.content().subrange(0, s.len() as int) == s,
{
    assert(splice(Seq::<u8>::empty(), 0, s) =~= s);
    assert(s.subrange(0, s.len() as int) =~= s);
}

/// The bytes of `chunks`, one after the other.
pub open spec fn flatten(chunks: Seq<Seq<u8>>) -> Seq<u8>
    decreases chunks.len(),
{
    if chunks.len() == 0 {
        Seq::empty()
    } else {
        chunks[0] + flatten(chunks.drop_first())
    }
}

/// Payload `c` after writing `chunks` one after the other from position `p`, as a run of
/// `write` calls leaves it.
pub open spec fn write_chunks(c: Seq<u8>, p: int, chunks: Seq<Seq<u8>>) -> Seq<u8>
    decreases chunks.len(),
{
    if chunks.len() == 0 {
        c
    } else {
        write_chunks(splice(c, p, chunks[0]), p + chunks[0].len(), chunks.drop_first())
    }
}

/// What a run of `read` calls returns, one after the other, when the positions they start
/// at are `ps` and the last read ends at `ps.last()`.
pub open spec fn read_pieces(c: Seq<u8>, ps: Seq<int>) -> Seq<u8>
    decreases ps.len(),
{
    if ps.len() <= 1 {
        Seq::empty()
    } else {
        c.subrange(ps[0], ps[1]) + read_pieces(c, ps.drop_first())
    }
}

proof fn lemma_two_splices(c: Seq<u8>, p: int, s1: Seq<u8>, s2: Seq<u8>)
    requires
        0 <= p <= c.len(),
    ensures
        splice(splice(c, p, s1), p + s1.len(), s2) == splice(c, p, s1 + s2),
{
    assert(splice(splice(c, p, s1), p + s1.len(), s2) =~= splice(c, p, s1 + s2));
}

/// Writing chunks one after the other is writing their concatenation at once.
pub proof fn lemma_chunked_write(c: Seq<u8>, p: int, chunks: Seq<Seq<u8>>)
    requires
        0 <= p <= c.len(),
    ensures
        write_chunks(c, p, chunks) == splice(c, p, flatten(chunks)),
    decreases chunks.len(),
{
    if chunks.len() > 0 {
        let c1 = splice(c, p, chunks[0]);
        lemma_chunked_write(c1, p + chunks[0].len(), chunks.drop_first());
        lemma_two_splices(c, p, chunks[0], flatten(chunks.drop_first()));
    } else {
        assert(splice(c, p, Seq::<u8>::empty()) =~= c);
    }
}

/// Reads that start where the previous one ended return, put together, the payload from the
/// first start to the last end.
pub proof fn lemma_chunked_read(c: Seq<u8>, ps: Seq<int>)
    requires
        ps.len() >= 1,
        0 <= ps[0],
        ps.last() <= c.len(),
        forall|k: int| 0 <= k < ps.len() - 1 ==> #[trigger] ps[k] <= ps[k + 1],
    ensures
        read_pieces(c, ps) == c.subrange(ps[0], ps.last()),
    decreases ps.len(),
{
    if ps.len() == 1 {
        assert(c.subrange(ps[0], ps[0]) =~= Seq::<u8>::empty());
    } else {
        let rest = ps.drop_first();
        assert forall|k: int| 0 <= k < rest.len() - 1 implies #[trigger] rest[k] <= rest[k + 1] by {
            assert(ps[k + 1] <= ps[k + 2]);
        }
        assert forall|k: int| 0 <= k < ps.len() implies ps[0] <= #[trigger] ps[k] <= ps.last() by {
            lemma_ordered(ps, k);
        }
        lemma_chunked_read(c, rest);
        assert(c.subrange(ps[0], ps[1]) + c.subrange(ps[1], ps.last()) =~= c.subrange(ps[0], ps.last()));
    }
}

proof fn lemma_ordered(ps: Seq<int>, k: int)
    requires
        0 <= k < ps.len(),
        forall|j: int| 0 <= j < ps.len() - 1 ==> #[trigger] ps[j] <= ps[j + 1],
    ensures
        ps[0] <= ps[k] <= ps.last(),
    decreases ps.len() - k,
{
    lemma_ordered_low(ps, k);
    if k + 1 < ps.len() {
        lemma_ordered(ps, k + 1);
    }
}

proof fn lemma_ordered_low(ps: Seq<int>, k: int)
    requires
        0 <= k < ps.len(),
        forall|j: int| 0 <= j < ps.len() - 1 ==> #[trigger] ps[j] <= ps[j + 1],
    ensures
        ps[0] <= ps[k],
    decreases k,
{
    if k > 0 {
        lemma_ordered_low(ps, k - 1);
    }
}

/// Round trip in chunks: a new blob given `chunks` by a run of writes holds their
/// concatenation, and reads from position 0 that each start where the last ended and end
/// at the length give back exactly that concatenation.
pub proof fn lemma_chunked_round_trip(chunks: Seq<Seq<u8>>, ps: Seq<int>)
    requires
        ps.len() >= 1,
        ps[0] == 0,
        ps.last() == flatten(chunks).len(),
        forall|k: int| 0 <= k < ps.len() - 1 ==> #[trigger] ps[k] <= ps[k + 1],
    ensures
        write_chunks(Seq::<u8>::empty(), 0, chunks) == flatten(chunks),
        read_pieces(write_chunks(Seq::<u8>::empty(), 0, chunks), ps) == flatten(chunks),
{
    lemma_chunked_write(Seq::<u8>::empty(), 0, chunks);
    assert(splice(Seq::<u8>::empty(), 0, flatten(chunks)) =~= flatten(chunks));
    lemma_chunked_read(flatten(chunks), ps);
    assert(flatten(chunks).subrange(0, flatten(chunks).len() as int) =~= flatten(chunks));
}

/// The payload of a blob is as long as its length.
pub proof fn lemma_content_len(b: Blob)
    ensures
        b.content().len() == b.spec_len(),
{
}

/// The blocks of a blob never take more space than its quota: every operation keeps the
/// invariant, and a write that would break it fails.
pub proof fn lemma_quota_respected(b: Blob)
    requires
        b.wf(),
    ensures
        b.stored().len() * BLOCK_SIZE <= b.spec_quota(),
{
}

/// Seeking to the same place twice is the same as seeking there once, and the position a
/// seek from the start reaches is the offset clamped to the length, so that reading there
/// gives the bytes at that offset.
pub proof fn lemma_seek_idempotent(position: int, len: int, k: u64)
    requires
        0 <= position <= len,
    ensures
        seek_target(seek_target(position, len, SeekFrom::Start(k)), len, SeekFrom::Start(k))
            == seek_target(position, len, SeekFrom::Start(k)),
        seek_target(position, len, SeekFrom::Start(k)) == if k <= len {
            k as int
        } else {
            len
        },
{
}

} // verus!
