//! In-memory block content and a cursor that reads and writes it sequentially.

use vstd::prelude::*;
use vstd::slice::slice_to_vec;
use vstd::bytes::{spec_u64_from_le_bytes, spec_u64_to_le_bytes, u64_from_le_bytes, u64_to_le_bytes};

verus! {

/// Size of every block, in bytes.
pub const BLOCK_SIZE: usize = 4096;

/// `s` with the bytes from `at` on replaced by `src` (which must fit).
pub open spec fn overwrite(s: Seq<u8>, at: int, src: Seq<u8>) -> Seq<u8> {
    Seq::new(s.len(), |i: int| if at <= i < at + src.len() { src[i - at] } else { s[i] })
}

/// Returns a byte-for-byte copy of `v`.
pub fn copy_bytes(v: &Vec<u8>) -> (r: Vec<u8>)
    ensures
        r@ == v@,
{
    slice_to_vec(v.as_slice())
}

/// Relies on zeroize's `Zeroize` for `Vec<u8>`: it overwrites the bytes and the spare
/// capacity with zeros, then clears the vector.
#[verifier::external_body]
fn scrub(bytes: &mut Vec<u8>)
    ensures
        final(bytes)@.len() == 0,
{
    zeroize::Zeroize::zeroize(bytes)
}

/// Plaintext content of one block, kept in memory. The block layer stores it as it is:
/// no cipher is applied to blocks.
pub struct Buffer {
    pub bytes: Vec<u8>,
}

impl View for Buffer {
    type V = Seq<u8>;

    open spec fn view(&self) -> Seq<u8> {
        self.bytes@
    }
}

impl Buffer {
    /// A block of zeros.
    pub fn new() -> (r: Buffer)
        ensures
            r@ == Seq::new(BLOCK_SIZE as nat, |i: int| 0u8),
    {
        let mut bytes: Vec<u8> = Vec::with_capacity(BLOCK_SIZE);
        let mut i: usize = 0;
        while i < BLOCK_SIZE
            invariant
                i <= BLOCK_SIZE,
                bytes@ == Seq::new(i as nat, |j: int| 0u8),
            decreases BLOCK_SIZE - i,
        {
            bytes.push(0u8);
            i = i + 1;
            assert(bytes@ =~= Seq::new(i as nat, |j: int| 0u8));
        }
        Buffer { bytes }
    }

    /// A buffer holding a copy of `bytes`.
    pub fn from_bytes(bytes: &Vec<u8>) -> (r: Buffer)
        ensures
            r@ == bytes@,
    {
        Buffer { bytes: copy_bytes(bytes) }
    }

    /// A copy of the content.
    pub fn to_vec(&self) -> (r: Vec<u8>)
        ensures
            r@ == self@,
    {
        copy_bytes(&self.bytes)
    }

    /// Overwrites the content with zeros and releases it, so that no plaintext data stays
    /// in memory after the buffer is gone.
    pub fn scrub(self) {
        let mut bytes = self.bytes;
        scrub(&mut bytes);
    }
}

/// A buffer with a position that advances as data is read from it or written to it.
pub struct Cursor {
    pub buffer: Buffer,
    pub pos: usize,
}

impl Cursor {
    pub open spec fn wf(&self) -> bool {
        self.pos <= self.buffer@.len()
    }

    pub fn new(buffer: Buffer) -> (r: Cursor)
        ensures
            r.buffer@ == buffer@,
            r.pos == 0,
    {
        Cursor { buffer, pos: 0 }
    }

    /// Copies up to `len` bytes from the current position into `dst` starting at `at`, and
    /// advances the position. Returns how many bytes were copied: `len` or, if fewer are
    /// left in the buffer, all that are left.
    pub fn read(&mut self, dst: &mut Vec<u8>, at: usize, len: usize) -> (n: usize)
        requires
            old(self).wf(),
            at + len <= old(dst)@.len(),
        ensures
            final(self).wf(),
            n as int == if len <= old(self).buffer@.len() - old(self).pos {
                len as int
            } else {
                old(self).buffer@.len() - old(self).pos
            },
            final(self).pos == old(self).pos + n,
            final(self).buffer@ == old(self).buffer@,
            final(dst)@ == overwrite(
                old(dst)@,
                at as int,
                old(self).buffer@.subrange(old(self).pos as int, old(self).pos + n),
            ),
    {
        let dst_len = dst.len();
        let left = self.buffer.bytes.len() - self.pos;
        let n: usize = if len <= left { len } else { left };
        let mut k: usize = 0;
        while k < n
            invariant
                self.wf(),
                self.buffer@ == old(self).buffer@,
                self.pos == old(self).pos,
                self.pos + n <= self.buffer@.len(),
                self.buffer@.len() <= usize::MAX,
                at + n <= old(dst)@.len(),
                dst_len == old(dst)@.len(),
                k <= n,
                dst@ == overwrite(
                    old(dst)@,
                    at as int,
                    self.buffer@.subrange(self.pos as int, self.pos + k),
                ),
            decreases n - k,
        {
            dst.set(at + k, self.buffer.bytes[self.pos + k]);
            k = k + 1;
            assert(dst@ =~= overwrite(
                old(dst)@,
                at as int,
                self.buffer@.subrange(self.pos as int, self.pos + k),
            ));
        }
        self.pos = self.pos + n;
        n
    }

    /// Reads `n` bytes from the current position into a new vector and advances past them.
    pub fn read_bytes(&mut self, n: usize) -> (r: Vec<u8>)
        requires
            old(self).wf(),
            old(self).pos + n <= old(self).buffer@.len(),
        ensures
            final(self).wf(),
            final(self).pos == old(self).pos + n,
            final(self).buffer@ == old(self).buffer@,
            r@ == old(self).buffer@.subrange(old(self).pos as int, old(self).pos + n),
    {
        let total = self.buffer.bytes.len();
        let mut r: Vec<u8> = Vec::with_capacity(n);
        let mut k: usize = 0;
        while k < n
            invariant
                total == self.buffer@.len(),
                self.wf(),
                self.buffer@ == old(self).buffer@,
                self.pos == old(self).pos,
                self.pos + n <= self.buffer@.len(),
                k <= n,
                r@ == self.buffer@.subrange(self.pos as int, self.pos + k),
            decreases n - k,
        {
            r.push(self.buffer.bytes[self.pos + k]);
            k = k + 1;
            assert(r@ =~= self.buffer@.subrange(self.pos as int, self.pos + k));
        }
        self.pos = self.pos + n;
        r
    }

    /// Reads a little-endian `u64` at the current position and advances past it.
    pub fn read_u64(&mut self) -> (r: u64)
        requires
            old(self).wf(),
            old(self).pos + 8 <= old(self).buffer@.len(),
        ensures
            final(self).wf(),
            final(self).pos == old(self).pos + 8,
            final(self).buffer@ == old(self).buffer@,
            r == spec_u64_from_le_bytes(
                old(self).buffer@.subrange(old(self).pos as int, old(self).pos + 8),
            ),
    {
        let bytes = self.read_bytes(8);
        u64_from_le_bytes(bytes.as_slice())
    }

    /// Copies bytes of `src`, from index `from` on, into the buffer at the current position
    /// and advances the position. Returns how many were copied: all of them or, if fewer
    /// fit, as many as fit.
    pub fn write(&mut self, src: &[u8], from: usize) -> (n: usize)
        requires
            old(self).wf(),
            from <= src@.len(),
        ensures
            final(self).wf(),
            n as int == if src@.len() - from <= old(self).buffer@.len() - old(self).pos {
                src@.len() - from
            } else {
                old(self).buffer@.len() - old(self).pos
            },
            final(self).pos == old(self).pos + n,
            final(self).buffer@ == overwrite(
                old(self).buffer@,
                old(self).pos as int,
                src@.subrange(from as int, from + n),
            ),
    {
        let left = self.buffer.bytes.len() - self.pos;
        let want = src.len() - from;
        let n: usize = if want <= left { want } else { left };
        let mut k: usize = 0;
        while k < n
            invariant
                self.pos == old(self).pos,
                self.pos + n <= old(self).buffer@.len(),
                old(self).buffer@.len() <= usize::MAX,
                from + n <= src@.len(),
                src@.len() <= usize::MAX,
                k <= n,
                self.buffer@ == overwrite(
                    old(self).buffer@,
                    self.pos as int,
                    src@.subrange(from as int, from + k),
                ),
            decreases n - k,
        {
            self.buffer.bytes.set(self.pos + k, src[from + k]);
            k = k + 1;
            assert(self.buffer@ =~= overwrite(
                old(self).buffer@,
                self.pos as int,
                src@.subrange(from as int, from + k),
            ));
        }
        self.pos = self.pos + n;
        n
    }

    /// Writes `value` as 8 little-endian bytes at the current position and advances past them.
    pub fn write_u64(&mut self, value: u64)
        requires
            old(self).wf(),
            old(self).pos + 8 <= old(self).buffer@.len(),
        ensures
            final(self).wf(),
            final(self).pos == old(self).pos + 8,
            final(self).buffer@ == overwrite(
                old(self).buffer@,
                old(self).pos as int,
                spec_u64_to_le_bytes(value),
            ),
    {
        let bytes = u64_to_le_bytes(value);
        let n = self.write(bytes.as_slice(), 0);
        assert(bytes@.subrange(0, 8) =~= bytes@);
    }
}

} // verus!
