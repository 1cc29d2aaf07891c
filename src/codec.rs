//! Lossless conversions between unsigned integers and the signed integers that the
//! persistent store keeps.

use vstd::prelude::*;

verus! {

/// The unsigned value whose two's-complement bit pattern is `i`.
pub open spec fn unsigned_of(i: int) -> int {
    if i >= 0 {
        i
    } else {
        i + 0x1_0000_0000_0000_0000
    }
}

/// The signed value whose two's-complement bit pattern is `u`.
pub open spec fn signed_of(u: int) -> int {
    if u <= i64::MAX {
        u
    } else {
        u - 0x1_0000_0000_0000_0000
    }
}

/// Reinterprets a stored signed integer as the unsigned value it encodes.
pub fn decode_u64(i: i64) -> (r: u64)
    ensures
        r as int == unsigned_of(i as int),
{
    if i >= 0 {
        i as u64
    } else {
        u64::MAX - ((-(i + 1)) as u64)
    }
}

/// Reinterprets an unsigned integer as a signed one with the same bit pattern, for storing.
pub fn encode_u64(u: u64) -> (r: i64)
    ensures
        r as int == signed_of(u as int),
{
    if u <= i64::MAX as u64 {
        u as i64
    } else {
        -((u64::MAX - u) as i64) - 1
    }
}

/// Encoding and then decoding gives back the original value, and the other way round.
pub proof fn lemma_codec_round_trip(u: u64, i: i64)
    ensures
        unsigned_of(signed_of(u as int)) == u as int,
        signed_of(unsigned_of(i as int)) == i as int,
{
}

} // verus!
