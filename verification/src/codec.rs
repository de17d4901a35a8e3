//! Conversions between payload bytes and the values they carry.
//!
//! Readings travel as IEEE-754 single-precision numbers in little-endian byte
//! order. This library keeps each reading as its 32-bit pattern; a caller
//! turns a pattern into a number with `f32::from_bits`.

use vstd::prelude::*;

verus! {

/// Sum of a run of bytes as a mathematical integer.
pub open spec fn byte_sum(bytes: Seq<u8>) -> int
    decreases bytes.len(),
{
    if bytes.len() == 0 {
        0
    } else {
        byte_sum(bytes.drop_last()) + bytes.last()
    }
}

/// The protocol's checksum: the sum of the covered bytes modulo 256.
pub open spec fn checksum(bytes: Seq<u8>) -> u8 {
    (byte_sum(bytes) % 256) as u8
}

/// The 32-bit pattern whose little-endian bytes are `bytes[at .. at + 4]`.
pub open spec fn le_u32(bytes: Seq<u8>, at: int) -> u32 {
    (bytes[at] + bytes[at + 1] * 0x100 + bytes[at + 2] * 0x1_0000 + bytes[at + 3] * 0x100_0000) as u32
}

/// Whether every byte is a 7-bit ASCII code.
pub open spec fn is_ascii(bytes: Seq<u8>) -> bool {
    forall|i: int| 0 <= i < bytes.len() ==> bytes[i] < 0x80
}

/// Computes the checksum of `bytes` by wrapping addition.
pub fn checksum_of(bytes: &[u8]) -> (sum: u8)
    ensures
        sum == checksum(bytes@),
{
    let mut sum: u8 = 0;
    let mut i: usize = 0;
    while i < bytes.len()
        invariant
            i <= bytes.len(),
            sum == checksum(bytes@.take(i as int)),
        decreases bytes.len() - i,
    {
        proof {
            assert(bytes@.take(i + 1).drop_last() =~= bytes@.take(i as int));
        }
        sum = sum.wrapping_add(bytes[i]);
        i += 1;
    }
    proof {
        assert(bytes@.take(bytes.len() as int) =~= bytes@);
    }
    sum
}

/// Reads the little-endian 32-bit pattern that starts at `at`.
pub fn read_le_u32(bytes: &[u8], at: usize) -> (bits: u32)
    requires
        at + 4 <= bytes@.len(),
    ensures
        bits == le_u32(bytes@, at as int),
{
    let b0: u32 = bytes[at] as u32;
    let b1: u32 = bytes[at + 1] as u32;
    let b2: u32 = bytes[at + 2] as u32;
    let b3: u32 = bytes[at + 3] as u32;
    b0 + b1 * 0x100 + b2 * 0x1_0000 + b3 * 0x100_0000
}

/// Tells whether `bytes` holds 7-bit ASCII codes only.
pub fn all_ascii(bytes: &[u8]) -> (ok: bool)
    ensures
        ok == is_ascii(bytes@),
{
    let mut i: usize = 0;
    while i < bytes.len()
        invariant
            i <= bytes.len(),
            forall|k: int| 0 <= k < i ==> bytes@[k] < 0x80,
        decreases bytes.len() - i,
    {
        if bytes[i] >= 0x80 {
            return false;
        }
        i += 1;
    }
    true
}

} // verus!
