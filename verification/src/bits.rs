//! Bit utilities: rotation of a 64-bit word and little-endian loads.

use vstd::prelude::*;

verus! {

/// `x` rotated left by `b` bit positions: the bits that leave at the top
/// come back in at the bottom.
pub open spec fn rotl_spec(x: u64, b: usize) -> u64 {
    if b == 0 {
        x
    } else {
        (x << b) | (x >> ((64 - b) as usize))
    }
}

/// Rotates `x` left by `b` bits.
#[verifier::when_used_as_spec(rotl_spec)]
pub fn rotl(x: u64, b: usize) -> (r: u64)
    requires
        b < 64,
    ensures
        r == rotl_spec(x, b),
{
    if b == 0 {
        x
    } else {
        (x << b) | (x >> (64 - b))
    }
}

/// Whether bit `i` of `x` is set, bit 0 being the lowest.
pub open spec fn bit(x: u64, i: usize) -> bool {
    (x >> i) & 1 == 1
}

/// Rotation wraps around: bit `i` of `x` is bit `i + b` of the rotated
/// word, counted modulo 64, so no bit is lost and none is made up.
pub proof fn lemma_rotl_wraps_around(x: u64, b: usize, i: usize)
    by (bit_vector)
    requires
        b < 64,
        i < 64,
    ensures
        bit(rotl_spec(x, b), ((i + b) % 64) as usize) == bit(x, i),
{
}

/// The number that `bytes` denotes when read little-endian: the first byte
/// is the least significant digit in base 256.
pub open spec fn le_value(bytes: Seq<u8>) -> nat
    decreases bytes.len(),
{
    if bytes.len() == 0 {
        0
    } else {
        bytes[0] as nat + 256 * le_value(bytes.drop_first())
    }
}

/// The little-endian value of eight bytes, written out digit by digit.
pub proof fn lemma_le_value_of_eight(s: Seq<u8>)
    requires
        s.len() == 8,
    ensures
        le_value(s) == s[0] + 0x100 * s[1] + 0x1_0000 * s[2] + 0x100_0000 * s[3] + 0x1_0000_0000
            * s[4] + 0x100_0000_0000 * s[5] + 0x1_0000_0000_0000 * s[6] + 0x100_0000_0000_0000
            * s[7],
        le_value(s) <= u64::MAX,
{
    let s1 = s.drop_first();
    let s2 = s1.drop_first();
    let s3 = s2.drop_first();
    let s4 = s3.drop_first();
    let s5 = s4.drop_first();
    let s6 = s5.drop_first();
    let s7 = s6.drop_first();
    let s8 = s7.drop_first();
    assert(le_value(s8) == 0);
    assert(le_value(s7) == s[7]);
    assert(le_value(s6) == s[6] + 256 * le_value(s7));
    assert(le_value(s5) == s[5] + 256 * le_value(s6));
    assert(le_value(s4) == s[4] + 256 * le_value(s5));
    assert(le_value(s3) == s[3] + 256 * le_value(s4));
    assert(le_value(s2) == s[2] + 256 * le_value(s3));
    assert(le_value(s1) == s[1] + 256 * le_value(s2));
    assert(le_value(s) == s[0] + 256 * le_value(s1));
}

/// Reads the eight bytes of `b` that start at `i` as a little-endian word.
pub fn load_u64(b: &[u8], i: usize) -> (w: u64)
    requires
        i + 8 <= b.len(),
    ensures
        w == le_value(b@.subrange(i as int, i + 8)),
{
    let b0 = b[i];
    let b1 = b[i + 1];
    let b2 = b[i + 2];
    let b3 = b[i + 3];
    let b4 = b[i + 4];
    let b5 = b[i + 5];
    let b6 = b[i + 6];
    let b7 = b[i + 7];
    let w = (b0 as u64) | (b1 as u64) << 8 | (b2 as u64) << 16 | (b3 as u64) << 24 | (b4 as u64)
        << 32 | (b5 as u64) << 40 | (b6 as u64) << 48 | (b7 as u64) << 56;
    proof {
        lemma_le_value_of_eight(b@.subrange(i as int, i + 8));
        assert((b0 as u64) | (b1 as u64) << 8 | (b2 as u64) << 16 | (b3 as u64) << 24 | (b4 as u64)
            << 32 | (b5 as u64) << 40 | (b6 as u64) << 48 | (b7 as u64) << 56 == b0 + 0x100 * b1
            + 0x1_0000 * b2 + 0x100_0000 * b3 + 0x1_0000_0000 * b4 + 0x100_0000_0000 * b5
            + 0x1_0000_0000_0000 * b6 + 0x100_0000_0000_0000 * b7) by (bit_vector);
    }
    w
}

} // verus!
