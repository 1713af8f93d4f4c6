//! Single bits of a 32-bit word, and the word read backwards.

use vstd::prelude::*;

verus! {

/// Whether bit `i` of `v` is set; bit 0 is the least significant.
pub open spec fn bit(v: u32, i: u32) -> bool {
    (v >> i) & 1 == 1
}

/// `v` with its bits in the opposite order, by swapping neighbours, then
/// pairs, nibbles, bytes and halves.
pub open spec fn reversed(v: u32) -> u32 {
    let a = ((v >> 1) & 0x5555_5555) | ((v & 0x5555_5555) << 1);
    let b = ((a >> 2) & 0x3333_3333) | ((a & 0x3333_3333) << 2);
    let c = ((b >> 4) & 0x0f0f_0f0f) | ((b & 0x0f0f_0f0f) << 4);
    let d = ((c >> 8) & 0x00ff_00ff) | ((c & 0x00ff_00ff) << 8);
    (d >> 16) | (d << 16)
}

/// Bit `i` of the reversal is bit `31 - i` of the word, which is what makes
/// `reversed` the reversal.
pub proof fn lemma_reversed_bit(v: u32, i: u32)
    requires
        i < 32,
    ensures
        bit(reversed(v), i) == bit(v, (31 - i) as u32),
{
    let j: u32 = (31 - i) as u32;
    assert(((reversed(v) >> i) & 1 == 1) == ((v >> j) & 1 == 1)) by (bit_vector)
        requires
            i < 32,
            j == 31 - i,
    ;
}

/// `v` with its bits in the opposite order: the least significant bit
/// becomes the most significant one, the second the second to last, and so
/// on.
pub fn reverse_bits(v: u32) -> (r: u32)
    ensures
        r == reversed(v),
{
    let a = ((v >> 1) & 0x5555_5555) | ((v & 0x5555_5555) << 1);
    let b = ((a >> 2) & 0x3333_3333) | ((a & 0x3333_3333) << 2);
    let c = ((b >> 4) & 0x0f0f_0f0f) | ((b & 0x0f0f_0f0f) << 4);
    let d = ((c >> 8) & 0x00ff_00ff) | ((c & 0x00ff_00ff) << 8);
    (d >> 16) | (d << 16)
}

/// Whether bit `i` of `v` is set.
pub fn test_bit(v: u32, i: u32) -> (r: bool)
    requires
        i < 32,
    ensures
        r == bit(v, i),
{
    assert(((v & (1u32 << i)) != 0) == ((v >> i) & 1 == 1)) by (bit_vector)
        requires
            i < 32,
    ;
    (v & (1u32 << i)) != 0
}

} // verus!
