//! The search for the constants of one family of mixing functions.
//!
//! A member of the family adds the seed to the input and then runs four
//! rounds, each of a multiplication by an odd number made from the seed, a
//! multiply-xor with an even constant and a multiplication by an odd
//! constant. The eight constants are what the search looks for; the first six
//! are held fixed.

use crate::hash_gen::wrap32;
use crate::measure::{chunks_for, measurement};
use crate::optimize::{
    bound, derived, lineage, optimize, search_outcome, Strategy, STAT_ROUNDS,
};
use crate::random::{random_u32, random_u8};
use crate::stats::{Stats, Tally};
use vstd::prelude::*;

verus! {

/// The six constants that the search holds fixed.
pub const BASE_CONSTANTS: [u32; 6] = [
    0xfad85de6, 0xf6db595b, 0x17ebb038, 0xe100f46f, 0x09e4ac1a, 0xe1d8c1ff,
];

/// `n` xored with itself shifted right by `shift`.
pub open spec fn fold_down(n: u32, shift: u32) -> u32 {
    n ^ (n >> shift)
}

/// The hash of `n` under `seed`: the seed is spread by a multiplication and
/// added, then three rounds of folding down and multiplying, and a last
/// folding down.
pub open spec fn hashed(n: u32, seed: u32) -> u32 {
    let a = wrap32(n + wrap32(seed * 0x736caf6f));
    let b = wrap32(fold_down(a, 17) * 0xed5ad4bb);
    let c = wrap32(fold_down(b, 11) * 0xac4c1b51);
    let d = wrap32(fold_down(c, 15) * 0x31848bab);
    fold_down(d, 14)
}

/// Hashes `n` under `seed`.
pub fn hash_u32(n: u32, seed: u32) -> (r: u32)
    ensures
        r == hashed(n, seed),
{
    let mut n = n.wrapping_add(seed.wrapping_mul(0x736caf6f));
    n ^= n >> 17;
    n = n.wrapping_mul(0xed5ad4bb);
    n ^= n >> 11;
    n = n.wrapping_mul(0xac4c1b51);
    n ^= n >> 15;
    n = n.wrapping_mul(0x31848bab);
    n ^= n >> 14;
    n
}

/// One round: times `lift` made odd, xored with itself times `even` made
/// even, times `odd` made odd.
pub open spec fn round(a: u32, lift: u32, even: u32, odd: u32) -> u32 {
    let b = wrap32(a * (lift | 1));
    let c = b ^ wrap32(b * (even & !1u32));
    wrap32(c * (odd | 1))
}

/// `a` after the first `count` rounds with the constants `n`.
pub open spec fn rounds(a: u32, lift: u32, n: Seq<u32>, count: nat) -> u32
    decreases count,
{
    if count == 0 {
        a
    } else {
        let k = count - 1;
        round(rounds(a, lift, n, k as nat), lift, n[2 * k], n[2 * k + 1])
    }
}

/// What the constants `n` make of `input` under `seed`.
pub open spec fn tuned(input: u32, n: Seq<u32>, seed: u32) -> u32 {
    rounds(wrap32(input + seed), hashed(seed, 0), n, 4)
}

/// Mixes `input` under `seed` with the constants `n`.
pub fn exec_constants(input: u32, n: [u32; 8], seed: u32) -> (r: u32)
    ensures
        r == tuned(input, n@, seed),
{
    let lift = hash_u32(seed, 0);
    let mut a = input.wrapping_add(seed);
    let mut k: usize = 0;
    while k < 4
        invariant
            k <= 4,
            lift == hashed(seed, 0),
            a == rounds(wrap32(input + seed), lift, n@, k as nat),
        decreases 4 - k,
    {
        a = a.wrapping_mul(lift | 1);
        a ^= a.wrapping_mul(n[2 * k] & !1);
        a = a.wrapping_mul(n[2 * k + 1] | 1);
        k += 1;
    }
    a
}

/// The fixed constants followed by `a` made even and `b` made odd.
pub open spec fn seeded(a: u32, b: u32) -> Seq<u32> {
    BASE_CONSTANTS@.push(a & !1u32).push(b | 1)
}

/// A starting vector: the fixed constants, then `a` made even and `b` made
/// odd.
pub fn seeded_constants(a: u32, b: u32) -> (n: [u32; 8])
    ensures
        n@ == seeded(a, b),
{
    let n = [
        BASE_CONSTANTS[0],
        BASE_CONSTANTS[1],
        BASE_CONSTANTS[2],
        BASE_CONSTANTS[3],
        BASE_CONSTANTS[4],
        BASE_CONSTANTS[5],
        a & !1,
        b | 1,
    ];
    assert(n@ =~= seeded(a, b));
    n
}

/// Which of the last two constants `pick` selects.
pub open spec fn picked(pick: u8) -> int {
    6 + pick % 2
}

/// The bit that `bit` selects: one of bits 1 to 31, never bit 0, so that an
/// even constant stays even and an odd one odd.
pub open spec fn flip_mask(bit: u8) -> u32 {
    if bit % 32 == 0 {
        2
    } else {
        1u32 << (bit % 32)
    }
}

/// `n` with the bit that `bit` selects flipped in the constant that `pick`
/// selects.
pub open spec fn flipped(n: Seq<u32>, pick: u8, bit: u8) -> Seq<u32> {
    n.update(picked(pick), n[picked(pick)] ^ flip_mask(bit))
}

/// `n` with one bit of one of its last two constants flipped.
pub fn flip_constant_bit(n: [u32; 8], pick: u8, bit: u8) -> (m: [u32; 8])
    ensures
        m@ == flipped(n@, pick, bit),
{
    let idx = 6 + (pick % 2) as usize;
    let shift = if bit % 32 == 0 {
        1
    } else {
        bit % 32
    };
    assert(1u32 << 1u8 == 2) by (bit_vector);
    let mut m = n;
    m[idx] = n[idx] ^ (1u32 << shift);
    m
}

/// The search for the last two of the eight constants.
pub struct ConstantSearch;

impl Strategy for ConstantSearch {
    type Params = [u32; 8];

    open spec fn valid(&self) -> bool {
        true
    }

    open spec fn generates(&self, params: [u32; 8]) -> bool {
        exists|a: u32, b: u32| params@ == #[trigger] seeded(a, b)
    }

    open spec fn mutates(&self, from: [u32; 8], to: [u32; 8]) -> bool {
        exists|pick: u8, bit: u8| to@ == #[trigger] flipped(from@, pick, bit)
    }

    open spec fn execute_spec(&self, input: u32, params: [u32; 8], seed: u32) -> u32 {
        tuned(input, params@, seed)
    }

    fn generate(&self) -> (p: [u32; 8]) {
        let a = random_u32();
        let b = random_u32();
        seeded_constants(a, b)
    }

    fn mutate(&self, params: [u32; 8]) -> (p: [u32; 8]) {
        let pick = random_u8();
        let bit = random_u8();
        flip_constant_bit(params, pick, bit)
    }

    fn execute(&self, input: u32, params: [u32; 8], seed: u32) -> (r: u32) {
        exec_constants(input, params, seed)
    }
}

/// Whether `n` holds the fixed constants, then an even and an odd one.
pub open spec fn in_family(n: Seq<u32>) -> bool {
    &&& n.len() == 8
    &&& n.take(6) == BASE_CONSTANTS@
    &&& n[6] % 2 == 0
    &&& n[7] % 2 == 1
}

/// A starting vector is in the family.
pub proof fn lemma_seeded_in_family(a: u32, b: u32)
    ensures
        in_family(seeded(a, b)),
{
    assert((a & !1u32) % 2 == 0) by (bit_vector);
    assert((b | 1) % 2 == 1) by (bit_vector);
    assert(seeded(a, b).take(6) =~= BASE_CONSTANTS@);
}

/// Flipping a bit keeps a vector in the family: bit 0 is never the one.
pub proof fn lemma_flipped_in_family(n: Seq<u32>, pick: u8, bit: u8)
    requires
        in_family(n),
    ensures
        in_family(flipped(n, pick, bit)),
{
    let mask = flip_mask(bit);
    let shift = (bit % 32) as u32;
    assert(mask % 2 == 0) by {
        if shift != 0 {
            assert((1u32 << shift) % 2 == 0) by (bit_vector)
                requires
                    1 <= shift < 32,
            ;
        }
    }
    let old = n[picked(pick)];
    assert((old ^ mask) % 2 == old % 2) by (bit_vector)
        requires
            mask % 2 == 0,
    ;
    assert(flipped(n, pick, bit).take(6) =~= n.take(6));
}

/// Every vector of a lineage is in the family.
proof fn lemma_lineage_in_family(chain: Seq<[u32; 8]>, k: int)
    requires
        lineage(&ConstantSearch, chain),
        0 <= k < chain.len(),
    ensures
        in_family(chain[k]@),
    decreases k,
{
    if k == 0 {
        let (a, b) = choose|a: u32, b: u32| chain[0]@ == #[trigger] seeded(a, b);
        lemma_seeded_in_family(a, b);
    } else {
        lemma_lineage_in_family(chain, k - 1);
        assert(ConstantSearch.mutates(chain[k - 1], chain[k]));
        let (pick, bit) = choose|pick: u8, bit: u8|
            chain[k]@ == #[trigger] flipped(chain[k - 1]@, pick, bit);
        lemma_flipped_in_family(chain[k - 1]@, pick, bit);
    }
}

/// Whatever the search derives is in the family: the fixed constants stay,
/// the seventh stays even and the eighth odd.
pub proof fn lemma_derived_in_family(params: [u32; 8])
    requires
        derived(&ConstantSearch, params),
    ensures
        in_family(params@),
{
    let chain = choose|chain: Seq<[u32; 8]>| #[trigger]
        lineage(&ConstantSearch, chain) && chain.last() == params;
    lemma_lineage_in_family(chain, chain.len() - 1);
}

/// Searches for `rounds` rounds, with two candidates. Returns the constants
/// found and their measurement.
pub fn search_constants(rounds: usize) -> (best: ([u32; 8], Stats))
    ensures
        search_outcome(&ConstantSearch, rounds as nat, 2, best),
        in_family(best.0@),
        rounds == 0 ==> best.1@ == Tally::zero(),
        rounds > 0 ==> measurement(
            &bound(&ConstantSearch, best.0),
            chunks_for(STAT_ROUNDS as nat),
            best.1@,
        ),
{
    let best = optimize(rounds, 2, &ConstantSearch);
    proof {
        lemma_derived_in_family(best.0);
    }
    best
}

} // verus!
