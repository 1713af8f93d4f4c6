//! The bias measurement engine.
//!
//! A sample flips each bit of a random input in turn and counts which output
//! bits follow (avalanche), and sorts one pair of random inputs into a bin by
//! what mixing does to their difference (tree seeding). Samples come in
//! chunks; a measurement is the total of its chunks.

use crate::bits::{bit, reverse_bits, reversed, test_bit};
use crate::mixer::Mixer;
use crate::random::random_u32;
use crate::stats::{lemma_total_bounded, lemma_wrapped_bounded, total, Matrix, Stats, Tally};
use rayon::iter::{IntoParallelIterator, ParallelIterator};
use vstd::prelude::*;

verus! {

/// Samples in a chunk.
pub const SUB_ROUNDS: usize = 256;

/// The random words of one sample.
#[derive(Copy, Clone, Debug, PartialEq, Eq)]
pub struct Draw {
    /// The input whose bits are flipped.
    pub input: u32,
    /// The seed the pair is mixed under.
    pub tree_seed: u32,
    /// The pair's first input.
    pub first: u32,
    /// The pair's second input.
    pub second: u32,
}

/// Whether flipping bit `bit_in` of `input` flips bit `bit_out` of what `h`
/// makes of it under `seed`.
pub open spec fn flips<H: Mixer>(h: &H, seed: u32, input: u32, bit_in: u32, bit_out: u32) -> bool {
    bit(h.mix_spec(input, seed) ^ h.mix_spec(input ^ (1u32 << bit_in), seed), bit_out)
}

/// In how many of `draws` flipping bit `bit_in` of the input flips bit
/// `bit_out` of the output.
pub open spec fn flip_count<H: Mixer>(
    h: &H,
    seed: u32,
    draws: Seq<Draw>,
    bit_in: u32,
    bit_out: u32,
) -> nat
    decreases draws.len(),
{
    if draws.len() == 0 {
        0
    } else {
        flip_count(h, seed, draws.drop_last(), bit_in, bit_out) + if flips(
            h,
            seed,
            draws.last().input,
            bit_in,
            bit_out,
        ) {
            1nat
        } else {
            0nat
        }
    }
}

/// The bin of a pair of inputs and their outputs, if it has one.
///
/// Both coordinates are the top six bits of a reversed word: of the inputs'
/// difference mixed with the outputs' for the row, of the inputs' difference
/// alone for the column. A column in the lower half has no bin; the upper
/// half is numbered from 0, and the row counts modulo 32.
pub open spec fn tree_bin(first: u32, second: u32, out_first: u32, out_second: u32) -> Option<
    (int, int),
> {
    let x = reversed(first ^ second ^ out_first ^ out_second) >> 26;
    let y = reversed(first ^ second) >> 26;
    if y >= 32 {
        Some(((x & 31) as int, y - 32))
    } else {
        None
    }
}

/// The bin of the pair of `draw` under `h`.
pub open spec fn draw_bin<H: Mixer>(h: &H, draw: Draw) -> Option<(int, int)> {
    tree_bin(
        draw.first,
        draw.second,
        h.mix_spec(draw.first, draw.tree_seed),
        h.mix_spec(draw.second, draw.tree_seed),
    )
}

/// How many of `draws` fall into bin (`x`, `y`).
pub open spec fn bin_count<H: Mixer>(h: &H, draws: Seq<Draw>, x: int, y: int) -> nat
    decreases draws.len(),
{
    if draws.len() == 0 {
        0
    } else {
        bin_count(h, draws.drop_last(), x, y) + if draw_bin(h, draws.last()) == Some((x, y)) {
            1nat
        } else {
            0nat
        }
    }
}

/// How far `count` of `len` is from one half of them, doubled.
pub open spec fn deviation(count: nat, len: nat) -> nat {
    if 2 * count >= len {
        (2 * count - len) as nat
    } else {
        (len - 2 * count) as nat
    }
}

/// What one chunk counts, given its seed and its draws.
pub open spec fn chunk_tally<H: Mixer>(h: &H, seed: u32, draws: Seq<Draw>) -> Tally {
    Tally {
        avalanche: Seq::new(
            1024,
            |k: int|
                deviation(
                    flip_count(h, seed, draws, (k / 32) as u32, (k % 32) as u32),
                    draws.len(),
                ),
        ),
        tree: Seq::new(1024, |k: int| bin_count(h, draws, k / 32, k % 32)),
        samples: draws.len(),
    }
}

/// Whether `t` is what a chunk of `SUB_ROUNDS` samples can count.
pub open spec fn chunk_outcome<H: Mixer>(h: &H, t: Tally) -> bool {
    exists|seed: u32, draws: Seq<Draw>|
        draws.len() == 256 && t == #[trigger] chunk_tally(h, seed, draws)
}

/// Whether `t` is what a measurement of `chunks` chunks can count.
pub open spec fn measurement<H: Mixer>(h: &H, chunks: nat, t: Tally) -> bool {
    exists|parts: Seq<Tally>|
        parts.len() == chunks && t == #[trigger] total(parts) && forall|i: int|
            0 <= i < parts.len() ==> chunk_outcome(h, #[trigger] parts[i])
}

/// The chunks that `rounds` samples take: the count is rounded up.
pub open spec fn chunks_for(rounds: nat) -> nat {
    (rounds + 255) / 256
}

/// No flip is counted more often than there are draws.
pub proof fn lemma_flip_count_bounded<H: Mixer>(
    h: &H,
    seed: u32,
    draws: Seq<Draw>,
    bit_in: u32,
    bit_out: u32,
)
    ensures
        flip_count(h, seed, draws, bit_in, bit_out) <= draws.len(),
    decreases draws.len(),
{
    if draws.len() > 0 {
        lemma_flip_count_bounded(h, seed, draws.drop_last(), bit_in, bit_out);
    }
}

/// No bin holds more than there are draws.
pub proof fn lemma_bin_count_bounded<H: Mixer>(h: &H, draws: Seq<Draw>, x: int, y: int)
    ensures
        bin_count(h, draws, x, y) <= draws.len(),
    decreases draws.len(),
{
    if draws.len() > 0 {
        lemma_bin_count_bounded(h, draws.drop_last(), x, y);
    }
}

/// A chunk's counts stay within its samples: no bias is above 1.
pub proof fn lemma_chunk_bounded<H: Mixer>(h: &H, seed: u32, draws: Seq<Draw>)
    ensures
        chunk_tally(h, seed, draws).bounded(),
{
    let t = chunk_tally(h, seed, draws);
    assert forall|k: int| 0 <= k < 1024 implies t.avalanche[k] <= t.samples by {
        lemma_flip_count_bounded(h, seed, draws, (k / 32) as u32, (k % 32) as u32);
    }
    assert forall|k: int| 0 <= k < 1024 implies t.tree[k] <= t.samples by {
        lemma_bin_count_bounded(h, draws, k / 32, k % 32);
    }
}

/// The flips counted in two runs of draws add up.
pub proof fn lemma_flip_count_split<H: Mixer>(
    h: &H,
    seed: u32,
    first: Seq<Draw>,
    second: Seq<Draw>,
    bit_in: u32,
    bit_out: u32,
)
    ensures
        flip_count(h, seed, first + second, bit_in, bit_out) == flip_count(
            h,
            seed,
            first,
            bit_in,
            bit_out,
        ) + flip_count(h, seed, second, bit_in, bit_out),
    decreases second.len(),
{
    if second.len() == 0 {
        assert(first + second =~= first);
    } else {
        assert((first + second).drop_last() =~= first + second.drop_last());
        lemma_flip_count_split(h, seed, first, second.drop_last(), bit_in, bit_out);
    }
}

/// The pairs that two runs of draws put into a bin add up.
pub proof fn lemma_bin_count_split<H: Mixer>(
    h: &H,
    first: Seq<Draw>,
    second: Seq<Draw>,
    x: int,
    y: int,
)
    ensures
        bin_count(h, first + second, x, y) == bin_count(h, first, x, y) + bin_count(
            h,
            second,
            x,
            y,
        ),
    decreases second.len(),
{
    if second.len() == 0 {
        assert(first + second =~= first);
    } else {
        assert((first + second).drop_last() =~= first + second.drop_last());
        lemma_bin_count_split(h, first, second.drop_last(), x, y);
    }
}

/// One chunk of two runs of draws against two chunks of one run each, under
/// one seed: the samples and the tree matrix are the same, and no cell of the
/// avalanche matrix is larger. It can be smaller, for the two runs may lean to
/// opposite sides of one half; so the size of the chunks is part of what is
/// measured, and only chunks of one size are taken together.
pub proof fn lemma_chunk_split<H: Mixer>(h: &H, seed: u32, first: Seq<Draw>, second: Seq<Draw>)
    ensures
        chunk_tally(h, seed, first + second).samples == chunk_tally(h, seed, first).plus(
            chunk_tally(h, seed, second),
        ).samples,
        chunk_tally(h, seed, first + second).tree == chunk_tally(h, seed, first).plus(
            chunk_tally(h, seed, second),
        ).tree,
        forall|k: int|
            0 <= k < 1024 ==> #[trigger] chunk_tally(h, seed, first + second).avalanche[k]
                <= chunk_tally(h, seed, first).plus(chunk_tally(h, seed, second)).avalanche[k],
{
    let whole = chunk_tally(h, seed, first + second);
    let parts = chunk_tally(h, seed, first).plus(chunk_tally(h, seed, second));
    assert forall|k: int| 0 <= k < 1024 implies whole.tree[k] == parts.tree[k] by {
        lemma_bin_count_split(h, first, second, k / 32, k % 32);
    }
    assert(whole.tree =~= parts.tree);
    assert forall|k: int| 0 <= k < 1024 implies #[trigger] whole.avalanche[k]
        <= parts.avalanche[k] by {
        lemma_flip_count_split(h, seed, first, second, (k / 32) as u32, (k % 32) as u32);
    }
}

/// A measurement's counts stay within its samples, of which there are 256
/// for each chunk: no bias is above 1.
pub proof fn lemma_measurement_bounded<H: Mixer>(h: &H, chunks: nat, t: Tally)
    requires
        measurement(h, chunks, t),
    ensures
        t.bounded(),
        t.samples == 256 * chunks,
{
    let parts = choose|parts: Seq<Tally>|
        parts.len() == chunks && t == #[trigger] total(parts) && forall|i: int|
            0 <= i < parts.len() ==> chunk_outcome(h, #[trigger] parts[i]);
    lemma_chunks_bounded(h, parts);
    lemma_total_bounded(parts, 256);
}

/// The outcomes of chunks stay within their 256 samples each.
proof fn lemma_chunks_bounded<H: Mixer>(h: &H, parts: Seq<Tally>)
    requires
        forall|i: int| 0 <= i < parts.len() ==> chunk_outcome(h, #[trigger] parts[i]),
    ensures
        forall|i: int| 0 <= i < parts.len() ==> (#[trigger] parts[i]).bounded(),
        forall|i: int| 0 <= i < parts.len() ==> (#[trigger] parts[i]).samples == 256,
{
    assert forall|i: int| 0 <= i < parts.len() implies (#[trigger] parts[i]).bounded()
        && parts[i].samples == 256 by {
        let (seed, draws) = choose|seed: u32, draws: Seq<Draw>|
            draws.len() == 256 && parts[i] == #[trigger] chunk_tally(h, seed, draws);
        lemma_chunk_bounded(h, seed, draws);
    }
}

/// Whether flipping a bit of the input flips that bit of the output and no
/// other, as it does when the input passes through unchanged or is xored
/// with the seed.
pub open spec fn bitwise<H: Mixer>(h: &H) -> bool {
    forall|input: u32, seed: u32, b: u32|
        b < 32 ==> #[trigger] h.mix_spec(input ^ (1u32 << b), seed) == h.mix_spec(input, seed) ^ (
        1u32 << b)
}

/// The mixer that returns its input is bitwise.
pub proof fn lemma_identity_is_bitwise<H: Mixer>(h: &H)
    requires
        forall|input: u32, seed: u32| #[trigger] h.mix_spec(input, seed) == input,
    ensures
        bitwise(h),
{
}

/// The mixer that xors its input with the seed is bitwise, whatever the
/// seed.
pub proof fn lemma_xor_seed_is_bitwise<H: Mixer>(h: &H)
    requires
        forall|input: u32, seed: u32| #[trigger] h.mix_spec(input, seed) == input ^ seed,
    ensures
        bitwise(h),
{
    assert forall|input: u32, seed: u32, b: u32| b < 32 implies #[trigger] h.mix_spec(
        input ^ (1u32 << b),
        seed,
    ) == h.mix_spec(input, seed) ^ (1u32 << b) by {
        assert((input ^ (1u32 << b)) ^ seed == (input ^ seed) ^ (1u32 << b)) by (bit_vector);
    }
}

/// Under a bitwise mixer an output bit follows an input bit in every draw if
/// it is the same bit, and in none if it is another.
pub proof fn lemma_bitwise_flip_count<H: Mixer>(
    h: &H,
    seed: u32,
    draws: Seq<Draw>,
    bit_in: u32,
    bit_out: u32,
)
    requires
        bitwise(h),
        bit_in < 32,
        bit_out < 32,
    ensures
        flip_count(h, seed, draws, bit_in, bit_out) == if bit_in == bit_out {
            draws.len()
        } else {
            0
        },
    decreases draws.len(),
{
    if draws.len() > 0 {
        lemma_bitwise_flip_count(h, seed, draws.drop_last(), bit_in, bit_out);
        let out = h.mix_spec(draws.last().input, seed);
        assert(h.mix_spec(draws.last().input ^ (1u32 << bit_in), seed) == out ^ (1u32 << bit_in));
        assert(bit(out ^ (out ^ (1u32 << bit_in)), bit_out) == (bit_in == bit_out))
            by (bit_vector)
            requires
                bit_in < 32,
                bit_out < 32,
        ;
    }
}

/// Under a bitwise mixer every cell of a chunk's avalanche matrix holds the
/// number of samples: on the diagonal the bit always follows, off it never,
/// and both are as far from one half as can be.
pub proof fn lemma_bitwise_chunk<H: Mixer>(h: &H, seed: u32, draws: Seq<Draw>)
    requires
        bitwise(h),
    ensures
        forall|k: int|
            0 <= k < 1024 ==> #[trigger] chunk_tally(h, seed, draws).avalanche[k] == draws.len(),
{
    assert forall|k: int| 0 <= k < 1024 implies #[trigger] chunk_tally(
        h,
        seed,
        draws,
    ).avalanche[k] == draws.len() by {
        lemma_bitwise_flip_count(h, seed, draws, (k / 32) as u32, (k % 32) as u32);
    }
}

/// Where every part's cell `k` of the avalanche matrix holds the number of
/// that part's samples, so does the total's.
proof fn lemma_total_saturated(parts: Seq<Tally>, k: int)
    requires
        0 <= k < 1024,
        forall|i: int|
            0 <= i < parts.len() ==> (#[trigger] parts[i]).avalanche[k] == parts[i].samples,
    ensures
        total(parts).avalanche[k] == total(parts).samples,
    decreases parts.len(),
{
    if parts.len() > 0 {
        lemma_total_saturated(parts.drop_last(), k);
        assert(parts.last() == parts[parts.len() - 1]);
    }
}

/// A measurement of a bitwise mixer shows a bias of 1 in every cell of the
/// avalanche matrix, the diagonal among them, whatever was drawn.
pub proof fn lemma_bitwise_measurement<H: Mixer>(h: &H, chunks: nat, t: Tally)
    requires
        bitwise(h),
        measurement(h, chunks, t),
    ensures
        forall|k: int| 0 <= k < 1024 ==> #[trigger] t.avalanche[k] == t.samples,
{
    let parts = choose|parts: Seq<Tally>|
        parts.len() == chunks && t == #[trigger] total(parts) && forall|i: int|
            0 <= i < parts.len() ==> chunk_outcome(h, #[trigger] parts[i]);
    assert forall|k: int| 0 <= k < 1024 implies #[trigger] t.avalanche[k] == t.samples by {
        assert forall|i: int| 0 <= i < parts.len() implies (#[trigger] parts[i]).avalanche[k]
            == parts[i].samples by {
            let (seed, draws) = choose|seed: u32, draws: Seq<Draw>|
                draws.len() == 256 && parts[i] == #[trigger] chunk_tally(h, seed, draws);
            lemma_bitwise_chunk(h, seed, draws);
        }
        lemma_total_saturated(parts, k);
    }
}

/// Adds one to each cell of row `row` whose bit is set in `diff`.
fn tally_row(counts: &mut Matrix, row: usize, diff: u32)
    requires
        row < 32,
        forall|k: int| 0 <= k < 1024 && k / 32 == row ==> old(counts)@[k] < u64::MAX,
    ensures
        forall|k: int|
            0 <= k < 1024 ==> #[trigger] final(counts)@[k] == old(counts)@[k] + if k / 32 == row
                && bit(diff, (k % 32) as u32) {
                1nat
            } else {
                0nat
            },
{
    let mut col: u32 = 0;
    while col < 32
        invariant
            col <= 32,
            row < 32,
            forall|k: int| 0 <= k < 1024 && k / 32 == row ==> old(counts)@[k] < u64::MAX,
            forall|k: int|
                0 <= k < 1024 ==> #[trigger] counts@[k] == old(counts)@[k] + if k / 32 == row && k
                    % 32 < col && bit(diff, (k % 32) as u32) {
                    1nat
                } else {
                    0nat
                },
        decreases 32 - col,
    {
        if test_bit(diff, col) {
            let c = counts.get(row, col as usize);
            counts.set(row, col as usize, c + 1);
        }
        col += 1;
    }
}

/// Counts, for one input, which output bits follow each input bit.
pub fn tally_flips<H: Mixer>(h: &H, seed: u32, input: u32, counts: &mut Matrix)
    requires
        h.valid(),
        forall|k: int| 0 <= k < 1024 ==> old(counts)@[k] < u64::MAX,
    ensures
        forall|k: int|
            0 <= k < 1024 ==> #[trigger] final(counts)@[k] == old(counts)@[k] + if flips(
                h,
                seed,
                input,
                (k / 32) as u32,
                (k % 32) as u32,
            ) {
                1nat
            } else {
                0nat
            },
{
    let output = h.mix(input, seed);
    let mut bit_in: u32 = 0;
    while bit_in < 32
        invariant
            bit_in <= 32,
            h.valid(),
            output == h.mix_spec(input, seed),
            forall|k: int| 0 <= k < 1024 ==> old(counts)@[k] < u64::MAX,
            forall|k: int|
                0 <= k < 1024 ==> #[trigger] counts@[k] == old(counts)@[k] + if k / 32 < bit_in
                    && flips(h, seed, input, (k / 32) as u32, (k % 32) as u32) {
                    1nat
                } else {
                    0nat
                },
        decreases 32 - bit_in,
    {
        let flipped = h.mix(input ^ (1u32 << bit_in), seed);
        tally_row(counts, bit_in as usize, output ^ flipped);
        bit_in += 1;
    }
}

/// The bin of a pair of inputs and their outputs, if it has one.
pub fn bin_of(first: u32, second: u32, out_first: u32, out_second: u32) -> (r: Option<
    (usize, usize),
>)
    ensures
        match r {
            Some((x, y)) => x < 32 && y < 32 && tree_bin(first, second, out_first, out_second)
                == Some((x as int, y as int)),
            None => tree_bin(first, second, out_first, out_second) is None,
        },
{
    let rx = reverse_bits(first ^ second ^ out_first ^ out_second);
    let ry = reverse_bits(first ^ second);
    let x = rx >> 26;
    let y = ry >> 26;
    assert((rx >> 26) & 31 < 32) by (bit_vector);
    assert(ry >> 26 < 64) by (bit_vector);
    if y >= 32 {
        Some(((x & 31) as usize, (y - 32) as usize))
    } else {
        None
    }
}

/// Counts the bin of one pair.
pub fn tally_bin<H: Mixer>(h: &H, draw: Draw, bins: &mut Matrix)
    requires
        h.valid(),
        forall|k: int| 0 <= k < 1024 ==> old(bins)@[k] < u64::MAX,
    ensures
        forall|k: int|
            0 <= k < 1024 ==> #[trigger] final(bins)@[k] == old(bins)@[k] + if draw_bin(h, draw)
                == Some((k / 32, k % 32)) {
                1nat
            } else {
                0nat
            },
{
    let out_first = h.mix(draw.first, draw.tree_seed);
    let out_second = h.mix(draw.second, draw.tree_seed);
    match bin_of(draw.first, draw.second, out_first, out_second) {
        Some((x, y)) => {
            let c = bins.get(x, y);
            bins.set(x, y, c + 1);
        },
        None => {},
    }
}

/// Turns counts out of `len` into doubled distances from one half of `len`.
fn deviations(counts: &Matrix, len: u64) -> (m: Matrix)
    requires
        forall|k: int| 0 <= k < 1024 ==> counts@[k] <= len,
    ensures
        forall|k: int| 0 <= k < 1024 ==> #[trigger] m@[k] == deviation(counts@[k], len as nat),
{
    let mut m = Matrix::zero();
    let mut k: usize = 0;
    while k < 1024
        invariant
            k <= 1024,
            forall|j: int| 0 <= j < 1024 ==> counts@[j] <= len,
            forall|j: int|
                0 <= j < k ==> #[trigger] m.cells@[j] == deviation(counts@[j], len as nat),
        decreases 1024 - k,
    {
        let count = counts.cells[k];
        assert(count == counts@[k as int]);
        let rest = len - count;
        m.cells[k] = if count >= rest {
            count - rest
        } else {
            rest - count
        };
        k += 1;
    }
    m
}

/// Measures one chunk with the given seed and draws.
pub fn measure_chunk_with<H: Mixer>(h: &H, seed: u32, draws: &Vec<Draw>) -> (s: Stats)
    requires
        h.valid(),
    ensures
        s@ == chunk_tally(h, seed, draws@),
{
    let mut counts = Matrix::zero();
    let mut bins = Matrix::zero();
    let mut i: usize = 0;
    while i < draws.len()
        invariant
            i <= draws.len(),
            h.valid(),
            forall|k: int|
                0 <= k < 1024 ==> #[trigger] counts@[k] == flip_count(
                    h,
                    seed,
                    draws@.take(i as int),
                    (k / 32) as u32,
                    (k % 32) as u32,
                ),
            forall|k: int|
                0 <= k < 1024 ==> #[trigger] bins@[k] == bin_count(
                    h,
                    draws@.take(i as int),
                    k / 32,
                    k % 32,
                ),
        decreases draws.len() - i,
    {
        let draw = draws[i];
        proof {
            let before = draws@.take(i as int);
            let after = draws@.take(i + 1);
            assert(after.drop_last() =~= before);
            assert(after.last() == draw);
            assert forall|k: int| 0 <= k < 1024 implies counts@[k] < u64::MAX && bins@[k]
                < u64::MAX by {
                lemma_flip_count_bounded(h, seed, before, (k / 32) as u32, (k % 32) as u32);
                lemma_bin_count_bounded(h, before, k / 32, k % 32);
            }
        }
        tally_flips(h, seed, draw.input, &mut counts);
        tally_bin(h, draw, &mut bins);
        i += 1;
    }
    let len = draws.len() as u64;
    proof {
        assert(draws@.take(i as int) =~= draws@);
        assert forall|k: int| 0 <= k < 1024 implies counts@[k] <= len by {
            lemma_flip_count_bounded(h, seed, draws@, (k / 32) as u32, (k % 32) as u32);
        }
    }
    let avalanche = deviations(&counts, len);
    let s = Stats { avalanche, tree: bins, samples: len };
    assert(s@ =~= chunk_tally(h, seed, draws@));
    s
}

/// Draws the random words of `count` samples.
fn draw_samples(count: usize) -> (draws: Vec<Draw>)
    ensures
        draws@.len() == count,
{
    let mut draws: Vec<Draw> = Vec::new();
    let mut i: usize = 0;
    while i < count
        invariant
            i <= count,
            draws@.len() == i,
        decreases count - i,
    {
        let input = random_u32();
        let tree_seed = random_u32();
        let first = random_u32();
        let second = random_u32();
        draws.push(Draw { input, tree_seed, first, second });
        i += 1;
    }
    draws
}

/// Measures one chunk of `SUB_ROUNDS` random samples under a random seed.
pub fn measure_chunk<H: Mixer>(h: &H) -> (s: Stats)
    requires
        h.valid(),
    ensures
        chunk_outcome(h, s@),
{
    let seed = random_u32();
    let draws = draw_samples(SUB_ROUNDS);
    measure_chunk_with(h, seed, &draws)
}

/// The number of chunks that `rounds` samples take.
pub fn chunk_count(rounds: u32) -> (chunks: u32)
    ensures
        chunks == chunks_for(rounds as nat),
{
    if rounds % 256 != 0 {
        rounds / 256 + 1
    } else {
        rounds / 256
    }
}

/// Whether `t` is what a measurement of `chunks` chunks can count, every
/// number modulo 2^64.
pub open spec fn wrapped_measurement<H: Mixer>(h: &H, chunks: nat, t: Tally) -> bool {
    exists|parts: Seq<Tally>|
        parts.len() == chunks && t == (#[trigger] total(parts)).wrapped() && forall|i: int|
            0 <= i < parts.len() ==> chunk_outcome(h, #[trigger] parts[i])
}

/// `measure_chunk`, with the result on the heap: a worker thread's stack is
/// small, and the reduction nests deeply.
fn chunk_on_heap<H: Mixer>(h: &H) -> (s: Box<Stats>)
    requires
        h.valid(),
    ensures
        chunk_outcome(h, (*s)@),
{
    Box::new(measure_chunk(h))
}

/// `Stats::zero`, on the heap.
fn zero_on_heap() -> (s: Box<Stats>)
    ensures
        (*s)@ == Tally::zero(),
{
    Box::new(Stats::zero())
}

/// `Stats::merge`, on the heap.
fn merge_on_heap(a: Box<Stats>, b: Box<Stats>) -> (s: Box<Stats>)
    ensures
        (*s)@ == (*a)@.plus((*b)@).wrapped(),
{
    Box::new((*a).merge(*b))
}

/// rayon's `into_par_iter().map(..).reduce(..)` over the chunk numbers: one
/// chunk is measured for each of them, on whichever thread, and the results
/// are merged, starting from zeros, in an order and a grouping that rayon
/// chooses. Merging is cell-wise addition modulo 2^64, for which neither
/// matters: what comes back is the total of the chunks, modulo 2^64.
#[verifier::external_body]
fn reduce_chunks<H: Mixer + Sync>(h: &H, chunks: u32) -> (s: Stats)
    requires
        h.valid(),
    ensures
        wrapped_measurement(h, chunks as nat, s@),
{
    *(0..chunks)
        .into_par_iter()
        .map(|_| chunk_on_heap(h))
        .reduce(|| zero_on_heap(), |a, b| merge_on_heap(a, b))
}

/// Measures the bias of `h` over `rounds` random samples, rounded up to
/// whole chunks, which are measured in parallel.
pub fn measure_avalanche<H: Mixer + Sync>(h: &H, rounds: u32) -> (s: Stats)
    requires
        h.valid(),
    ensures
        measurement(h, chunks_for(rounds as nat), s@),
        s@.bounded(),
        s@.samples == 256 * chunks_for(rounds as nat),
{
    let chunks = chunk_count(rounds);
    let s = reduce_chunks(h, chunks);
    proof {
        let parts = choose|parts: Seq<Tally>|
            parts.len() == chunks && s@ == (#[trigger] total(parts)).wrapped() && forall|i: int|
                0 <= i < parts.len() ==> chunk_outcome(h, #[trigger] parts[i]);
        lemma_chunks_bounded(h, parts);
        lemma_total_bounded(parts, 256);
        lemma_wrapped_bounded(total(parts));
    }
    s
}

} // verus!
