//! The score of a measurement: how far its two matrices are from what an
//! ideal scramble would show. Lower is better, and zero is out of reach.
//!
//! With `c` a cell of the tree matrix, `a` a cell of the avalanche matrix,
//! `n` the samples and `t` the target in millionths, the score is the sum,
//! over the cells above the diagonal, of
//! `(1024 c / n - 1/2)^2 + (a / n - t / 10^6)^2`. Brought over the common
//! denominator `(2 * 10^6 * n)^2` its numerator is a whole number, and that
//! number is what is computed here.

use crate::stats::{Fraction, Stats, Tally};
use vstd::prelude::*;

verus! {

/// The most samples a measurement can hold for its score to fit 128 bits.
pub const MAX_SCORED_SAMPLES: u64 = 0x1000_0000;

/// The bias, in millionths, that an ideal scramble shows at each output bit
/// from the input bits below it: none at bit 0, all of it at bit 1, and from
/// there on a little under three quarters of the bit before.
pub const TARGET_BIAS: [u64; 32] = [
    0, 1000000, 500000, 375000, 273437, 196380, 139949, 99346,
    70386, 49819, 35244, 24927, 17628, 12466, 8815, 6233,
    4407, 3117, 2204, 1558, 1102, 779, 551, 390,
    275, 195, 138, 97, 69, 49, 34, 24,
];

/// The target bias of output bit `bit_out`, in millionths.
pub open spec fn target(bit_out: int) -> nat {
    TARGET_BIAS@[bit_out] as nat
}

/// Whether a cell lies above the diagonal: only those are scored.
pub open spec fn above_diagonal(k: int) -> bool {
    k / 32 < k % 32
}

/// The numerator of `(1024 count / samples - 1/2)^2`.
pub open spec fn tree_term(count: nat, samples: nat) -> nat {
    let d = 1_000_000 * (2048 * count - samples);
    (d * d) as nat
}

/// The numerator of `(sum / samples - target / 10^6)^2`.
pub open spec fn avalanche_term(sum: nat, samples: nat, target: nat) -> nat {
    let d = 2 * (1_000_000 * sum - target * samples);
    (d * d) as nat
}

/// What cell `k` adds to the score's numerator.
pub open spec fn cell_term(t: Tally, k: int) -> nat {
    if above_diagonal(k) {
        tree_term(t.tree[k], t.samples) + avalanche_term(t.avalanche[k], t.samples, target(k % 32))
    } else {
        0
    }
}

/// What the first `cells` cells add to the score's numerator.
pub open spec fn partial_score(t: Tally, cells: int) -> nat
    decreases cells,
{
    if cells <= 0 {
        0
    } else {
        partial_score(t, cells - 1) + cell_term(t, cells - 1)
    }
}

/// The score's numerator.
pub open spec fn score_numerator(t: Tally) -> nat {
    partial_score(t, 1024)
}

/// The score's denominator. It depends on the samples alone, so that among
/// measurements of one size the numerators decide.
pub open spec fn score_denominator(samples: nat) -> nat {
    (2_000_000 * samples) * (2_000_000 * samples)
}

/// What the first `cells` cells above the diagonal of the avalanche matrix
/// add up to.
pub open spec fn partial_bias(t: Tally, cells: int) -> nat
    decreases cells,
{
    if cells <= 0 {
        0
    } else {
        partial_bias(t, cells - 1) + if above_diagonal(cells - 1) {
            t.avalanche[cells - 1]
        } else {
            0
        }
    }
}

/// The sum of the avalanche matrix above its diagonal. Divided by the 496
/// cells there and by the samples it is the average bias.
pub open spec fn bias_sum(t: Tally) -> nat {
    partial_bias(t, 1024)
}

/// The largest value a cell's term can take.
pub open spec fn term_limit() -> nat {
    0x3a26a085d639500000000000000000
}

/// With bounded counts of no more than `MAX_SCORED_SAMPLES` samples no
/// cell's term exceeds the limit.
proof fn lemma_term_limit(t: Tally, k: int)
    requires
        t.bounded(),
        t.samples <= MAX_SCORED_SAMPLES,
        0 <= k < 1024,
    ensures
        tree_term(t.tree[k], t.samples) <= 301936379056071978778624000000000000,
        avalanche_term(t.avalanche[k], t.samples, target(k % 32))
            <= 288230376151711744000000000000,
        cell_term(t, k) <= term_limit(),
{
    let n = t.samples as int;
    let c = t.tree[k] as int;
    let a = t.avalanche[k] as int;
    let g = target(k % 32) as int;
    assert(0 <= g <= 1_000_000);
    let d = 1_000_000 * (2048 * c - n);
    assert(-549487378432000000 <= d <= 549487378432000000);
    assert(d * d <= 549487378432000000 * 549487378432000000) by (nonlinear_arith)
        requires
            -549487378432000000 <= d <= 549487378432000000,
    ;
    assert(0 <= g * n <= 1_000_000 * n) by (nonlinear_arith)
        requires
            0 <= g <= 1_000_000,
            0 <= n,
    ;
    let e = 2 * (1_000_000 * a - g * n);
    assert(-536870912000000 <= e <= 536870912000000);
    assert(e * e <= 536870912000000 * 536870912000000) by (nonlinear_arith)
        requires
            -536870912000000 <= e <= 536870912000000,
    ;
    assert(d * d >= 0 && e * e >= 0) by (nonlinear_arith);
}

/// The terms of the first `cells` cells add up to no more than as many
/// limits.
proof fn lemma_partial_score_limit(t: Tally, cells: int)
    requires
        t.bounded(),
        t.samples <= MAX_SCORED_SAMPLES,
        0 <= cells <= 1024,
    ensures
        partial_score(t, cells) <= cells * term_limit(),
    decreases cells,
{
    if cells > 0 {
        lemma_partial_score_limit(t, cells - 1);
        lemma_term_limit(t, cells - 1);
    }
}

/// The target bias of output bit `bit_out`, in millionths.
pub fn target_bias(bit_out: usize) -> (t: u64)
    requires
        bit_out < 32,
    ensures
        t == target(bit_out as int),
        t <= 1_000_000,
{
    TARGET_BIAS[bit_out]
}

/// The distance between two numbers.
fn distance(a: u128, b: u128) -> (d: u128)
    ensures
        d == if a >= b {
            a - b
        } else {
            b - a
        },
{
    if a >= b {
        a - b
    } else {
        b - a
    }
}

/// The numerator of the score of `stats`, over `score_denominator`.
pub fn score(stats: &Stats) -> (r: u128)
    requires
        stats@.bounded(),
        stats.samples <= MAX_SCORED_SAMPLES,
    ensures
        r == score_numerator(stats@),
{
    let samples = stats.samples as u128;
    let mut sum: u128 = 0;
    let mut k: usize = 0;
    while k < 1024
        invariant
            k <= 1024,
            stats@.bounded(),
            stats.samples <= MAX_SCORED_SAMPLES,
            samples == stats.samples,
            sum == partial_score(stats@, k as int),
        decreases 1024 - k,
    {
        proof {
            lemma_partial_score_limit(stats@, k as int);
            lemma_term_limit(stats@, k as int);
        }
        let row = k / 32;
        let col = k % 32;
        if row < col {
            let count = stats.tree.cells[k] as u128;
            let bias = stats.avalanche.cells[k] as u128;
            let goal = target_bias(col) as u128;
            assert(count == stats@.tree[k as int] && bias == stats@.avalanche[k as int]);
            assert(goal * samples <= 1_000_000 * samples) by (nonlinear_arith)
                requires
                    goal <= 1_000_000,
            ;
            let d = 1_000_000 * distance(2048 * count, samples);
            let e = 2 * distance(1_000_000 * bias, goal * samples);
            assert(d * d == tree_term(count as nat, samples as nat)) by (nonlinear_arith)
                requires
                    d == 1_000_000 * (2048 * count - samples) || d == 1_000_000 * (samples - 2048
                        * count),
            ;
            assert(e * e == avalanche_term(bias as nat, samples as nat, goal as nat))
                by (nonlinear_arith)
                requires
                    e == 2 * (1_000_000 * bias - goal * samples) || e == 2 * (goal * samples
                        - 1_000_000 * bias),
            ;
            sum = sum + d * d + e * e;
        }
        k += 1;
    }
    sum
}

/// The sum cannot outgrow its cells.
proof fn lemma_partial_bias_limit(t: Tally, cells: int, limit: nat)
    requires
        0 <= cells <= 1024,
        forall|k: int| 0 <= k < 1024 ==> t.avalanche[k] <= limit,
    ensures
        partial_bias(t, cells) <= cells * limit,
    decreases cells,
{
    if cells > 0 {
        lemma_partial_bias_limit(t, cells - 1, limit);
        assert(cells * limit == (cells - 1) * limit + limit) by (nonlinear_arith);
    }
}

/// The sum of the avalanche matrix above its diagonal.
pub fn upper_bias_sum(stats: &Stats) -> (r: u128)
    ensures
        r == bias_sum(stats@),
{
    let mut sum: u128 = 0;
    let mut k: usize = 0;
    while k < 1024
        invariant
            k <= 1024,
            sum == partial_bias(stats@, k as int),
        decreases 1024 - k,
    {
        proof {
            lemma_partial_bias_limit(stats@, k as int, u64::MAX as nat);
        }
        if k / 32 < k % 32 {
            let bias = stats.avalanche.cells[k];
            assert(bias == stats@.avalanche[k as int]);
            sum = sum + bias as u128;
        }
        k += 1;
    }
    sum
}

/// The average bias over the 496 cells above the diagonal: their sum, over
/// 496 times the samples. Where nothing was sampled it is zero over zero,
/// which stands for zero.
pub fn average_bias(stats: &Stats) -> (f: Fraction)
    ensures
        f.numerator == bias_sum(stats@),
        f.denominator == 496 * stats@.samples,
{
    Fraction { numerator: upper_bias_sum(stats), denominator: 496 * (stats.samples as u128) }
}

} // verus!
