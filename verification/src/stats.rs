//! Bias matrices as exact sums, and how they add up.
//!
//! A matrix has one row and one column per bit of a word. `Stats` holds two
//! of them together with the number of samples behind them; `Tally` is what
//! a `Stats` means, with unbounded numbers.

use vstd::prelude::*;

verus! {

/// Rows, and columns, of a matrix.
pub const SIDE: usize = 32;

/// Cells of a matrix.
pub const CELLS: usize = 1024;

/// The number of values a `u64` can take.
pub open spec fn word_range() -> nat {
    0x1_0000_0000_0000_0000
}

/// The place of cell (`row`, `col`) in a matrix's row-major sequence.
pub open spec fn cell_index(row: int, col: int) -> int {
    row * 32 + col
}

/// A 32 x 32 matrix of counts, row by row.
#[derive(Copy, Clone, Debug, PartialEq, Eq)]
pub struct Matrix {
    pub cells: [u64; 1024],
}

impl View for Matrix {
    type V = Seq<nat>;

    open spec fn view(&self) -> Seq<nat> {
        Seq::new(1024, |k: int| self.cells@[k] as nat)
    }
}

impl Matrix {
    /// The count in cell (`row`, `col`).
    pub open spec fn at(self, row: int, col: int) -> nat {
        self@[cell_index(row, col)]
    }

    /// The matrix of zeros.
    pub fn zero() -> (m: Matrix)
        ensures
            m@ == zeros(),
    {
        let m = Matrix { cells: [0u64; 1024] };
        assert(m@ =~= zeros());
        m
    }

    /// Reads cell (`row`, `col`).
    pub fn get(&self, row: usize, col: usize) -> (c: u64)
        requires
            row < 32,
            col < 32,
        ensures
            c == self.at(row as int, col as int),
    {
        self.cells[row * 32 + col]
    }

    /// Writes cell (`row`, `col`).
    pub fn set(&mut self, row: usize, col: usize, count: u64)
        requires
            row < 32,
            col < 32,
        ensures
            final(self)@ == old(self)@.update(cell_index(row as int, col as int), count as nat),
    {
        self.cells[row * 32 + col] = count;
        assert(self@ =~= old(self)@.update(cell_index(row as int, col as int), count as nat));
    }

    /// The cell-wise sum, each cell modulo 2^64.
    pub fn merge(self, other: Matrix) -> (m: Matrix)
        ensures
            m@ == wrapped(plus(self@, other@)),
    {
        let mut m = self;
        let mut k: usize = 0;
        while k < 1024
            invariant
                k <= 1024,
                forall|j: int| 0 <= j < k ==> m.cells@[j] == (self.cells@[j] + other.cells@[j]) % (
                word_range() as int),
                forall|j: int| k <= j < 1024 ==> m.cells@[j] == self.cells@[j],
            decreases 1024 - k,
        {
            m.cells[k] = self.cells[k].wrapping_add(other.cells[k]);
            k += 1;
        }
        assert(m@ =~= wrapped(plus(self@, other@)));
        m
    }
}

/// 1024 zeros.
pub open spec fn zeros() -> Seq<nat> {
    Seq::new(1024, |k: int| 0nat)
}

/// The cell-wise sum of two matrices.
pub open spec fn plus(a: Seq<nat>, b: Seq<nat>) -> Seq<nat> {
    Seq::new(1024, |k: int| a[k] + b[k])
}

/// Each cell modulo 2^64.
pub open spec fn wrapped(a: Seq<nat>) -> Seq<nat> {
    Seq::new(1024, |k: int| a[k] % word_range())
}

/// What a measurement has counted.
#[verifier::ext_equal]
pub struct Tally {
    /// For each input bit (row) and output bit (column): over the chunks, the
    /// sum of |2 * flips - chunk length|. Divided by `samples` it is the
    /// avalanche bias, between 0 and 1.
    pub avalanche: Seq<nat>,
    /// For each bin: the samples that fell into it. Times 1024 and divided by
    /// `samples` it is the bin's density.
    pub tree: Seq<nat>,
    /// The samples taken.
    pub samples: nat,
}

impl Tally {
    /// Nothing counted.
    pub open spec fn zero() -> Tally {
        Tally { avalanche: zeros(), tree: zeros(), samples: 0 }
    }

    /// The counts of two measurements taken together.
    pub open spec fn plus(self, other: Tally) -> Tally {
        Tally {
            avalanche: plus(self.avalanche, other.avalanche),
            tree: plus(self.tree, other.tree),
            samples: self.samples + other.samples,
        }
    }

    /// Every number modulo 2^64.
    pub open spec fn wrapped(self) -> Tally {
        Tally {
            avalanche: wrapped(self.avalanche),
            tree: wrapped(self.tree),
            samples: self.samples % word_range(),
        }
    }

    /// Both matrices have their 1024 cells.
    pub open spec fn shaped(self) -> bool {
        self.avalanche.len() == 1024 && self.tree.len() == 1024
    }

    /// No cell exceeds the number of samples: no bias is above 1, and no bin
    /// holds more samples than were taken.
    pub open spec fn bounded(self) -> bool {
        &&& self.shaped()
        &&& forall|k: int| 0 <= k < 1024 ==> self.avalanche[k] <= self.samples
        &&& forall|k: int| 0 <= k < 1024 ==> self.tree[k] <= self.samples
    }
}

/// The counts of all `parts` taken together.
pub open spec fn total(parts: Seq<Tally>) -> Tally
    decreases parts.len(),
{
    if parts.len() == 0 {
        Tally::zero()
    } else {
        total(parts.drop_last()).plus(parts.last())
    }
}

/// Two bias matrices and the number of samples they were counted from.
#[derive(Copy, Clone, Debug, PartialEq, Eq)]
pub struct Stats {
    /// By input bit and output bit: the doubled distances from an even
    /// chance that the output bit follows, summed over the chunks.
    pub avalanche: Matrix,
    /// By bin: the pairs that fell into it.
    pub tree: Matrix,
    /// The samples taken.
    pub samples: u64,
}

impl View for Stats {
    type V = Tally;

    open spec fn view(&self) -> Tally {
        Tally { avalanche: self.avalanche@, tree: self.tree@, samples: self.samples as nat }
    }
}

/// A fraction of two counts. Over a denominator of zero, where nothing was
/// sampled, it stands for zero.
#[derive(Copy, Clone, Debug, PartialEq, Eq)]
pub struct Fraction {
    pub numerator: u128,
    pub denominator: u128,
}

impl Tally {
    /// The numerator of the avalanche bias of output bit `bit_out` under
    /// input bit `bit_in`, over the samples: how far the share of samples in
    /// which the output bit follows the input bit is from one half, doubled.
    pub open spec fn bias(self, bit_in: int, bit_out: int) -> nat {
        self.avalanche[cell_index(bit_in, bit_out)]
    }

    /// The numerator of the density of bin (`x`, `y`), over the samples: the
    /// share of samples in the bin times the number of bins.
    pub open spec fn density(self, x: int, y: int) -> nat {
        1024 * self.tree[cell_index(x, y)]
    }
}

/// No bias of bounded counts is above 1, and no density above the number of
/// bins.
pub proof fn lemma_bounded_fractions(t: Tally, row: int, col: int)
    requires
        t.bounded(),
        0 <= row < 32,
        0 <= col < 32,
    ensures
        t.bias(row, col) <= t.samples,
        t.density(row, col) <= 1024 * t.samples,
{
}

impl Stats {
    /// The avalanche bias of output bit `bit_out` under input bit `bit_in`.
    pub fn avalanche_bias(&self, bit_in: usize, bit_out: usize) -> (f: Fraction)
        requires
            bit_in < 32,
            bit_out < 32,
        ensures
            f.numerator == self@.bias(bit_in as int, bit_out as int),
            f.denominator == self@.samples,
    {
        Fraction {
            numerator: self.avalanche.get(bit_in, bit_out) as u128,
            denominator: self.samples as u128,
        }
    }

    /// The density of bin (`x`, `y`).
    pub fn tree_density(&self, x: usize, y: usize) -> (f: Fraction)
        requires
            x < 32,
            y < 32,
        ensures
            f.numerator == self@.density(x as int, y as int),
            f.denominator == self@.samples,
    {
        Fraction {
            numerator: 1024 * (self.tree.get(x, y) as u128),
            denominator: self.samples as u128,
        }
    }

    /// Nothing counted.
    pub fn zero() -> (s: Stats)
        ensures
            s@ == Tally::zero(),
    {
        Stats { avalanche: Matrix::zero(), tree: Matrix::zero(), samples: 0 }
    }

    /// The counts of both taken together, every number modulo 2^64.
    pub fn merge(self, other: Stats) -> (s: Stats)
        ensures
            s@ == self@.plus(other@).wrapped(),
    {
        Stats {
            avalanche: self.avalanche.merge(other.avalanche),
            tree: self.tree.merge(other.tree),
            samples: self.samples.wrapping_add(other.samples),
        }
    }
}

/// Two `Stats` that mean the same are the same, bit for bit.
pub proof fn lemma_same_counts(a: Stats, b: Stats)
    requires
        a@ == b@,
    ensures
        a == b,
{
    assert forall|k: int| 0 <= k < 1024 implies a.avalanche.cells[k] == b.avalanche.cells[k] by {
        assert(a.avalanche@[k] == a.avalanche.cells@[k] as nat);
        assert(b.avalanche@[k] == b.avalanche.cells@[k] as nat);
        assert(a@.avalanche[k] == b@.avalanche[k]);
    }
    assert forall|k: int| 0 <= k < 1024 implies a.tree.cells[k] == b.tree.cells[k] by {
        assert(a.tree@[k] == a.tree.cells@[k] as nat);
        assert(b.tree@[k] == b.tree.cells@[k] as nat);
        assert(a@.tree[k] == b@.tree[k]);
    }
    assert(a.avalanche.cells =~= b.avalanche.cells);
    assert(a.tree.cells =~= b.tree.cells);
}

/// Merging two `Stats` gives the same bits in either order.
pub proof fn lemma_merge_order(a: Stats, b: Stats, ab: Stats, ba: Stats)
    requires
        ab@ == a@.plus(b@).wrapped(),
        ba@ == b@.plus(a@).wrapped(),
    ensures
        ab == ba,
{
    lemma_plus_commutative(a@, b@);
    lemma_same_counts(ab, ba);
}

/// Adding three numbers modulo 2^64 does not depend on the grouping.
proof fn lemma_wrap_grouping(x: nat, y: nat, z: nat)
    ensures
        ((x + y) % word_range() + z) % word_range() == (x + (y + z) % word_range())
            % word_range(),
{
    let m = word_range() as int;
    let (x, y, z) = (x as int, y as int, z as int);
    vstd::arithmetic::div_mod::lemma_add_mod_noop_right(z, x + y, m);
    vstd::arithmetic::div_mod::lemma_add_mod_noop_right(x, y + z, m);
    assert((z + (x + y) % m) % m == (z + (x + y)) % m);
    assert((x + (y + z) % m) % m == (x + (y + z)) % m);
}

/// Merging three `Stats` gives the same bits in either grouping.
pub proof fn lemma_merge_grouping(
    a: Stats,
    b: Stats,
    c: Stats,
    ab: Stats,
    bc: Stats,
    left: Stats,
    right: Stats,
)
    requires
        ab@ == a@.plus(b@).wrapped(),
        bc@ == b@.plus(c@).wrapped(),
        left@ == ab@.plus(c@).wrapped(),
        right@ == a@.plus(bc@).wrapped(),
    ensures
        left == right,
{
    assert forall|k: int| 0 <= k < 1024 implies left@.avalanche[k] == right@.avalanche[k]
        && left@.tree[k] == right@.tree[k] by {
        lemma_wrap_grouping(a@.avalanche[k], b@.avalanche[k], c@.avalanche[k]);
        lemma_wrap_grouping(a@.tree[k], b@.tree[k], c@.tree[k]);
    }
    lemma_wrap_grouping(a@.samples, b@.samples, c@.samples);
    assert(left@ =~= right@);
    lemma_same_counts(left, right);
}

/// Taking two measurements together does not depend on which comes first.
pub proof fn lemma_plus_commutative(a: Tally, b: Tally)
    ensures
        a.plus(b) == b.plus(a),
{
    assert(a.plus(b) =~= b.plus(a));
}

/// Taking three measurements together does not depend on the grouping.
pub proof fn lemma_plus_associative(a: Tally, b: Tally, c: Tally)
    ensures
        a.plus(b).plus(c) == a.plus(b.plus(c)),
{
    assert(a.plus(b).plus(c) =~= a.plus(b.plus(c)));
}

/// Taking a measurement together with nothing leaves it as it is.
pub proof fn lemma_plus_zero(a: Tally)
    requires
        a.shaped(),
    ensures
        a.plus(Tally::zero()) == a,
        Tally::zero().plus(a) == a,
{
    assert(a.plus(Tally::zero()) =~= a);
    assert(Tally::zero().plus(a) =~= a);
}

/// Reducing all chunks at once gives what reducing a first and a second group
/// of them, and then the two results, gives.
pub proof fn lemma_total_split(first: Seq<Tally>, second: Seq<Tally>)
    ensures
        total(first + second) == total(first).plus(total(second)),
    decreases second.len(),
{
    if second.len() == 0 {
        assert(first + second =~= first);
        lemma_plus_zero(total(first));
    } else {
        assert((first + second).drop_last() =~= first + second.drop_last());
        lemma_total_split(first, second.drop_last());
        lemma_plus_associative(total(first), total(second.drop_last()), second.last());
    }
}

/// Leaving out one part lowers the total by that part.
pub proof fn lemma_total_remove(parts: Seq<Tally>, i: int)
    requires
        0 <= i < parts.len(),
    ensures
        total(parts) == total(parts.remove(i)).plus(parts[i]),
{
    let head = parts.subrange(0, i);
    let tail = parts.subrange(i + 1, parts.len() as int);
    let one = seq![parts[i]];
    assert(parts =~= head + one + tail);
    assert(one.drop_last() =~= Seq::<Tally>::empty());
    assert(total(one.drop_last()) == Tally::zero());
    assert(total(one) == Tally::zero().plus(parts[i]));
    lemma_total_split(head + one, tail);
    lemma_total_split(head, one);
    lemma_total_split(head, tail);
    assert(total(parts) =~= total(parts.remove(i)).plus(parts[i]));
}

/// The total does not depend on the order of the parts.
pub proof fn lemma_total_reordered(a: Seq<Tally>, b: Seq<Tally>)
    requires
        a.to_multiset() == b.to_multiset(),
    ensures
        total(a) == total(b),
    decreases a.len(),
{
    vstd::seq_lib::to_multiset_len(a);
    vstd::seq_lib::to_multiset_len(b);
    if a.len() > 0 {
        let last = a.last();
        let rest = a.drop_last();
        assert(a =~= rest.push(last));
        vstd::seq_lib::to_multiset_build(rest, last);
        vstd::seq_lib::to_multiset_contains(b, last);
        assert(b.to_multiset().count(last) > 0);
        let j = choose|j: int| 0 <= j < b.len() && b[j] == last;
        vstd::seq_lib::to_multiset_remove(b, j);
        assert(rest.to_multiset() =~= b.remove(j).to_multiset());
        lemma_total_reordered(rest, b.remove(j));
        lemma_total_remove(b, j);
    }
}

/// Where every part stays within its `each` samples, so does the total
/// within the samples of all.
pub proof fn lemma_total_bounded(parts: Seq<Tally>, each: nat)
    requires
        forall|i: int| 0 <= i < parts.len() ==> (#[trigger] parts[i]).bounded(),
        forall|i: int| 0 <= i < parts.len() ==> (#[trigger] parts[i]).samples == each,
    ensures
        total(parts).bounded(),
        total(parts).samples == each * parts.len(),
    decreases parts.len(),
{
    if parts.len() > 0 {
        lemma_total_bounded(parts.drop_last(), each);
        assert(parts.last() == parts[parts.len() - 1]);
        assert(each * parts.len() == each * (parts.len() - 1) + each) by (nonlinear_arith);
    }
}

/// Counts that stay within a number of samples below 2^64 are not changed by
/// reducing them modulo 2^64.
pub proof fn lemma_wrapped_bounded(t: Tally)
    requires
        t.bounded(),
        t.samples < word_range(),
    ensures
        t.wrapped() == t,
{
    assert(t.wrapped() =~= t);
}

} // verus!
