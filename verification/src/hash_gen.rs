//! Elementary mixing operations and sequences of them.

use crate::mixer::Mixer;
use crate::random::random_u32;
use vstd::prelude::*;

verus! {

/// One step of a bit-mixing function.
///
/// A stored constant of zero stands for "use the seed": for every kind a
/// literal zero would either do nothing or destroy the input. So a literal
/// zero cannot be stored, should one ever be wanted.
#[derive(Debug, Copy, Clone, PartialEq, Eq, Structural)]
pub enum HashOp {
    /// `x`
    Nop,
    /// `x ^ k`
    Xor(u32),
    /// `x + k`
    Add(u32),
    /// `x * k`, `k` odd
    Mul(u32),
    /// `x ^ (x << k)`
    ShlXor(u32),
    /// `x + (x << k)`
    ShlAdd(u32),
    /// `x ^ (x * k)`, `k` even
    MulXor(u32),
}

/// The value of `n` reduced into the range of a `u32`.
pub open spec fn wrap32(n: int) -> u32 {
    (n % 0x1_0000_0000) as u32
}

/// The shift that a word stands for: its low five bits, and 1 where those
/// are 0, so that it is never less than 1 nor more than 31. A shift by
/// nothing would turn `x ^ (x << k)` into 0 and `x + (x << k)` into `x + x`.
pub open spec fn shift_amount(word: u32) -> u32 {
    if word & 31 == 0 {
        1
    } else {
        word & 31
    }
}

/// Whether a first draw says that the seed is to stand for the constant: in
/// one case of four.
pub open spec fn seed_picked(selector: u32) -> bool {
    selector & 3 == 0
}

/// The shift amount is within 1 and 31.
pub proof fn lemma_shift_amount(word: u32)
    ensures
        1 <= shift_amount(word) <= 31,
        1 <= word <= 31 ==> shift_amount(word) == word,
{
    assert(word & 31 <= 31) by (bit_vector);
    assert(1 <= word <= 31 ==> word & 31 == word) by (bit_vector);
}

/// The shift that `word` stands for.
pub fn shift_of(word: u32) -> (k: u32)
    ensures
        k == shift_amount(word),
        1 <= k <= 31,
{
    proof {
        lemma_shift_amount(word);
    }
    if word & 31 == 0 {
        1
    } else {
        word & 31
    }
}

/// Whether a first draw says that the seed is to stand for the constant.
pub fn picks_seed(selector: u32) -> (b: bool)
    ensures
        b == seed_picked(selector),
{
    (selector & 0b11) == 0
}

impl HashOp {
    /// The constant stored in the operation; `Nop` stores none.
    pub open spec fn constant(self) -> Option<u32> {
        match self {
            HashOp::Nop => None,
            HashOp::Xor(c) => Some(c),
            HashOp::Add(c) => Some(c),
            HashOp::Mul(c) => Some(c),
            HashOp::ShlXor(c) => Some(c),
            HashOp::ShlAdd(c) => Some(c),
            HashOp::MulXor(c) => Some(c),
        }
    }

    /// Whether both operations are of one kind, whatever they store.
    pub open spec fn same_kind(self, other: HashOp) -> bool {
        match (self, other) {
            (HashOp::Nop, HashOp::Nop) => true,
            (HashOp::Xor(_), HashOp::Xor(_)) => true,
            (HashOp::Add(_), HashOp::Add(_)) => true,
            (HashOp::Mul(_), HashOp::Mul(_)) => true,
            (HashOp::ShlXor(_), HashOp::ShlXor(_)) => true,
            (HashOp::ShlAdd(_), HashOp::ShlAdd(_)) => true,
            (HashOp::MulXor(_), HashOp::MulXor(_)) => true,
            _ => false,
        }
    }

    /// Whether the operation takes its parameter from the seed.
    pub open spec fn uses_seed(self) -> bool {
        self.constant() == Some(0u32)
    }

    /// The parameter that the seed stands in for: forced odd for `Mul`,
    /// forced even for `MulXor`, its shift amount, from 1 to 31, for the
    /// shifts.
    pub open spec fn seed_operand(self, seed: u32) -> u32 {
        match self {
            HashOp::Nop => 0,
            HashOp::Xor(_) => seed,
            HashOp::Add(_) => seed,
            HashOp::Mul(_) => seed | 1,
            HashOp::ShlXor(_) => shift_amount(seed),
            HashOp::ShlAdd(_) => shift_amount(seed),
            HashOp::MulXor(_) => seed & !1u32,
        }
    }

    /// The parameter the operation works with under `seed`.
    ///
    /// A stored shift from 1 to 31 is taken as it is. Any other stored
    /// shift is taken by its shift amount, as a seed is, so that every
    /// constant has a defined meaning and no shift is by nothing.
    pub open spec fn operand(self, seed: u32) -> u32 {
        if self.uses_seed() {
            self.seed_operand(seed)
        } else {
            match self {
                HashOp::Nop => 0,
                HashOp::Xor(c) => c,
                HashOp::Add(c) => c,
                HashOp::Mul(c) => c,
                HashOp::ShlXor(c) => shift_amount(c),
                HashOp::ShlAdd(c) => shift_amount(c),
                HashOp::MulXor(c) => c,
            }
        }
    }

    /// The operation's kind applied to `x` with parameter `k`.
    pub open spec fn apply(self, x: u32, k: u32) -> u32 {
        match self {
            HashOp::Nop => x,
            HashOp::Xor(_) => x ^ k,
            HashOp::Add(_) => wrap32(x + k),
            HashOp::Mul(_) => wrap32(x * k),
            HashOp::ShlXor(_) => x ^ (x << k),
            HashOp::ShlAdd(_) => wrap32(x + (x << k)),
            HashOp::MulXor(_) => x ^ wrap32(x * k),
        }
    }

    /// What the operation makes of `x` under `seed`.
    pub open spec fn eval(self, x: u32, seed: u32) -> u32 {
        self.apply(x, self.operand(seed))
    }

    /// Whether the operation can be undone: the number a `Mul` multiplies by
    /// is odd, whether stored or made from the seed, and the number a
    /// `MulXor` multiplies by is even. The shifts always can, whatever they
    /// store.
    pub open spec fn invertible(self) -> bool {
        match self {
            HashOp::Mul(c) => c == 0 || c % 2 == 1,
            HashOp::MulXor(c) => c % 2 == 0,
            _ => true,
        }
    }

    /// Whether the stored constant suits the kind: odd for `Mul`, even for
    /// `MulXor`, from 1 to 31 for the shifts.
    pub open spec fn well_formed(self) -> bool {
        match self {
            HashOp::Nop => true,
            HashOp::Xor(_) => true,
            HashOp::Add(_) => true,
            HashOp::Mul(c) => c % 2 == 1,
            HashOp::ShlXor(c) => 1 <= c <= 31,
            HashOp::ShlAdd(c) => 1 <= c <= 31,
            HashOp::MulXor(c) => c % 2 == 0,
        }
    }

    /// The operation of kind number `kind % 7`, with `constant` made to suit
    /// the kind.
    pub open spec fn of_kind(kind: u32, constant: u32) -> HashOp {
        let k = kind % 7;
        if k == 0 {
            HashOp::Nop
        } else if k == 1 {
            HashOp::Xor(constant)
        } else if k == 2 {
            HashOp::Add(constant)
        } else if k == 3 {
            HashOp::Mul(constant | 1)
        } else if k == 4 {
            HashOp::ShlXor((constant % 31 + 1) as u32)
        } else if k == 5 {
            HashOp::ShlAdd((constant % 31 + 1) as u32)
        } else {
            HashOp::MulXor(constant & !1u32)
        }
    }

    /// Builds the operation of kind number `kind % 7` from `constant`.
    pub fn with_kind(kind: u32, constant: u32) -> (op: HashOp)
        ensures
            op == HashOp::of_kind(kind, constant),
            op.well_formed(),
    {
        assert((constant | 1) % 2 == 1) by (bit_vector);
        assert((constant & !1u32) % 2 == 0) by (bit_vector);
        let k = kind % 7;
        if k == 0 {
            HashOp::Nop
        } else if k == 1 {
            HashOp::Xor(constant)
        } else if k == 2 {
            HashOp::Add(constant)
        } else if k == 3 {
            HashOp::Mul(constant | 1)
        } else if k == 4 {
            HashOp::ShlXor(constant % 31 + 1)
        } else if k == 5 {
            HashOp::ShlAdd(constant % 31 + 1)
        } else {
            HashOp::MulXor(constant & !1)
        }
    }

    /// The operation that three draws stand for: the first says whether the
    /// seed is to stand for the constant, the second is the constant where it
    /// is not, and the third picks the kind.
    pub open spec fn of_draws(selector: u32, constant: u32, kind: u32) -> HashOp {
        HashOp::of_kind(
            kind,
            if seed_picked(selector) {
                0
            } else {
                constant
            },
        )
    }

    /// Builds the operation that three draws stand for.
    pub fn from_draws(selector: u32, constant: u32, kind: u32) -> (op: HashOp)
        ensures
            op == HashOp::of_draws(selector, constant, kind),
            op.well_formed(),
    {
        let constant = if picks_seed(selector) {
            0
        } else {
            constant
        };
        HashOp::with_kind(kind, constant)
    }

    /// A random operation: one of the seven kinds, with the seed in place of
    /// a constant in one case of four, and a random constant made to suit the
    /// kind otherwise. The constant is drawn only where it is used.
    pub fn gen_random() -> (op: HashOp)
        ensures
            exists|selector: u32, constant: u32, kind: u32|
                op == #[trigger] HashOp::of_draws(selector, constant, kind),
            op.well_formed(),
    {
        let selector = random_u32();
        let constant = if picks_seed(selector) {
            0
        } else {
            random_u32()
        };
        let kind = random_u32();
        HashOp::from_draws(selector, constant, kind)
    }

    /// Applies the operation to `x`.
    pub fn exec(&self, x: u32, seed: u32) -> (r: u32)
        ensures
            r == self.eval(x, seed),
    {
        match *self {
            HashOp::Nop => x,
            HashOp::Xor(c) => {
                if c == 0 {
                    x ^ seed
                } else {
                    x ^ c
                }
            },
            HashOp::Add(c) => {
                if c == 0 {
                    x.wrapping_add(seed)
                } else {
                    x.wrapping_add(c)
                }
            },
            HashOp::Mul(c) => {
                if c == 0 {
                    x.wrapping_mul(seed | 1)
                } else {
                    x.wrapping_mul(c)
                }
            },
            HashOp::ShlXor(c) => {
                if c == 0 {
                    x ^ (x << shift_of(seed))
                } else {
                    x ^ (x << shift_of(c))
                }
            },
            HashOp::ShlAdd(c) => {
                if c == 0 {
                    x.wrapping_add(x << shift_of(seed))
                } else {
                    x.wrapping_add(x << shift_of(c))
                }
            },
            HashOp::MulXor(c) => {
                if c == 0 {
                    x ^ x.wrapping_mul(seed & !1)
                } else {
                    x ^ x.wrapping_mul(c)
                }
            },
        }
    }
}

/// What `ops`, applied one after the other, make of `x` under `seed`.
pub open spec fn eval_all(ops: Seq<HashOp>, x: u32, seed: u32) -> u32
    decreases ops.len(),
{
    if ops.len() == 0 {
        x
    } else {
        ops.last().eval(eval_all(ops.drop_last(), x, seed), seed)
    }
}

/// Applies `hash_ops` to `x` one after the other, each under `seed`.
pub fn exec_hash_slice(hash_ops: &[HashOp], x: u32, seed: u32) -> (r: u32)
    ensures
        r == eval_all(hash_ops@, x, seed),
{
    let mut x = x;
    let ghost start = x;
    let mut i: usize = 0;
    while i < hash_ops.len()
        invariant
            i <= hash_ops.len(),
            x == eval_all(hash_ops@.take(i as int), start, seed),
        decreases hash_ops.len() - i,
    {
        assert(hash_ops@.take(i + 1).drop_last() =~= hash_ops@.take(i as int));
        x = hash_ops[i].exec(x, seed);
        i += 1;
    }
    assert(hash_ops@.take(i as int) =~= hash_ops@);
    x
}

/// A sequence of operations taken as one mixing function.
pub struct OpSequence {
    pub ops: Vec<HashOp>,
}

impl Mixer for OpSequence {
    open spec fn valid(&self) -> bool {
        true
    }

    open spec fn mix_spec(&self, input: u32, seed: u32) -> u32 {
        eval_all(self.ops@, input, seed)
    }

    fn mix(&self, input: u32, seed: u32) -> (r: u32) {
        exec_hash_slice(self.ops.as_slice(), input, seed)
    }
}

/// Every operation whose constant suits its kind can be built, and so can be
/// drawn: `well_formed` says all there is to say of a random operation.
pub proof fn lemma_well_formed_is_built(op: HashOp) -> (built: (u32, u32))
    requires
        op.well_formed(),
    ensures
        op == HashOp::of_kind(built.0, built.1),
{
    match op {
        HashOp::Nop => (0, 0),
        HashOp::Xor(c) => (1, c),
        HashOp::Add(c) => (2, c),
        HashOp::Mul(c) => {
            assert(c | 1 == c) by (bit_vector)
                requires
                    c % 2 == 1,
            ;
            (3, c)
        },
        HashOp::ShlXor(c) => (4, (c - 1) as u32),
        HashOp::ShlAdd(c) => (5, (c - 1) as u32),
        HashOp::MulXor(c) => {
            assert(c & !1u32 == c) by (bit_vector)
                requires
                    c % 2 == 0,
            ;
            (6, c)
        },
    }
}

/// `Nop` returns its input, whatever the seed.
pub proof fn lemma_nop(x: u32, seed: u32)
    ensures
        HashOp::Nop.eval(x, seed) == x,
{
}

/// `Xor` xors with its constant, and with the seed where the constant is 0.
pub proof fn lemma_xor(c: u32, x: u32, seed: u32)
    ensures
        HashOp::Xor(0).eval(x, seed) == x ^ seed,
        c != 0 ==> HashOp::Xor(c).eval(x, seed) == x ^ c,
{
}

/// `Add` adds its constant modulo 2^32, and the seed where the constant is 0.
pub proof fn lemma_add(c: u32, x: u32, seed: u32)
    ensures
        HashOp::Add(0).eval(x, seed) == wrap32(x + seed),
        c != 0 ==> HashOp::Add(c).eval(x, seed) == wrap32(x + c),
{
}

/// `Mul` multiplies by its constant modulo 2^32, and by the seed made odd
/// where the constant is 0.
pub proof fn lemma_mul(c: u32, x: u32, seed: u32)
    ensures
        HashOp::Mul(0).eval(x, seed) == wrap32(x * (seed | 1)),
        c != 0 ==> HashOp::Mul(c).eval(x, seed) == wrap32(x * c),
{
}

/// `ShlXor` xors the input with itself shifted left by its constant, and by
/// the shift amount of the seed, which is from 1 to 31, where the constant is
/// 0. A constant above 31 shifts by its shift amount.
pub proof fn lemma_shl_xor(c: u32, x: u32, seed: u32)
    ensures
        HashOp::ShlXor(0).eval(x, seed) == x ^ (x << shift_amount(seed)),
        1 <= shift_amount(seed) <= 31,
        1 <= seed & 31 ==> HashOp::ShlXor(0).eval(x, seed) == x ^ (x << (seed & 31)),
        1 <= c <= 31 ==> HashOp::ShlXor(c).eval(x, seed) == x ^ (x << c),
        c != 0 ==> HashOp::ShlXor(c).eval(x, seed) == x ^ (x << shift_amount(c)),
{
    lemma_shift_amount(seed);
    lemma_shift_amount(c);
}

/// `ShlAdd` adds to the input, modulo 2^32, itself shifted left by its
/// constant, and by the shift amount of the seed, which is from 1 to 31,
/// where the constant is 0. A constant above 31 shifts by its shift amount.
pub proof fn lemma_shl_add(c: u32, x: u32, seed: u32)
    ensures
        HashOp::ShlAdd(0).eval(x, seed) == wrap32(x + (x << shift_amount(seed))),
        1 <= shift_amount(seed) <= 31,
        1 <= seed & 31 ==> HashOp::ShlAdd(0).eval(x, seed) == wrap32(x + (x << (seed & 31))),
        1 <= c <= 31 ==> HashOp::ShlAdd(c).eval(x, seed) == wrap32(x + (x << c)),
        c != 0 ==> HashOp::ShlAdd(c).eval(x, seed) == wrap32(x + (x << shift_amount(c))),
{
    lemma_shift_amount(seed);
    lemma_shift_amount(c);
}

/// Whatever a shift operation stores and whatever the seed, it shifts by 1
/// at least and by 31 at most.
pub proof fn lemma_shift_in_range(op: HashOp, seed: u32)
    requires
        op is ShlXor || op is ShlAdd,
    ensures
        1 <= op.operand(seed) <= 31,
{
    lemma_shift_amount(seed);
    match op {
        HashOp::ShlXor(c) => lemma_shift_amount(c),
        HashOp::ShlAdd(c) => lemma_shift_amount(c),
        _ => {},
    }
}

/// `MulXor` xors the input with itself times its constant modulo 2^32, and
/// times the seed made even where the constant is 0.
pub proof fn lemma_mul_xor(c: u32, x: u32, seed: u32)
    ensures
        HashOp::MulXor(0).eval(x, seed) == x ^ wrap32(x * (seed & !1u32)),
        c != 0 ==> HashOp::MulXor(c).eval(x, seed) == x ^ wrap32(x * c),
{
}

/// An operation that uses the seed depends on its kind and the seed alone:
/// it does what any operation of its kind does with the parameter made from
/// the seed, whatever constant that other one stores.
pub proof fn lemma_seed_path(op: HashOp, other: HashOp, x: u32, seed: u32)
    requires
        op.uses_seed(),
        op.same_kind(other),
    ensures
        op.eval(x, seed) == other.apply(x, other.seed_operand(seed)),
{
}

/// No operations make nothing of the input.
pub proof fn lemma_eval_none(x: u32, seed: u32)
    ensures
        eval_all(Seq::empty(), x, seed) == x,
{
}

/// A sequence continues where the one before it stopped: order matters, and
/// the seed is the same for all.
pub proof fn lemma_eval_concat(first: Seq<HashOp>, second: Seq<HashOp>, x: u32, seed: u32)
    ensures
        eval_all(first + second, x, seed) == eval_all(second, eval_all(first, x, seed), seed),
    decreases second.len(),
{
    if second.len() == 0 {
        assert(first + second =~= first);
    } else {
        assert((first + second).drop_last() =~= first + second.drop_last());
        lemma_eval_concat(first, second.drop_last(), x, seed);
    }
}

} // verus!
