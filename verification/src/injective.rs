//! Why a mixing operation loses nothing: under any seed, an operation whose
//! constant suits its kind makes different words of different inputs.

use crate::hash_gen::{lemma_shift_amount, wrap32, HashOp};
use vstd::arithmetic::div_mod::{
    lemma_fundamental_div_mod, lemma_mod_equivalence, lemma_mod_mod, lemma_mod_multiples_basic,
    lemma_small_mod, lemma_truncate_middle,
};
use vstd::arithmetic::power2::{
    lemma2_to64, lemma_pow2_adds, lemma_pow2_pos, lemma_pow2_unfold, pow2,
};
use vstd::bits::{lemma_u32_low_bits_mask_is_mod, low_bits_mask};
use vstd::prelude::*;

verus! {

/// A product with an odd number is a multiple of a power of two only where
/// the other factor is.
proof fn lemma_odd_cancels(d: int, k: int, n: nat)
    requires
        0 <= d,
        0 <= k,
        k % 2 == 1,
        (d * k) % (pow2(n) as int) == 0,
    ensures
        d % (pow2(n) as int) == 0,
    decreases n,
{
    if n == 0 {
        lemma2_to64();
    } else {
        lemma_pow2_unfold(n);
        lemma_pow2_pos((n - 1) as nat);
        let m = pow2((n - 1) as nat) as int;
        let a = d * k;
        let q = a / (2 * m);
        lemma_fundamental_div_mod(a, 2 * m);
        assert(a == 2 * (m * q)) by (nonlinear_arith)
            requires
                a == (2 * m) * q,
        ;
        let j = k / 2;
        let half = d * j;
        assert(a == 2 * half + d) by (nonlinear_arith)
            requires
                a == d * k,
                k == 2 * j + 1,
                half == d * j,
        ;
        let e = d / 2;
        assert(d * k == 2 * (e * k)) by (nonlinear_arith)
            requires
                d == 2 * e,
        ;
        assert(0 <= e * k) by (nonlinear_arith)
            requires
                0 <= e,
                0 <= k,
        ;
        lemma_truncate_middle(e * k, 2, m);
        lemma_odd_cancels(e, k, (n - 1) as nat);
        lemma_truncate_middle(e, 2, m);
    }
}

/// Of two words with the same product modulo 2^32 with an odd number, the
/// larger is the smaller.
proof fn lemma_mul_ordered(x1: u32, x2: u32, k: u32)
    requires
        k % 2 == 1,
        x1 >= x2,
        wrap32(x1 * k) == wrap32(x2 * k),
    ensures
        x1 == x2,
{
    let m: int = 0x1_0000_0000;
    lemma2_to64();
    lemma_mod_equivalence(x1 * k, x2 * k, m);
    let d = x1 - x2;
    assert(x1 * k - x2 * k == d * k) by (nonlinear_arith)
        requires
            d == x1 - x2,
    ;
    lemma_odd_cancels(d, k as int, 32);
    if d != 0 {
        lemma_small_mod(d as nat, m as nat);
    }
}

/// Multiplying by an odd number modulo 2^32 loses nothing.
pub proof fn lemma_mul_is_injective(x1: u32, x2: u32, k: u32)
    requires
        k % 2 == 1,
        wrap32(x1 * k) == wrap32(x2 * k),
    ensures
        x1 == x2,
{
    if x1 >= x2 {
        lemma_mul_ordered(x1, x2, k);
    } else {
        lemma_mul_ordered(x2, x1, k);
    }
}

/// Where two numbers agree modulo `p`, their products with an even number
/// agree modulo `2 * p`.
proof fn lemma_even_doubles(x1: int, x2: int, c: int, p: int)
    requires
        0 < p,
        c % 2 == 0,
        x1 % p == x2 % p,
    ensures
        (x1 * c) % (2 * p) == (x2 * c) % (2 * p),
{
    lemma_mod_equivalence(x1, x2, p);
    let d = x1 - x2;
    let t = d / p;
    lemma_fundamental_div_mod(d, p);
    let h = c / 2;
    assert(x1 * c - x2 * c == (t * h) * (2 * p)) by (nonlinear_arith)
        requires
            x1 - x2 == p * t,
            c == 2 * h,
    ;
    lemma_mod_multiples_basic(t * h, 2 * p);
    lemma_mod_equivalence(x1 * c, x2 * c, 2 * p);
}

/// Two words whose xors with their own products with an even number are the
/// same agree in their low `n` bits: bit by bit from the lowest, for a bit of
/// the product depends on the bits below it alone.
proof fn lemma_low_bits_agree(x1: u32, x2: u32, c: u32, n: nat)
    requires
        c % 2 == 0,
        n <= 31,
        x1 ^ wrap32(x1 * c) == x2 ^ wrap32(x2 * c),
    ensures
        x1 % (pow2(n) as u32) == x2 % (pow2(n) as u32),
        pow2(n) <= 0x8000_0000,
    decreases n,
{
    lemma2_to64();
    if n > 0 {
        let m = (n - 1) as nat;
        lemma_low_bits_agree(x1, x2, c, m);
        lemma_pow2_unfold(n);
        lemma_pow2_pos(m);
        let p = pow2(m) as int;
        assert(pow2(n) <= 0x8000_0000) by {
            lemma_pow2_adds(n, (31 - n) as nat);
            lemma_pow2_pos((31 - n) as nat);
            assert(pow2(n) <= pow2(n) * pow2((31 - n) as nat)) by (nonlinear_arith)
                requires
                    pow2((31 - n) as nat) >= 1,
            ;
        }
        lemma_even_doubles(x1 as int, x2 as int, c as int, p);
        let rest = pow2((32 - n) as nat) as int;
        lemma_pow2_adds(n, (32 - n) as nat);
        lemma_pow2_pos((32 - n) as nat);
        lemma_mod_mod(x1 * c, 2 * p, rest);
        lemma_mod_mod(x2 * c, 2 * p, rest);
        let y1 = wrap32(x1 * c);
        let y2 = wrap32(x2 * c);
        assert(y1 % ((2 * p) as u32) == y2 % ((2 * p) as u32));
        let mask = low_bits_mask(n) as u32;
        lemma_u32_low_bits_mask_is_mod(y1, n);
        lemma_u32_low_bits_mask_is_mod(y2, n);
        lemma_u32_low_bits_mask_is_mod(x1, n);
        lemma_u32_low_bits_mask_is_mod(x2, n);
        assert(x1 & mask == x2 & mask) by (bit_vector)
            requires
                x1 ^ y1 == x2 ^ y2,
                y1 & mask == y2 & mask,
        ;
    }
}

/// Xoring a word with its product modulo 2^32 with an even number loses
/// nothing.
pub proof fn lemma_mul_xor_is_injective(x1: u32, x2: u32, c: u32)
    requires
        c % 2 == 0,
        x1 ^ wrap32(x1 * c) == x2 ^ wrap32(x2 * c),
    ensures
        x1 == x2,
{
    lemma2_to64();
    lemma_low_bits_agree(x1, x2, c, 31);
    lemma_even_doubles(x1 as int, x2 as int, c as int, 0x8000_0000);
    let y1 = wrap32(x1 * c);
    let y2 = wrap32(x2 * c);
    assert(x1 == x2) by (bit_vector)
        requires
            x1 ^ y1 == x2 ^ y2,
            y1 == y2,
    ;
}

/// Xoring a word with itself shifted left by 1 to 31 bits loses nothing.
pub proof fn lemma_shl_xor_is_injective(x1: u32, x2: u32, k: u32)
    requires
        1 <= k <= 31,
        x1 ^ (x1 << k) == x2 ^ (x2 << k),
    ensures
        x1 == x2,
{
    assert(x1 == x2) by (bit_vector)
        requires
            1 <= k <= 31,
            x1 ^ (x1 << k) == x2 ^ (x2 << k),
    ;
}

/// Adding to a word, modulo 2^32, itself shifted left by 1 to 31 bits loses
/// nothing.
pub proof fn lemma_shl_add_is_injective(x1: u32, x2: u32, k: u32)
    requires
        1 <= k <= 31,
        wrap32(x1 + (x1 << k)) == wrap32(x2 + (x2 << k)),
    ensures
        x1 == x2,
{
    assert(x1 == x2) by (bit_vector)
        requires
            1 <= k <= 31,
            (x1 + (x1 << k)) % 0x1_0000_0000 == (x2 + (x2 << k)) % 0x1_0000_0000,
    ;
}

/// Under any seed, an operation whose constant suits its kind makes
/// different words of different inputs: it can be undone. A shift by nothing
/// could not, nor a multiplication by an even number.
pub proof fn lemma_eval_is_injective(op: HashOp, seed: u32, x1: u32, x2: u32)
    requires
        op.invertible(),
        op.eval(x1, seed) == op.eval(x2, seed),
    ensures
        x1 == x2,
{
    let k = op.operand(seed);
    match op {
        HashOp::Nop => {},
        HashOp::Xor(_) => {
            assert(x1 == x2) by (bit_vector)
                requires
                    x1 ^ k == x2 ^ k,
            ;
        },
        HashOp::Add(_) => {},
        HashOp::Mul(c) => {
            assert((seed | 1) % 2 == 1) by (bit_vector);
            lemma_mul_is_injective(x1, x2, k);
        },
        HashOp::ShlXor(c) => {
            lemma_shift_amount(seed);
            lemma_shift_amount(c);
            lemma_shl_xor_is_injective(x1, x2, k);
        },
        HashOp::ShlAdd(c) => {
            lemma_shift_amount(seed);
            lemma_shift_amount(c);
            lemma_shl_add_is_injective(x1, x2, k);
        },
        HashOp::MulXor(c) => {
            assert((seed & !1u32) % 2 == 0) by (bit_vector);
            lemma_mul_xor_is_injective(x1, x2, k);
        },
    }
}

/// What `gen_random` can return can be undone.
pub proof fn lemma_well_formed_is_invertible(op: HashOp)
    requires
        op.well_formed(),
    ensures
        op.invertible(),
{
}

} // verus!
