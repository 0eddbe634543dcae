//! Fixed-point arithmetic: nonnegative reals as integer multiples of 1/65536.

use vstd::prelude::*;
use vstd::arithmetic::div_mod::*;
use vstd::arithmetic::mul::*;

verus! {

/// Fixed-point scale: a value `v` stands for the real number `v / 65536`.
pub const FP: u64 = 65536;

/// Greatest admissible falloff power and bias: 16.0 in fixed point.  Larger
/// powers are indistinguishable on 8-bit alpha output and would overflow the
/// exponential falloff's intermediate values.
pub const POWER_LIMIT: u64 = 16 * FP;

/// Fixed-point product, rounded toward zero: `(a / FP) * (b / FP)` scaled
/// back, i.e. `a * b / FP`.
pub open spec fn fp_mul_spec(a: int, b: int) -> int {
    (a * b) / (FP as int)
}

pub fn fp_mul(a: u64, b: u64) -> (r: u64)
    requires
        a * b <= u64::MAX,
    ensures
        r == fp_mul_spec(a as int, b as int),
{
    (a * b) / FP
}

pub proof fn lemma_fp_mul_nonneg(a: int, b: int)
    requires
        0 <= a,
        0 <= b,
    ensures
        0 <= fp_mul_spec(a, b),
{
    lemma_mul_nonnegative(a, b);
    lemma_div_pos_is_pos(a * b, FP as int);
}

/// The product does not grow under the left factor when the right factor is
/// at most one (`FP`).
pub proof fn lemma_fp_mul_le_left(a: int, b: int)
    requires
        0 <= a,
        0 <= b <= FP,
    ensures
        fp_mul_spec(a, b) <= a,
{
    lemma_mul_inequality(b, FP as int, a);
    lemma_mul_is_commutative(a, b);
    lemma_mul_is_commutative(a, FP as int);
    lemma_div_is_ordered(a * b, a * (FP as int), FP as int);
    lemma_div_multiples_vanish(a, FP as int);
    lemma_mul_is_commutative(a, FP as int);
}

/// Two factors at most one give a product at most one.
pub proof fn lemma_fp_mul_unit(a: int, b: int)
    requires
        0 <= a <= FP,
        0 <= b <= FP,
    ensures
        0 <= fp_mul_spec(a, b) <= FP,
{
    lemma_fp_mul_nonneg(a, b);
    lemma_fp_mul_le_left(a, b);
}

/// Multiplying by exactly one (`FP`) changes nothing.
pub proof fn lemma_fp_mul_one(a: int)
    requires
        0 <= a,
    ensures
        fp_mul_spec(a, FP as int) == a,
        fp_mul_spec(FP as int, a) == a,
    {
    lemma_div_multiples_vanish(a, FP as int);
    lemma_mul_is_commutative(a, FP as int);
}

/// Multiplying by zero gives zero.
pub proof fn lemma_fp_mul_zero(a: int)
    ensures
        fp_mul_spec(a, 0) == 0,
        fp_mul_spec(0, a) == 0,
{
    lemma_mul_basics(a);
}

/// Monotonicity in the left factor.
pub proof fn lemma_fp_mul_mono_left(a1: int, a2: int, b: int)
    requires
        0 <= a1 <= a2,
        0 <= b,
    ensures
        fp_mul_spec(a1, b) <= fp_mul_spec(a2, b),
{
    lemma_mul_inequality(a1, a2, b);
    lemma_mul_is_commutative(a1, b);
    lemma_mul_is_commutative(a2, b);
    lemma_div_is_ordered(a1 * b, a2 * b, FP as int);
}

/// Monotonicity in the right factor.
pub proof fn lemma_fp_mul_mono_right(a: int, b1: int, b2: int)
    requires
        0 <= a,
        0 <= b1 <= b2,
    ensures
        fp_mul_spec(a, b1) <= fp_mul_spec(a, b2),
{
    lemma_mul_is_commutative(a, b1);
    lemma_mul_is_commutative(a, b2);
    lemma_fp_mul_mono_left(b1, b2, a);
}

} // verus!
