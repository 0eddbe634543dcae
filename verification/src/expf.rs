//! Fixed-point exponential `e ^ (x / FP)`, as the product of a saturating
//! per-unit factor for the exponent's integer part and a truncated Taylor
//! series for its fractional part.

use vstd::prelude::*;
use vstd::arithmetic::div_mod::*;
use vstd::arithmetic::mul::*;
use crate::fixed::{FP, POWER_LIMIT, fp_mul, fp_mul_spec};
use crate::fixed::{
    lemma_fp_mul_mono_left,
    lemma_fp_mul_mono_right,
    lemma_fp_mul_nonneg,
    lemma_fp_mul_one,
    lemma_fp_mul_zero,
};

verus! {

/// Euler's number in fixed point, rounded down.
pub const E_FP: u64 = 178145;

/// Saturation bound on the integer-part factor.  It lies far above
/// `e ^ 16 * FP`, the largest value the factor reaches for admissible
/// exponents, and keeps every intermediate product inside 64 bits.
pub const EXP_CAP: u64 = 0x800_0000_0000;

/// `e ^ n` in fixed point: `n` saturating multiplications by `E_FP`.
pub open spec fn exp_int_part(n: nat) -> int
    decreases n,
{
    if n == 0 {
        FP as int
    } else {
        let v = fp_mul_spec(exp_int_part((n - 1) as nat), E_FP as int);
        if v > EXP_CAP {
            EXP_CAP as int
        } else {
            v
        }
    }
}

/// Term `k` of the Taylor series of `e ^ (f / FP)`: `f^k / k!` in fixed
/// point, rounded down at each step.
pub open spec fn taylor_term(f: int, k: nat) -> int
    decreases k,
{
    if k == 0 {
        FP as int
    } else {
        fp_mul_spec(taylor_term(f, (k - 1) as nat), f) / (k as int)
    }
}

/// The series summed through term `k`.
pub open spec fn taylor_sum(f: int, k: nat) -> int
    decreases k,
{
    if k == 0 {
        FP as int
    } else {
        taylor_sum(f, (k - 1) as nat) + taylor_term(f, k)
    }
}

/// `e ^ (x / FP)` in fixed point.
pub open spec fn fp_exp_spec(x: int) -> int {
    fp_mul_spec(exp_int_part((x / (FP as int)) as nat), taylor_sum(x % (FP as int), 12))
}

pub proof fn lemma_exp_int_bounds(n: nat)
    ensures
        FP <= exp_int_part(n) <= EXP_CAP,
    decreases n,
{
    if n > 0 {
        let m = (n - 1) as nat;
        lemma_exp_int_bounds(m);
        let prev = exp_int_part(m);
        assert(fp_mul_spec(prev, E_FP as int) >= prev) by {
            lemma_fp_mul_mono_right(prev, FP as int, E_FP as int);
            lemma_fp_mul_one(prev);
        }
    }
}

pub proof fn lemma_exp_int_mono(n1: nat, n2: nat)
    requires
        n1 <= n2,
    ensures
        exp_int_part(n1) <= exp_int_part(n2),
    decreases n2,
{
    if n1 < n2 {
        let m = (n2 - 1) as nat;
        lemma_exp_int_mono(n1, m);
        lemma_exp_int_bounds(m);
        let prev = exp_int_part(m);
        assert(fp_mul_spec(prev, E_FP as int) >= prev) by {
            lemma_fp_mul_mono_right(prev, FP as int, E_FP as int);
            lemma_fp_mul_one(prev);
        }
    }
}

pub proof fn lemma_taylor_term_bounds(f: int, k: nat)
    requires
        0 <= f < FP,
        k >= 1,
    ensures
        0 <= taylor_term(f, k) <= f,
    decreases k,
{
    let m = (k - 1) as nat;
    let prev = taylor_term(f, m);
    assert(0 <= prev <= FP) by {
        if m == 0 {
        } else {
            lemma_taylor_term_bounds(f, m);
        }
    }
    assert(0 <= fp_mul_spec(prev, f) <= f) by {
        lemma_fp_mul_nonneg(prev, f);
        lemma_fp_mul_mono_left(prev, FP as int, f);
        lemma_fp_mul_one(f);
    }
    assert(taylor_term(f, k) == fp_mul_spec(prev, f) / (k as int));
    lemma_div_pos_is_pos(fp_mul_spec(prev, f), k as int);
    lemma_div_nonincreasing(fp_mul_spec(prev, f), k as int);
}

pub proof fn lemma_taylor_sum_bounds(f: int, k: nat)
    requires
        0 <= f < FP,
    ensures
        FP <= taylor_sum(f, k) <= FP + k * f,
    decreases k,
{
    if k > 0 {
        let m = (k - 1) as nat;
        lemma_taylor_sum_bounds(f, m);
        lemma_taylor_term_bounds(f, k);
        assert(m * f + f == k * f) by {
            lemma_mul_is_distributive_add_other_way(f, m as int, 1);
        }
    }
}

pub proof fn lemma_taylor_of_zero(k: nat)
    ensures
        k >= 1 ==> taylor_term(0, k) == 0,
        taylor_sum(0, k) == FP,
    decreases k,
{
    if k >= 1 {
        let m = (k - 1) as nat;
        lemma_taylor_of_zero(m);
        lemma_fp_mul_zero(taylor_term(0, m));
        assert(taylor_term(0, k) == 0int / (k as int));
        lemma_div_of0(k as int);
    }
}

/// A zero exponent gives exactly one.
pub proof fn lemma_fp_exp_at_zero()
    ensures
        fp_exp_spec(0) == FP,
{
    lemma_taylor_of_zero(12);
    lemma_fp_mul_one(FP as int);
}

/// The exponential of a nonnegative argument lies in [1, 13 * EXP_CAP].
pub proof fn lemma_fp_exp_bounds(x: int)
    requires
        0 <= x,
    ensures
        FP <= fp_exp_spec(x) <= 13 * (EXP_CAP as int),
{
    let n = (x / (FP as int)) as nat;
    let f = x % (FP as int);
    lemma_exp_int_bounds(n);
    lemma_taylor_sum_bounds(f, 12);
    let r = exp_int_part(n);
    let s = taylor_sum(f, 12);
    assert(fp_exp_spec(x) >= FP) by {
        lemma_fp_mul_mono_left(FP as int, r, s);
        lemma_fp_mul_mono_right(FP as int, FP as int, s);
        lemma_fp_mul_one(FP as int);
    }
    assert(fp_exp_spec(x) <= 13 * (EXP_CAP as int)) by {
        assert(s <= 13 * (FP as int));
        lemma_mul_upper_bound(r, EXP_CAP as int, s, 13 * (FP as int));
        lemma_div_is_ordered(r * s, (EXP_CAP as int) * (13 * (FP as int)), FP as int);
        assert((EXP_CAP as int) * (13 * (FP as int)) == (13 * (EXP_CAP as int)) * (FP as int))
            by (nonlinear_arith);
        lemma_div_multiples_vanish(13 * (EXP_CAP as int), FP as int);
        lemma_mul_is_commutative(13 * (EXP_CAP as int), FP as int);
    }
}

/// A positive exponent gives a result strictly above one; in particular the
/// exponential falloff's normalizing denominator is never zero.
pub proof fn lemma_fp_exp_gt_one(x: int)
    requires
        1 <= x,
    ensures
        fp_exp_spec(x) >= FP + 1,
{
    let n = (x / (FP as int)) as nat;
    let f = x % (FP as int);
    lemma_taylor_sum_bounds(f, 12);
    let r = exp_int_part(n);
    let s = taylor_sum(f, 12);
    if n >= 1 {
        assert(exp_int_part(1) == E_FP) by {
            assert(exp_int_part(0) == FP);
            lemma_fp_mul_one(E_FP as int);
        }
        lemma_exp_int_mono(1, n);
        assert(fp_exp_spec(x) >= fp_mul_spec(E_FP as int, FP as int)) by {
            lemma_fp_mul_mono_left(E_FP as int, r, s);
            lemma_fp_mul_mono_right(E_FP as int, FP as int, s);
        }
        lemma_fp_mul_one(E_FP as int);
    } else {
        assert(x < FP) by {
            lemma_fundamental_div_mod(x, FP as int);
        }
        lemma_small_mod(x as nat, FP as nat);
        assert(f == x);
        assert(taylor_term(f, 1) == f) by {
            assert(taylor_term(f, 0) == FP);
            lemma_fp_mul_one(f);
            lemma_div_basics(fp_mul_spec(FP as int, f));
        }
        assert(s >= FP + f) by {
            lemma_taylor_sum_rest_nonneg(f, 12);
        }
        lemma_fp_mul_one(s);
        assert(fp_exp_spec(x) == s);
    }
}

/// The series through term `k` is no smaller than through term 1.
proof fn lemma_taylor_sum_rest_nonneg(f: int, k: nat)
    requires
        0 <= f < FP,
        k >= 1,
    ensures
        taylor_sum(f, k) >= FP + taylor_term(f, 1),
    decreases k,
{
    if k == 1 {
        assert(taylor_sum(f, 0) == FP);
    } else {
        lemma_taylor_sum_rest_nonneg(f, (k - 1) as nat);
        lemma_taylor_term_bounds(f, k);
    }
}

/// `e ^ (x / FP)` for `x` in [0, POWER_LIMIT].
pub fn fp_exp(x: u64) -> (r: u64)
    requires
        x <= POWER_LIMIT,
    ensures
        r == fp_exp_spec(x as int),
        FP <= r <= 13 * EXP_CAP,
{
    let n: u64 = x / FP;
    let f: u64 = x % FP;
    let mut r: u64 = FP;
    let mut i: u64 = 0;
    while i < n
        invariant
            i <= n,
            r == exp_int_part(i as nat),
            FP <= r <= EXP_CAP,
        decreases n - i,
    {
        proof {
            assert(r * E_FP <= u64::MAX) by (nonlinear_arith)
                requires
                    r <= EXP_CAP,
            ;
        }
        let v = fp_mul(r, E_FP);
        if v > EXP_CAP {
            r = EXP_CAP;
        } else {
            r = v;
        }
        proof {
            lemma_exp_int_bounds((i + 1) as nat);
        }
        i = i + 1;
    }
    let mut term: u64 = FP;
    let mut acc: u64 = FP;
    let mut k: u64 = 1;
    while k <= 12
        invariant
            1 <= k <= 13,
            f < FP,
            term == taylor_term(f as int, (k - 1) as nat),
            0 <= term <= FP,
            acc == taylor_sum(f as int, (k - 1) as nat),
            FP <= acc <= FP + (k - 1) * f,
        decreases 13 - k,
    {
        proof {
            assert(term * f <= u64::MAX) by (nonlinear_arith)
                requires
                    term <= FP,
                    f < FP,
            ;
        }
        term = fp_mul(term, f) / k;
        proof {
            lemma_taylor_term_bounds(f as int, k as nat);
            lemma_taylor_sum_bounds(f as int, k as nat);
            assert((k as int) * (f as int) <= 12 * (f as int)) by (nonlinear_arith)
                requires
                    k <= 12,
                    0 <= f,
            ;
            assert(acc + term <= FP + (k as int) * (f as int));
        }
        acc = acc + term;
        k = k + 1;
    }
    proof {
        assert(acc <= 13 * FP) by (nonlinear_arith)
            requires
                acc <= FP + (k - 1) * f,
                k == 13,
                0 <= f < FP,
        ;
        assert(r * acc <= u64::MAX) by (nonlinear_arith)
            requires
                r <= EXP_CAP,
                acc <= 13 * FP,
        ;
    }
    let out = fp_mul(r, acc);
    proof {
        lemma_fp_exp_bounds(x as int);
    }
    out
}

} // verus!
