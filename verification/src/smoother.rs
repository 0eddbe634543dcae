//! The quintic smootherstep polynomial `t^3 (6 t^2 - 15 t + 10)` in fixed
//! point, computed exactly in wide integers and divided once at the end, so
//! that it is monotone by construction.

use vstd::prelude::*;
use vstd::arithmetic::div_mod::*;
use vstd::arithmetic::mul::*;
use crate::fixed::FP;

verus! {

/// `FP^4`: the scale of the exact five-factor numerator.
pub const FP_POW4: u128 = 0x1_0000_0000_0000_0000;

/// `FP^5` as an integer.
pub open spec fn fp_pow5() -> int {
    0x1_0000_0000_0000_0000_0000
}

/// The smootherstep numerator `t^3 (6 t^2 - 15 FP t + 10 FP^2)`, exact, at
/// scale `FP^5`.  The trailing factor is written with the subtraction last so
/// that the executable code can mirror it in unsigned arithmetic.
pub open spec fn ss_num(t: int) -> int {
    (t * t * t) * (6 * t * t + 10 * (FP as int) * (FP as int) - 15 * (FP as int) * t)
}

/// Smootherstep of `t` in [0, FP], back at scale `FP`.
pub open spec fn smootherstep_spec(t: int) -> int {
    ss_num(t) / (FP_POW4 as int)
}

/// The numerator grows by a sum of three nonnegative quantities from one
/// argument to the next: its discrete derivative is
/// `30 t^2 (t-u)^2 + 30 u t (u-t) + (10 FP^2 - 15 FP + 6)` with `u = FP - 1`.
proof fn lemma_ss_num_step(t: int)
    requires
        0 <= t <= FP - 1,
    ensures
        ss_num(t) <= ss_num(t + 1),
{
    let a = ss_num(t);
    let b = ss_num(t + 1);
    assert(a == t * t * t * (6 * t * t + 10 * 65536 * 65536 - 15 * 65536 * t));
    assert(b == (t + 1) * (t + 1) * (t + 1) * (6 * (t + 1) * (t + 1) + 10 * 65536 * 65536 - 15
        * 65536 * (t + 1)));
    assert(b - a == 30 * t * t * (t - 65535) * (t - 65535) + 30 * 65535 * t * (65535 - t) + (10
        * 65536 * 65536 - 15 * 65536 + 6)) by (nonlinear_arith)
        requires
            a == t * t * t * (6 * t * t + 10 * 65536 * 65536 - 15 * 65536 * t),
            b == (t + 1) * (t + 1) * (t + 1) * (6 * (t + 1) * (t + 1) + 10 * 65536 * 65536 - 15
                * 65536 * (t + 1)),
    ;
    assert(0 <= 30 * t * t * (t - 65535) * (t - 65535)) by (nonlinear_arith);
    assert(0 <= 30 * 65535 * t * (65535 - t)) by (nonlinear_arith)
        requires
            0 <= t <= 65535,
    ;
}

/// The numerator is monotone over [0, FP].
pub proof fn lemma_ss_num_mono(t1: int, t2: int)
    requires
        0 <= t1 <= t2 <= FP,
    ensures
        ss_num(t1) <= ss_num(t2),
    decreases t2 - t1,
{
    if t1 < t2 {
        lemma_ss_num_mono(t1, t2 - 1);
        lemma_ss_num_step(t2 - 1);
    }
}

/// The trailing quadratic factor of the numerator is nonnegative:
/// `8 (6 t^2 - 15 FP t + 10 FP^2) = 3 (4 t - 5 FP)^2 + 5 FP^2`.
proof fn lemma_ss_quad_nonneg(t: int)
    ensures
        0 <= 6 * t * t + 10 * (FP as int) * (FP as int) - 15 * (FP as int) * t,
{
    assert(8 * (6 * t * t + 10 * 65536 * 65536 - 15 * 65536 * t) == 3 * (4 * t - 5 * 65536) * (4 * t
        - 5 * 65536) + 5 * 65536 * 65536) by (nonlinear_arith);
    assert(0 <= 3 * (4 * t - 5 * 65536) * (4 * t - 5 * 65536)) by (nonlinear_arith);
}

pub proof fn lemma_ss_num_range(t: int)
    requires
        0 <= t <= FP,
    ensures
        0 <= ss_num(t) <= fp_pow5(),
{
    lemma_ss_quad_nonneg(t);
    assert(0 <= t * t * t) by (nonlinear_arith)
        requires
            0 <= t,
    ;
    lemma_mul_nonnegative(t * t * t, 6 * t * t + 10 * (FP as int) * (FP as int) - 15 * (FP as int)
        * t);
    lemma_ss_num_mono(t, FP as int);
    assert(ss_num(FP as int) == fp_pow5()) by (nonlinear_arith);
}

/// Smootherstep stays within [0, FP] and is monotone; it is 0 at 0 and FP at
/// FP.
pub proof fn lemma_smootherstep_range(t: int)
    requires
        0 <= t <= FP,
    ensures
        0 <= smootherstep_spec(t) <= FP,
{
    lemma_ss_num_range(t);
    lemma_div_pos_is_pos(ss_num(t), FP_POW4 as int);
    lemma_div_is_ordered(ss_num(t), fp_pow5(), FP_POW4 as int);
}

pub proof fn lemma_smootherstep_mono(t1: int, t2: int)
    requires
        0 <= t1 <= t2 <= FP,
    ensures
        smootherstep_spec(t1) <= smootherstep_spec(t2),
{
    lemma_ss_num_mono(t1, t2);
    lemma_div_is_ordered(ss_num(t1), ss_num(t2), FP_POW4 as int);
}

pub proof fn lemma_smootherstep_at_zero()
    ensures
        smootherstep_spec(0) == 0,
{
    assert(ss_num(0) == 0) by (nonlinear_arith);
}

pub proof fn lemma_smootherstep_at_one()
    ensures
        smootherstep_spec(FP as int) == FP,
{
    assert(ss_num(FP as int) == fp_pow5()) by (nonlinear_arith);
}

/// Smootherstep of `t` in [0, FP].
pub fn smootherstep(t: u64) -> (r: u64)
    requires
        t <= FP,
    ensures
        r == smootherstep_spec(t as int),
        r <= FP,
{
    let ti: u128 = t as u128;
    let fpi: u128 = FP as u128;
    proof {
        assert(ti * ti <= 0x1_0000_0000 && ti * ti * ti <= 0x1_0000_0000_0000 && 6 * ti * ti
            <= 0x6_0000_0000 && 15 * fpi * ti <= 0xf_0000_0000 && 10 * fpi * fpi
            <= 0xa_0000_0000) by (nonlinear_arith)
            requires
                ti <= 65536,
                fpi == 65536,
        ;
    }
    let t3: u128 = ti * ti * ti;
    proof {
        lemma_ss_quad_nonneg(t as int);
    }
    let q: u128 = 6 * ti * ti + 10 * fpi * fpi - 15 * fpi * ti;
    proof {
        assert(t3 * q <= u128::MAX) by (nonlinear_arith)
            requires
                t3 <= 0x1_0000_0000_0000u128,
                q <= 0x10_0000_0000_0000u128,
        ;
    }
    let num: u128 = t3 * q;
    let r128: u128 = num / FP_POW4;
    proof {
        assert(num == ss_num(t as int));
        lemma_ss_num_range(t as int);
        lemma_div_pos_is_pos(ss_num(t as int), FP_POW4 as int);
        lemma_div_is_ordered(ss_num(t as int), fp_pow5(), FP_POW4 as int);
    }
    r128 as u64
}

} // verus!
