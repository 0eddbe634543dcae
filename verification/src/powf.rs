//! Fixed-point power `base ^ (p / FP)` for bases in [0, 1] and positive
//! exponents, by square-and-multiply over the exponent's integer part and
//! repeated square roots over its sixteen fractional bits.

use vstd::prelude::*;
use vstd::arithmetic::div_mod::*;
use vstd::arithmetic::mul::*;
use vstd::arithmetic::power2::*;
use crate::fixed::{FP, POWER_LIMIT, fp_mul, fp_mul_spec};
use crate::fixed::{
    lemma_fp_mul_mono_left,
    lemma_fp_mul_mono_right,
    lemma_fp_mul_one,
    lemma_fp_mul_unit,
    lemma_fp_mul_zero,
};
use crate::sqrt::{
    is_sqrt,
    isqrt,
    lemma_sqrt_floor_is_sqrt,
    lemma_sqrt_mono,
    lemma_sqrt_of_square,
    sqrt_floor,
};

verus! {

/// `base` multiplied into one `n` times: `base ^ n` in fixed point.
pub open spec fn pow_int_spec(base: int, n: nat) -> int
    decreases n,
{
    if n == 0 {
        FP as int
    } else {
        fp_mul_spec(pow_int_spec(base, (n - 1) as nat), base)
    }
}

/// Fixed-point square root, scaled so that `sqrt_fp_spec(FP) == FP`.
pub open spec fn sqrt_fp_spec(x: int) -> int {
    sqrt_floor(x * (FP as int))
}

/// `base ^ (1 / 2^j)`: `j` successive fixed-point square roots.
pub open spec fn sqrt_chain(base: int, j: nat) -> int
    decreases j,
{
    if j == 0 {
        base
    } else {
        sqrt_fp_spec(sqrt_chain(base, (j - 1) as nat))
    }
}

/// Bit `j` of the fractional exponent, counted from the most significant
/// (weight `2^-j` for `j` in 1..=16).
pub open spec fn frac_bit(f: int, j: nat) -> bool {
    (f / (pow2((16 - j) as nat) as int)) % 2 == 1
}

/// The accumulator after folding in the integer part and the first `j`
/// fractional bits of the exponent.
pub open spec fn pow_acc(base: int, n: nat, f: int, j: nat) -> int
    decreases j,
{
    if j == 0 {
        pow_int_spec(base, n)
    } else {
        let prev = pow_acc(base, n, f, (j - 1) as nat);
        if frac_bit(f, j) {
            fp_mul_spec(prev, sqrt_chain(base, j))
        } else {
            prev
        }
    }
}

/// `base ^ (p / FP)` in fixed point, rounded toward zero at each step.
pub open spec fn fp_pow_spec(base: int, p: int) -> int {
    pow_acc(base, (p / (FP as int)) as nat, p % (FP as int), 16)
}

pub proof fn lemma_pow_int_unit(base: int, n: nat)
    requires
        0 <= base <= FP,
    ensures
        0 <= pow_int_spec(base, n) <= FP,
    decreases n,
{
    if n > 0 {
        lemma_pow_int_unit(base, (n - 1) as nat);
        lemma_fp_mul_unit(pow_int_spec(base, (n - 1) as nat), base);
    }
}

pub proof fn lemma_pow_int_mono(b1: int, b2: int, n: nat)
    requires
        0 <= b1 <= b2 <= FP,
    ensures
        pow_int_spec(b1, n) <= pow_int_spec(b2, n),
    decreases n,
{
    if n > 0 {
        let m = (n - 1) as nat;
        lemma_pow_int_mono(b1, b2, m);
        lemma_pow_int_unit(b1, m);
        lemma_pow_int_unit(b2, m);
        lemma_fp_mul_mono_left(pow_int_spec(b1, m), pow_int_spec(b2, m), b1);
        lemma_fp_mul_mono_right(pow_int_spec(b2, m), b1, b2);
    }
}

pub proof fn lemma_sqrt_fp_unit(x: int)
    requires
        0 <= x <= FP,
    ensures
        0 <= sqrt_fp_spec(x) <= FP,
{
    lemma_mul_nonnegative(x, FP as int);
    lemma_sqrt_floor_is_sqrt(x * (FP as int));
    lemma_mul_inequality(x, FP as int, FP as int);
    lemma_sqrt_mono(x * (FP as int), (FP as int) * (FP as int));
    lemma_sqrt_of_square(FP as int);
}

pub proof fn lemma_sqrt_fp_mono(x1: int, x2: int)
    requires
        0 <= x1 <= x2,
    ensures
        sqrt_fp_spec(x1) <= sqrt_fp_spec(x2),
{
    lemma_mul_nonnegative(x1, FP as int);
    lemma_mul_inequality(x1, x2, FP as int);
    lemma_sqrt_mono(x1 * (FP as int), x2 * (FP as int));
}

pub proof fn lemma_chain_unit(base: int, j: nat)
    requires
        0 <= base <= FP,
    ensures
        0 <= sqrt_chain(base, j) <= FP,
    decreases j,
{
    if j > 0 {
        lemma_chain_unit(base, (j - 1) as nat);
        lemma_sqrt_fp_unit(sqrt_chain(base, (j - 1) as nat));
    }
}

pub proof fn lemma_chain_mono(b1: int, b2: int, j: nat)
    requires
        0 <= b1 <= b2 <= FP,
    ensures
        sqrt_chain(b1, j) <= sqrt_chain(b2, j),
    decreases j,
{
    if j > 0 {
        let m = (j - 1) as nat;
        lemma_chain_mono(b1, b2, m);
        lemma_chain_unit(b1, m);
        lemma_sqrt_fp_mono(sqrt_chain(b1, m), sqrt_chain(b2, m));
    }
}

pub proof fn lemma_pow_acc_unit(base: int, n: nat, f: int, j: nat)
    requires
        0 <= base <= FP,
    ensures
        0 <= pow_acc(base, n, f, j) <= FP,
    decreases j,
{
    if j == 0 {
        lemma_pow_int_unit(base, n);
    } else {
        lemma_pow_acc_unit(base, n, f, (j - 1) as nat);
        lemma_chain_unit(base, j);
        lemma_fp_mul_unit(pow_acc(base, n, f, (j - 1) as nat), sqrt_chain(base, j));
    }
}

pub proof fn lemma_pow_acc_mono(b1: int, b2: int, n: nat, f: int, j: nat)
    requires
        0 <= b1 <= b2 <= FP,
    ensures
        pow_acc(b1, n, f, j) <= pow_acc(b2, n, f, j),
    decreases j,
{
    if j == 0 {
        lemma_pow_int_mono(b1, b2, n);
    } else {
        let m = (j - 1) as nat;
        lemma_pow_acc_mono(b1, b2, n, f, m);
        if frac_bit(f, j) {
            lemma_pow_acc_unit(b1, n, f, m);
            lemma_pow_acc_unit(b2, n, f, m);
            lemma_chain_unit(b1, j);
            lemma_chain_unit(b2, j);
            lemma_chain_mono(b1, b2, j);
            lemma_fp_mul_mono_left(pow_acc(b1, n, f, m), pow_acc(b2, n, f, m), sqrt_chain(b1, j));
            lemma_fp_mul_mono_right(pow_acc(b2, n, f, m), sqrt_chain(b1, j), sqrt_chain(b2, j));
        }
    }
}

/// The power stays within [0, 1] for bases within [0, 1].
pub proof fn lemma_fp_pow_unit(base: int, p: int)
    requires
        0 <= base <= FP,
    ensures
        0 <= fp_pow_spec(base, p) <= FP,
{
    lemma_pow_acc_unit(base, (p / (FP as int)) as nat, p % (FP as int), 16);
}

/// The power is monotone in its base.
pub proof fn lemma_fp_pow_mono_base(b1: int, b2: int, p: int)
    requires
        0 <= b1 <= b2 <= FP,
    ensures
        fp_pow_spec(b1, p) <= fp_pow_spec(b2, p),
{
    lemma_pow_acc_mono(b1, b2, (p / (FP as int)) as nat, p % (FP as int), 16);
}

pub proof fn lemma_pow_int_of_one(n: nat)
    ensures
        pow_int_spec(FP as int, n) == FP,
    decreases n,
{
    if n > 0 {
        lemma_pow_int_of_one((n - 1) as nat);
        lemma_fp_mul_one(FP as int);
    }
}

pub proof fn lemma_chain_of_one(j: nat)
    ensures
        sqrt_chain(FP as int, j) == FP,
    decreases j,
{
    if j > 0 {
        lemma_chain_of_one((j - 1) as nat);
        lemma_sqrt_of_square(FP as int);
    }
}

pub proof fn lemma_pow_acc_of_one(n: nat, f: int, j: nat)
    ensures
        pow_acc(FP as int, n, f, j) == FP,
    decreases j,
{
    if j == 0 {
        lemma_pow_int_of_one(n);
    } else {
        lemma_pow_acc_of_one(n, f, (j - 1) as nat);
        lemma_chain_of_one(j);
        lemma_fp_mul_one(FP as int);
    }
}

/// One raised to any power is one.
pub proof fn lemma_fp_pow_of_one(p: int)
    ensures
        fp_pow_spec(FP as int, p) == FP,
{
    lemma_pow_acc_of_one((p / (FP as int)) as nat, p % (FP as int), 16);
}

pub proof fn lemma_pow_int_of_zero(n: nat)
    ensures
        pow_int_spec(0, n) == if n == 0 {
            FP as int
        } else {
            0
        },
    decreases n,
{
    if n > 0 {
        lemma_pow_int_of_zero((n - 1) as nat);
        lemma_fp_mul_zero(pow_int_spec(0, (n - 1) as nat));
    }
}

pub proof fn lemma_chain_of_zero(j: nat)
    requires
        j >= 1,
    ensures
        sqrt_chain(0, j) == 0,
    decreases j,
{
    if j > 1 {
        lemma_chain_of_zero((j - 1) as nat);
    } else {
        assert(sqrt_chain(0, 0) == 0);
    }
    assert(sqrt_chain(0, (j - 1) as nat) == 0);
    assert(sqrt_fp_spec(0) == 0) by {
        assert(0 * (FP as int) == 0);
        assert(0 * 0 == 0);
        lemma_sqrt_of_square(0);
    }
    assert(sqrt_chain(0, j) == sqrt_fp_spec(sqrt_chain(0, (j - 1) as nat)));
}

pub proof fn lemma_pow_acc_zero_int(n: nat, f: int, j: nat)
    requires
        n >= 1,
    ensures
        pow_acc(0, n, f, j) == 0,
    decreases j,
{
    if j == 0 {
        lemma_pow_int_of_zero(n);
    } else {
        lemma_pow_acc_zero_int(n, f, (j - 1) as nat);
        lemma_fp_mul_zero(sqrt_chain(0, j));
    }
}

pub proof fn lemma_pow_acc_zero_frac(f: int, j: nat)
    requires
        0 <= f < FP,
        j <= 16,
    ensures
        pow_acc(0, 0, f, j) == 0 || (pow_acc(0, 0, f, j) == FP && f / (pow2((16 - j) as nat) as int)
            == 0),
    decreases j,
{
    if j == 0 {
        lemma2_to64();
        assert(pow2(16) == 65536);
        assert(f / (pow2(16) as int) == 0) by {
            lemma_basic_div(f, pow2(16) as int);
        }
    } else {
        let m = (j - 1) as nat;
        lemma_pow_acc_zero_frac(f, m);
        let prev = pow_acc(0, 0, f, m);
        if prev == 0 {
            if frac_bit(f, j) {
                lemma_fp_mul_zero(sqrt_chain(0, j));
            }
        } else {
            let d = pow2((16 - j) as nat) as int;
            assert(pow2((16 - m) as nat) == 2 * pow2((16 - j) as nat)) by {
                lemma_pow2_unfold((16 - m) as nat);
            }
            lemma_pow2_pos((16 - j) as nat);
            assert(f / (2 * d) == 0);
            assert(f / (2 * d) == (f / d) / 2) by {
                lemma_div_denominator(f, d, 2);
                lemma_mul_is_commutative(d, 2);
            }
            assert(0 <= f / d) by {
                lemma_div_pos_is_pos(f, d);
            }
            assert(f / d <= 1);
            if frac_bit(f, j) {
                lemma_chain_of_zero(j);
                lemma_fp_mul_zero(prev);
            } else {
                assert(f / d == 0);
            }
        }
    }
}

/// Zero raised to any positive power is zero.
pub proof fn lemma_fp_pow_of_zero(p: int)
    requires
        1 <= p,
    ensures
        fp_pow_spec(0, p) == 0,
{
    let n = (p / (FP as int)) as nat;
    let f = p % (FP as int);
    if n >= 1 {
        lemma_pow_acc_zero_int(n, f, 16);
    } else {
        assert(p < FP) by {
            lemma_fundamental_div_mod(p, FP as int);
        }
        lemma_small_mod(p as nat, FP as nat);
        assert(f == p);
        lemma_pow_acc_zero_frac(f, 16);
        lemma2_to64();
        assert(pow2(0) == 1);
        assert(f / 1 == f) by {
            lemma_div_basics(f);
        }
    }
}

/// Fixed-point square root: `sqrt(x / FP)` scaled back to fixed point.
pub fn sqrt_fp(x: u64) -> (r: u64)
    requires
        x <= FP,
    ensures
        r == sqrt_fp_spec(x as int),
        r <= FP,
{
    let r = isqrt((x as u128) * (FP as u128));
    proof {
        lemma_sqrt_fp_unit(x as int);
    }
    r
}

/// `base ^ (p / FP)` for `base` in [0, FP] and `p` in [1, POWER_LIMIT].
pub fn fp_pow(base: u64, p: u64) -> (r: u64)
    requires
        base <= FP,
        1 <= p <= POWER_LIMIT,
    ensures
        r == fp_pow_spec(base as int, p as int),
        r <= FP,
{
    let n: u64 = p / FP;
    let f: u64 = p % FP;
    let mut r: u64 = FP;
    let mut i: u64 = 0;
    while i < n
        invariant
            i <= n,
            base <= FP,
            r == pow_int_spec(base as int, i as nat),
            r <= FP,
        decreases n - i,
    {
        proof {
            lemma_mul_upper_bound(r as int, FP as int, base as int, FP as int);
        }
        r = fp_mul(r, base);
        proof {
            lemma_pow_int_unit(base as int, (i + 1) as nat);
        }
        i = i + 1;
    }
    let mut x: u64 = base;
    let mut w: u64 = 32768;
    let mut j: u64 = 1;
    proof {
        lemma2_to64();
    }
    while j <= 16
        invariant
            1 <= j <= 17,
            f < FP,
            base <= FP,
            x == sqrt_chain(base as int, (j - 1) as nat),
            x <= FP,
            r == pow_acc(base as int, n as nat, f as int, (j - 1) as nat),
            r <= FP,
            j <= 16 ==> w as int == pow2((16 - j) as nat) as int,
            j <= 16 ==> 1 <= w,
        decreases 17 - j,
    {
        x = sqrt_fp(x);
        proof {
            lemma_chain_unit(base as int, j as nat);
        }
        if (f / w) % 2 == 1 {
            proof {
                lemma_mul_upper_bound(r as int, FP as int, x as int, FP as int);
            }
            r = fp_mul(r, x);
            proof {
                lemma_pow_acc_unit(base as int, n as nat, f as int, j as nat);
            }
        }
        proof {
            if j < 16 {
                lemma_pow2_unfold((16 - j) as nat);
                lemma_pow2_pos((16 - j - 1) as nat);
            } else {
                lemma2_to64();
            }
        }
        w = w / 2;
        j = j + 1;
    }
    r
}

} // verus!
