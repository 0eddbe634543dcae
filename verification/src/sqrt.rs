//! Integer square root, the basis of the circular and elliptical distances
//! and of the fractional power.

use vstd::prelude::*;
use vstd::arithmetic::mul::*;

verus! {

/// `r` is the square root of `n`, rounded down.
pub open spec fn is_sqrt(n: int, r: int) -> bool {
    &&& 0 <= r
    &&& r * r <= n
    &&& n < (r + 1) * (r + 1)
}

/// The square root of `n`, rounded down.  Pinned to a single value by
/// `lemma_sqrt_floor_is_sqrt` together with `lemma_sqrt_unique`.
pub open spec fn sqrt_floor(n: int) -> int {
    choose|r: int| is_sqrt(n, r)
}

pub proof fn lemma_sqrt_exists(n: int) -> (r: int)
    requires
        0 <= n,
    ensures
        is_sqrt(n, r),
    decreases n,
{
    if n == 0 {
        assert(is_sqrt(0, 0)) by (nonlinear_arith);
        0
    } else {
        let p = lemma_sqrt_exists(n - 1);
        if (p + 1) * (p + 1) <= n {
            assert(n <= (p + 1) * (p + 1));
            assert(is_sqrt(n, p + 1)) by (nonlinear_arith)
                requires
                    0 <= p,
                    n == (p + 1) * (p + 1),
            ;
            p + 1
        } else {
            assert(is_sqrt(n, p));
            p
        }
    }
}

pub proof fn lemma_sqrt_unique(n: int, r1: int, r2: int)
    requires
        is_sqrt(n, r1),
        is_sqrt(n, r2),
    ensures
        r1 == r2,
{
    if r1 < r2 {
        lemma_mul_inequality(r1 + 1, r2, r2);
        lemma_mul_inequality(r1 + 1, r2, r1 + 1);
    }
    if r2 < r1 {
        lemma_mul_inequality(r2 + 1, r1, r1);
        lemma_mul_inequality(r2 + 1, r1, r2 + 1);
    }
}

pub proof fn lemma_sqrt_floor_is_sqrt(n: int)
    requires
        0 <= n,
    ensures
        is_sqrt(n, sqrt_floor(n)),
{
    let r = lemma_sqrt_exists(n);
    assert(is_sqrt(n, r));
}

/// A larger radicand has a square root at least as large.
pub proof fn lemma_sqrt_mono(n1: int, n2: int)
    requires
        0 <= n1 <= n2,
    ensures
        sqrt_floor(n1) <= sqrt_floor(n2),
{
    lemma_sqrt_floor_is_sqrt(n1);
    lemma_sqrt_floor_is_sqrt(n2);
    let r1 = sqrt_floor(n1);
    let r2 = sqrt_floor(n2);
    if r2 < r1 {
        lemma_mul_inequality(r2 + 1, r1, r1);
        lemma_mul_inequality(r2 + 1, r1, r2 + 1);
    }
}

/// The root of an exact square.
pub proof fn lemma_sqrt_of_square(r: int)
    requires
        0 <= r,
    ensures
        sqrt_floor(r * r) == r,
{
    assert(is_sqrt(r * r, r)) by (nonlinear_arith)
        requires
            0 <= r,
    ;
    lemma_sqrt_floor_is_sqrt(r * r);
    lemma_sqrt_unique(r * r, sqrt_floor(r * r), r);
}

/// Binary search for the integer square root of a 128-bit value.
pub fn isqrt(n: u128) -> (r: u64)
    requires
        n < 0x4000_0000_0000_0000_0000_0000_0000_0000u128,
    ensures
        r == sqrt_floor(n as int),
        is_sqrt(n as int, r as int),
{
    let mut lo: u64 = 0;
    let mut hi: u64 = 0x8000_0000_0000_0000u64;
    if n < u64::MAX as u128 {
        // A tighter start keeps the search short for small inputs.
        hi = n as u64;
    }
    proof {
        assert((hi + 1) * (hi + 1) > n) by (nonlinear_arith)
            requires
                (hi == 0x8000_0000_0000_0000u64 && n
                    < 0x4000_0000_0000_0000_0000_0000_0000_0000u128) || (hi == n && n
                    < u64::MAX),
                0 <= n,
        ;
    }
    while lo < hi
        invariant
            lo <= hi < u64::MAX,
            lo * lo <= n,
            n < (hi + 1) * (hi + 1),
        decreases hi - lo,
    {
        let mid: u64 = lo + (hi - lo + 1) / 2;
        proof {
            assert((mid as int) * (mid as int) <= u128::MAX) by (nonlinear_arith)
                requires
                    0 <= mid <= u64::MAX,
            ;
        }
        let sq: u128 = (mid as u128) * (mid as u128);
        if sq <= n {
            lo = mid;
        } else {
            hi = mid - 1;
        }
    }
    proof {
        assert(is_sqrt(n as int, lo as int));
        lemma_sqrt_floor_is_sqrt(n as int);
        lemma_sqrt_unique(n as int, sqrt_floor(n as int), lo as int);
    }
    lo
}

} // verus!
