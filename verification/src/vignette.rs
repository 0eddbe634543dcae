//! The vignette function: from a pixel's offset to an opacity factor.
//!
//! Pipeline: bias-adjust the horizontal offset, normalize it by the window's
//! half-size according to the configured shape, optionally invert, clamp to
//! [0, 1], and map through the configured falloff.  All values are fixed
//! point at scale `FP`.

use vstd::prelude::*;
use vstd::arithmetic::div_mod::*;
use vstd::arithmetic::mul::*;
use crate::config::{FalloffType, Shape, VignetteConfig};
use crate::expf::{
    fp_exp,
    fp_exp_spec,
    lemma_fp_exp_at_zero,
    lemma_fp_exp_bounds,
    lemma_fp_exp_gt_one,
};
use crate::fixed::{FP, fp_mul, fp_mul_spec};
use crate::fixed::{
    lemma_fp_mul_le_left,
    lemma_fp_mul_nonneg,
    lemma_fp_mul_unit,
    lemma_fp_mul_zero,
};
use crate::powf::{
    fp_pow,
    fp_pow_spec,
    lemma_fp_pow_mono_base,
    lemma_fp_pow_of_one,
    lemma_fp_pow_of_zero,
    lemma_fp_pow_unit,
};
use crate::smoother::{
    lemma_smootherstep_at_one,
    lemma_smootherstep_at_zero,
    lemma_smootherstep_mono,
    lemma_smootherstep_range,
    smootherstep,
    smootherstep_spec,
};
use crate::sqrt::{isqrt, lemma_sqrt_floor_is_sqrt, lemma_sqrt_of_square, sqrt_floor};

verus! {

/// Largest admissible half-size of a window, in fixed point.
pub const COORD_LIMIT: u64 = 0x100_0000_0000;

/// Horizontal stretch of the elliptical shape: 1.7, as the ratio 17/10.
pub const ASPECT_NUM: u64 = 17;

pub const ASPECT_DEN: u64 = 10;

pub open spec fn abs_spec(x: int) -> int {
    if x < 0 {
        -x
    } else {
        x
    }
}

/// The horizontal offset after bias adjustment: a left bias shifts the
/// effective center right by `cx * bias`, a right bias shifts it left.
/// `left_bias` wins when both are present.
pub open spec fn biased_dx_spec(cfg: VignetteConfig, dx: int, cx: int) -> int {
    match cfg.left_bias {
        Some(b) => dx + fp_mul_spec(cx, b as int),
        None => match cfg.right_bias {
            Some(b) => dx - fp_mul_spec(cx, b as int),
            None => dx,
        },
    }
}

/// The shape-normalized distance of a pixel from the effective center,
/// before inversion and clamping.  A distance of `FP` means the window edge
/// (or corner, for the circle).
pub open spec fn raw_distance_spec(cfg: VignetteConfig, dx: int, dy: int, cx: int, cy: int) -> int {
    let bdx = abs_spec(biased_dx_spec(cfg, dx, cx));
    let ady = abs_spec(dy);
    match cfg.shape {
        Shape::Circle => sqrt_floor(bdx * bdx + ady * ady) * (FP as int) / sqrt_floor(
            cx * cx + cy * cy,
        ),
        Shape::Rectangle => {
            let rx = bdx * (FP as int) / cx;
            let ry = ady * (FP as int) / cy;
            if rx >= ry {
                rx
            } else {
                ry
            }
        },
        Shape::Diamond => (bdx * (FP as int) / cx + ady * (FP as int) / cy) / 2,
        Shape::Elliptical => {
            let sdx = bdx * (ASPECT_NUM as int) / (ASPECT_DEN as int);
            let scx = cx * (ASPECT_NUM as int) / (ASPECT_DEN as int);
            sqrt_floor(sdx * sdx + ady * ady) * (FP as int) / sqrt_floor(scx * scx + cy * cy)
        },
    }
}

/// The raw distance clamped from above to one.
pub open spec fn capped_distance_spec(
    cfg: VignetteConfig,
    dx: int,
    dy: int,
    cx: int,
    cy: int,
) -> int {
    let d = raw_distance_spec(cfg, dx, dy, cx, cy);
    if d >= FP {
        FP as int
    } else {
        d
    }
}

/// The distance the falloff sees: mirrored around the half-way point when
/// the vignette is inverted.  Together with the cap above this realizes
/// "invert, then clamp to [0, 1]": a raw distance beyond one lands on zero.
pub open spec fn eff_distance_spec(cfg: VignetteConfig, d: int) -> int {
    if cfg.invert {
        FP - d
    } else {
        d
    }
}

/// The configured falloff applied to a clamped distance.
pub open spec fn falloff_spec(cfg: VignetteConfig, d: int) -> int {
    match cfg.falloff_type {
        FalloffType::Power => fp_pow_spec(d, cfg.falloff_power as int),
        FalloffType::Exponential => {
            let num = fp_exp_spec(fp_mul_spec(cfg.falloff_power as int, d)) - FP;
            let den = fp_exp_spec(cfg.falloff_power as int) - FP;
            let v = num * (FP as int) / den;
            if v >= FP {
                FP as int
            } else {
                v
            }
        },
        FalloffType::Gaussian => FP - (FP as int) * (FP as int) / fp_exp_spec(
            fp_mul_spec(cfg.falloff_power as int, fp_mul_spec(d, d)),
        ),
        FalloffType::Smootherstep => fp_pow_spec(smootherstep_spec(d), cfg.falloff_power as int),
    }
}

/// The opacity factor reached from a clamped distance: invert, then fall
/// off.
pub open spec fn factor_from_distance_spec(cfg: VignetteConfig, d: int) -> int {
    falloff_spec(cfg, eff_distance_spec(cfg, d))
}

/// The opacity factor of the pixel at signed offset `(dx, dy)` from the
/// center of a window with half-sizes `(cx, cy)`.
pub open spec fn factor_spec(cfg: VignetteConfig, dx: int, dy: int, cx: int, cy: int) -> int {
    factor_from_distance_spec(cfg, capped_distance_spec(cfg, dx, dy, cx, cy))
}

/// The falloff of a zero distance is zero: the effective center is fully
/// transparent, whatever the falloff type.
pub proof fn lemma_falloff_at_zero(cfg: VignetteConfig)
    requires
        cfg.wf(),
    ensures
        falloff_spec(cfg, 0) == 0,
{
    let p = cfg.falloff_power as int;
    match cfg.falloff_type {
        FalloffType::Power => {
            lemma_fp_pow_of_zero(p);
        },
        FalloffType::Exponential => {
            lemma_fp_mul_zero(p);
            lemma_fp_exp_at_zero();
            lemma_fp_exp_gt_one(p);
            let den = fp_exp_spec(p) - FP;
            assert(0int * (FP as int) == 0);
            lemma_div_of0(den);
        },
        FalloffType::Gaussian => {
            lemma_fp_mul_zero(0int);
            lemma_fp_mul_zero(p);
            lemma_fp_exp_at_zero();
            lemma_div_multiples_vanish(FP as int, FP as int);
        },
        FalloffType::Smootherstep => {
            lemma_smootherstep_at_zero();
            lemma_fp_pow_of_zero(p);
        },
    }
}

/// The falloff of a full distance of one is one for the power and
/// smootherstep falloffs, and never more than one for any falloff.
pub proof fn lemma_falloff_at_one(cfg: VignetteConfig)
    requires
        cfg.wf(),
    ensures
        cfg.falloff_type == FalloffType::Power ==> falloff_spec(cfg, FP as int) == FP,
        cfg.falloff_type == FalloffType::Smootherstep ==> falloff_spec(cfg, FP as int) == FP,
{
    let p = cfg.falloff_power as int;
    lemma_fp_pow_of_one(p);
    lemma_smootherstep_at_one();
}

/// Every falloff of a clamped distance lies in [0, 1].
pub proof fn lemma_falloff_range(cfg: VignetteConfig, d: int)
    requires
        cfg.wf(),
        0 <= d <= FP,
    ensures
        0 <= falloff_spec(cfg, d) <= FP,
{
    let p = cfg.falloff_power as int;
    match cfg.falloff_type {
        FalloffType::Power => {
            lemma_fp_pow_unit(d, p);
        },
        FalloffType::Exponential => {
            let pd = fp_mul_spec(p, d);
            lemma_fp_mul_nonneg(p, d);
            lemma_fp_exp_bounds(pd);
            lemma_fp_exp_gt_one(p);
            let num = fp_exp_spec(pd) - FP;
            let den = fp_exp_spec(p) - FP;
            lemma_mul_nonnegative(num, FP as int);
            lemma_div_pos_is_pos(num * (FP as int), den);
        },
        FalloffType::Gaussian => {
            let dd = fp_mul_spec(d, d);
            lemma_fp_mul_nonneg(d, d);
            lemma_fp_mul_nonneg(p, dd);
            let pdd = fp_mul_spec(p, dd);
            lemma_fp_exp_bounds(pdd);
            let e = fp_exp_spec(pdd);
            lemma_div_is_ordered_by_denominator((FP as int) * (FP as int), FP as int, e);
            lemma_div_multiples_vanish(FP as int, FP as int);
            lemma_div_pos_is_pos((FP as int) * (FP as int), e);
        },
        FalloffType::Smootherstep => {
            lemma_smootherstep_range(d);
            lemma_fp_pow_unit(smootherstep_spec(d), p);
        },
    }
}

/// The smootherstep falloff is monotone in the distance.
pub proof fn lemma_smootherstep_falloff_monotone(cfg: VignetteConfig, d1: int, d2: int)
    requires
        cfg.wf(),
        cfg.falloff_type == FalloffType::Smootherstep,
        0 <= d1 <= d2 <= FP,
    ensures
        falloff_spec(cfg, d1) <= falloff_spec(cfg, d2),
{
    lemma_smootherstep_mono(d1, d2);
    lemma_smootherstep_range(d1);
    lemma_smootherstep_range(d2);
    lemma_fp_pow_mono_base(
        smootherstep_spec(d1),
        smootherstep_spec(d2),
        cfg.falloff_power as int,
    );
}

/// Inversion mirrors the distance: the inverted factor at clamped distance
/// `d` equals the non-inverted factor at distance `1 - d`.
pub proof fn lemma_invert_mirrors_distance(cfg: VignetteConfig, d: int)
    requires
        cfg.wf(),
        cfg.invert,
        0 <= d <= FP,
    ensures
        factor_from_distance_spec(cfg, d) == factor_from_distance_spec(
            (VignetteConfig { invert: false, ..cfg }),
            (FP as int) - d,
        ),
{
}

/// The raw distance is never negative.
pub proof fn lemma_raw_distance_nonneg(cfg: VignetteConfig, dx: int, dy: int, cx: int, cy: int)
    requires
        cfg.wf(),
        1 <= cx,
        1 <= cy,
    ensures
        0 <= raw_distance_spec(cfg, dx, dy, cx, cy),
{
    let bdx = abs_spec(biased_dx_spec(cfg, dx, cx));
    let ady = abs_spec(dy);
    match cfg.shape {
        Shape::Circle => {
            lemma_mul_nonnegative(bdx, bdx);
            lemma_mul_nonnegative(ady, ady);
            lemma_sqrt_floor_is_sqrt(bdx * bdx + ady * ady);
            let num = sqrt_floor(bdx * bdx + ady * ady);
            lemma_mul_nonnegative(num, FP as int);
            lemma_den_sqrt_pos(cx, cy);
            lemma_div_pos_is_pos(num * (FP as int), sqrt_floor(cx * cx + cy * cy));
        },
        Shape::Rectangle => {
            lemma_mul_nonnegative(bdx, FP as int);
            lemma_mul_nonnegative(ady, FP as int);
            lemma_div_pos_is_pos(bdx * (FP as int), cx);
            lemma_div_pos_is_pos(ady * (FP as int), cy);
        },
        Shape::Diamond => {
            lemma_mul_nonnegative(bdx, FP as int);
            lemma_mul_nonnegative(ady, FP as int);
            lemma_div_pos_is_pos(bdx * (FP as int), cx);
            lemma_div_pos_is_pos(ady * (FP as int), cy);
            lemma_div_pos_is_pos(bdx * (FP as int) / cx + ady * (FP as int) / cy, 2);
        },
        Shape::Elliptical => {
            let sdx = bdx * (ASPECT_NUM as int) / (ASPECT_DEN as int);
            lemma_mul_nonnegative(bdx, ASPECT_NUM as int);
            lemma_div_pos_is_pos(bdx * (ASPECT_NUM as int), ASPECT_DEN as int);
            lemma_mul_nonnegative(sdx, sdx);
            lemma_mul_nonnegative(ady, ady);
            lemma_sqrt_floor_is_sqrt(sdx * sdx + ady * ady);
            let num = sqrt_floor(sdx * sdx + ady * ady);
            lemma_mul_nonnegative(num, FP as int);
            lemma_stretch_ge_one(cx);
            lemma_den_sqrt_pos(cx * (ASPECT_NUM as int) / (ASPECT_DEN as int), cy);
            lemma_div_pos_is_pos(
                num * (FP as int),
                sqrt_floor(
                    (cx * (ASPECT_NUM as int) / (ASPECT_DEN as int)) * (cx * (ASPECT_NUM as int) / (
                    ASPECT_DEN as int)) + cy * cy,
                ),
            );
        },
    }
}

/// Stretching a positive half-size by 17/10 keeps it positive.
pub proof fn lemma_stretch_ge_one(cx: int)
    requires
        1 <= cx,
    ensures
        cx <= cx * (ASPECT_NUM as int) / (ASPECT_DEN as int),
{
    lemma_mul_inequality(10, 17, cx);
    lemma_mul_is_commutative(10, cx);
    lemma_mul_is_commutative(17, cx);
    lemma_div_is_ordered(cx * 10, cx * 17, 10);
    lemma_div_multiples_vanish(cx, 10);
    lemma_mul_is_commutative(10, cx);
}

/// The normalizing corner distance of positive half-sizes is positive.
pub proof fn lemma_den_sqrt_pos(cx: int, cy: int)
    requires
        1 <= cx,
        1 <= cy,
    ensures
        1 <= sqrt_floor(cx * cx + cy * cy),
{
    assert(2 <= cx * cx + cy * cy) by (nonlinear_arith)
        requires
            1 <= cx,
            1 <= cy,
    ;
    lemma_sqrt_floor_is_sqrt(cx * cx + cy * cy);
    let r = sqrt_floor(cx * cx + cy * cy);
    if r == 0 {
        assert((r + 1) * (r + 1) == 1);
    }
}

/// The factor of any pixel lies in [0, 1]: the overlay never exceeds full
/// configured opacity anywhere.
pub proof fn lemma_factor_range(cfg: VignetteConfig, dx: int, dy: int, cx: int, cy: int)
    requires
        cfg.wf(),
        1 <= cx,
        1 <= cy,
    ensures
        0 <= factor_spec(cfg, dx, dy, cx, cy) <= FP,
{
    lemma_raw_distance_nonneg(cfg, dx, dy, cx, cy);
    lemma_falloff_range(cfg, eff_distance_spec(cfg, capped_distance_spec(cfg, dx, dy, cx, cy)));
}

/// At the exact center, without bias and without inversion, the factor is
/// zero: the overlay is fully transparent there.
pub proof fn lemma_factor_center_transparent(cfg: VignetteConfig, cx: int, cy: int)
    requires
        cfg.wf(),
        cfg.left_bias is None,
        cfg.right_bias is None,
        !cfg.invert,
        1 <= cx,
        1 <= cy,
    ensures
        factor_spec(cfg, 0, 0, cx, cy) == 0,
{
    assert(biased_dx_spec(cfg, 0, cx) == 0);
    assert(raw_distance_spec(cfg, 0, 0, cx, cy) == 0) by {
        lemma_sqrt_of_square(0);
        assert(0int * 0int == 0) by (nonlinear_arith);
        match cfg.shape {
            Shape::Circle => {
                lemma_den_sqrt_pos(cx, cy);
                assert(0int * (FP as int) == 0);
                lemma_div_of0(sqrt_floor(cx * cx + cy * cy));
            },
            Shape::Rectangle => {
                assert(0int * (FP as int) == 0);
                lemma_div_of0(cx);
                lemma_div_of0(cy);
            },
            Shape::Diamond => {
                assert(0int * (FP as int) == 0);
                lemma_div_of0(cx);
                lemma_div_of0(cy);
            },
            Shape::Elliptical => {
                assert(0int * (ASPECT_NUM as int) == 0);
                lemma_div_of0(ASPECT_DEN as int);
                lemma_stretch_ge_one(cx);
                lemma_den_sqrt_pos(cx * (ASPECT_NUM as int) / (ASPECT_DEN as int), cy);
                assert(0int * (FP as int) == 0);
                lemma_div_of0(
                    sqrt_floor(
                        (cx * (ASPECT_NUM as int) / (ASPECT_DEN as int)) * (cx * (ASPECT_NUM as int)
                            / (ASPECT_DEN as int)) + cy * cy,
                    ),
                );
            },
        }
    }
    lemma_falloff_at_zero(cfg);
}

/// The shape-normalized, clamped distance of a pixel.
pub fn shape_distance(cfg: &VignetteConfig, dx: i64, dy: i64, cx: u64, cy: u64) -> (d: u64)
    requires
        cfg.wf(),
        1 <= cx <= COORD_LIMIT,
        1 <= cy <= COORD_LIMIT,
        -2 * (COORD_LIMIT as int) <= dx <= 2 * (COORD_LIMIT as int),
        -2 * (COORD_LIMIT as int) <= dy <= 2 * (COORD_LIMIT as int),
    ensures
        d == capped_distance_spec(*cfg, dx as int, dy as int, cx as int, cy as int),
        d <= FP,
{
    let adj: i64 = match cfg.left_bias {
        Some(b) => {
            proof {
                assert(cx * b <= 0x1000_0000_0000_0000) by (nonlinear_arith)
                    requires
                        cx <= 0x100_0000_0000u64,
                        b <= 0x10_0000u64,
                ;
                lemma_fp_mul_nonneg(cx as int, b as int);
                lemma_div_is_ordered((cx as int) * (b as int), 0x1000_0000_0000_0000, FP as int);
            }
            dx + fp_mul(cx, b) as i64
        },
        None => match cfg.right_bias {
            Some(b) => {
                proof {
                    assert(cx * b <= 0x1000_0000_0000_0000) by (nonlinear_arith)
                        requires
                            cx <= 0x100_0000_0000u64,
                            b <= 0x10_0000u64,
                    ;
                    lemma_fp_mul_nonneg(cx as int, b as int);
                    lemma_div_is_ordered(
                        (cx as int) * (b as int),
                        0x1000_0000_0000_0000,
                        FP as int,
                    );
                }
                dx - fp_mul(cx, b) as i64
            },
            None => dx,
        },
    };
    let bdx: u64 = if adj < 0 {
        (-adj) as u64
    } else {
        adj as u64
    };
    let ady: u64 = if dy < 0 {
        (-dy) as u64
    } else {
        dy as u64
    };
    proof {
        assert(bdx <= 0x2000_0000_0000);
        assert(ady <= 0x2000_0000_0000);
    }
    let raw: u64 = match cfg.shape {
        Shape::Circle => {
            proof {
                assert((bdx as int) * (bdx as int) + (ady as int) * (ady as int)
                    < 0x1000_0000_0000_0000_0000_0000) by (nonlinear_arith)
                    requires
                        bdx <= 0x2000_0000_0000,
                        ady <= 0x2000_0000_0000,
                ;
                assert((cx as int) * (cx as int) + (cy as int) * (cy as int)
                    < 0x1000_0000_0000_0000_0000_0000) by (nonlinear_arith)
                    requires
                        cx <= 0x100_0000_0000u64,
                        cy <= 0x100_0000_0000u64,
                ;
            }
            let num = isqrt((bdx as u128) * (bdx as u128) + (ady as u128) * (ady as u128));
            let den = isqrt((cx as u128) * (cx as u128) + (cy as u128) * (cy as u128));
            proof {
                lemma_den_sqrt_pos(cx as int, cy as int);
                assert(num <= 0x8000_0000_0000) by (nonlinear_arith)
                    requires
                        (num as int) * (num as int) <= (bdx as int) * (bdx as int) + (ady as int) * (
                        ady as int),
                        bdx <= 0x2000_0000_0000,
                        ady <= 0x2000_0000_0000,
                        0 <= num,
                ;
            }
            num * FP / den
        },
        Shape::Rectangle => {
            let rx = bdx * FP / cx;
            let ry = ady * FP / cy;
            if rx >= ry {
                rx
            } else {
                ry
            }
        },
        Shape::Diamond => {
            let rx = bdx * FP / cx;
            let ry = ady * FP / cy;
            proof {
                lemma_mul_nonnegative(bdx as int, FP as int);
                lemma_mul_nonnegative(ady as int, FP as int);
                lemma_div_pos_is_pos((bdx as int) * (FP as int), cx as int);
                lemma_div_pos_is_pos((ady as int) * (FP as int), cy as int);
            }
            (rx + ry) / 2
        },
        Shape::Elliptical => {
            let sdx = bdx * ASPECT_NUM / ASPECT_DEN;
            let scx = cx * ASPECT_NUM / ASPECT_DEN;
            proof {
                lemma_stretch_ge_one(cx as int);
                assert(sdx <= 0x4000_0000_0000 && scx <= 0x4000_0000_0000) by (nonlinear_arith)
                    requires
                        sdx == (bdx as int) * 17 / 10,
                        scx == (cx as int) * 17 / 10,
                        bdx <= 0x2000_0000_0000u64,
                        cx <= 0x100_0000_0000u64,
                ;
                assert((sdx as int) * (sdx as int) + (ady as int) * (ady as int)
                    < 0x4000_0000_0000_0000_0000_0000) by (nonlinear_arith)
                    requires
                        sdx <= 0x4000_0000_0000,
                        ady <= 0x2000_0000_0000,
                ;
                assert((scx as int) * (scx as int) + (cy as int) * (cy as int)
                    < 0x4000_0000_0000_0000_0000_0000) by (nonlinear_arith)
                    requires
                        scx <= 0x4000_0000_0000u64,
                        cy <= 0x100_0000_0000u64,
                ;
            }
            let num = isqrt((sdx as u128) * (sdx as u128) + (ady as u128) * (ady as u128));
            let den = isqrt((scx as u128) * (scx as u128) + (cy as u128) * (cy as u128));
            proof {
                lemma_den_sqrt_pos(scx as int, cy as int);
                assert(num <= 0x8000_0000_0000) by (nonlinear_arith)
                    requires
                        (num as int) * (num as int) <= (sdx as int) * (sdx as int) + (ady as int) * (
                        ady as int),
                        sdx <= 0x4000_0000_0000,
                        ady <= 0x2000_0000_0000,
                        0 <= num,
                ;
            }
            num * FP / den
        },
    };
    if raw >= FP {
        FP
    } else {
        raw
    }
}

/// The configured falloff applied to a clamped distance.
pub fn falloff(cfg: &VignetteConfig, d: u64) -> (r: u64)
    requires
        cfg.wf(),
        d <= FP,
    ensures
        r == falloff_spec(*cfg, d as int),
        r <= FP,
{
    let p = cfg.falloff_power;
    let r: u64 = match cfg.falloff_type {
        FalloffType::Power => fp_pow(d, p),
        FalloffType::Exponential => {
            proof {
                assert(p * d <= u64::MAX) by (nonlinear_arith)
                    requires
                        p <= 0x10_0000u64,
                        d <= 0x1_0000u64,
                ;
                lemma_fp_mul_le_left(p as int, d as int);
                lemma_fp_mul_nonneg(p as int, d as int);
            }
            let pd = fp_mul(p, d);
            let en = fp_exp(pd);
            let ed = fp_exp(p);
            proof {
                lemma_fp_exp_gt_one(p as int);
            }
            let num = en - FP;
            let den = ed - FP;
            proof {
                assert(num * FP <= u64::MAX) by (nonlinear_arith)
                    requires
                        num <= 0x6800_0000_0000u64,
                ;
            }
            let v = num * FP / den;
            if v >= FP {
                FP
            } else {
                v
            }
        },
        FalloffType::Gaussian => {
            proof {
                assert(d * d <= u64::MAX) by (nonlinear_arith)
                    requires
                        d <= 0x1_0000u64,
                ;
            }
            let dd = fp_mul(d, d);
            proof {
                lemma_fp_mul_unit(d as int, d as int);
                assert(p * dd <= u64::MAX) by (nonlinear_arith)
                    requires
                        p <= 0x10_0000u64,
                        dd <= 0x1_0000u64,
                ;
                lemma_fp_mul_le_left(p as int, dd as int);
                lemma_fp_mul_nonneg(p as int, dd as int);
            }
            let pdd = fp_mul(p, dd);
            let e = fp_exp(pdd);
            proof {
                lemma_div_is_ordered_by_denominator((FP as int) * (FP as int), FP as int, e as int);
                lemma_div_multiples_vanish(FP as int, FP as int);
                lemma_div_pos_is_pos((FP as int) * (FP as int), e as int);
            }
            FP - (FP * FP) / e
        },
        FalloffType::Smootherstep => {
            let s = smootherstep(d);
            fp_pow(s, p)
        },
    };
    proof {
        lemma_falloff_range(*cfg, d as int);
    }
    r
}

/// The factor reached from a clamped distance: invert, then fall off.
pub fn factor_from_distance(cfg: &VignetteConfig, d: u64) -> (r: u64)
    requires
        cfg.wf(),
        d <= FP,
    ensures
        r == factor_from_distance_spec(*cfg, d as int),
        r <= FP,
{
    let eff = if cfg.invert {
        FP - d
    } else {
        d
    };
    falloff(cfg, eff)
}

/// The opacity factor of the pixel at signed offset `(dx, dy)` from the
/// center of a window with half-sizes `(cx, cy)`, in [0, FP].
pub fn vignette_factor(cfg: &VignetteConfig, dx: i64, dy: i64, cx: u64, cy: u64) -> (f: u64)
    requires
        cfg.wf(),
        1 <= cx <= COORD_LIMIT,
        1 <= cy <= COORD_LIMIT,
        -2 * (COORD_LIMIT as int) <= dx <= 2 * (COORD_LIMIT as int),
        -2 * (COORD_LIMIT as int) <= dy <= 2 * (COORD_LIMIT as int),
    ensures
        f == factor_spec(*cfg, dx as int, dy as int, cx as int, cy as int),
        f <= FP,
{
    let d = shape_distance(cfg, dx, dy, cx, cy);
    factor_from_distance(cfg, d)
}

} // verus!
