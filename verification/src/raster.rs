//! The frame rasterizer: one packed BGRA pixel buffer per window, row-major
//! top to bottom, black at an alpha computed by the vignette function.

use vstd::prelude::*;
use vstd::arithmetic::div_mod::*;
use vstd::arithmetic::mul::*;
use crate::config::VignetteConfig;
use crate::fixed::FP;
use crate::vignette::{COORD_LIMIT, factor_spec, lemma_factor_range, vignette_factor};

verus! {

/// Largest admissible window side, in pixels: half of it in fixed point
/// stays below `COORD_LIMIT`.
pub const SIDE_LIMIT: u32 = 0x100_0000;

/// The alpha byte for an opacity factor: `round(factor * max_alpha * 255)`
/// carried out at scale `FP * FP` with half-up rounding.
pub open spec fn alpha_spec(cfg: VignetteConfig, factor: int) -> int {
    (factor * (cfg.max_alpha as int) * 255 + 0x8000_0000) / 0x1_0000_0000
}

/// The largest alpha byte any pixel may carry: `round(max_alpha * 255)`.
pub open spec fn alpha_limit_spec(cfg: VignetteConfig) -> int {
    ((cfg.max_alpha as int) * 255 + 0x8000) / 0x1_0000
}

/// The alpha byte of the pixel at `(x, y)` of a `w` by `h` window.
pub open spec fn alpha_at_spec(cfg: VignetteConfig, x: int, y: int, w: int, h: int) -> int {
    let cx = w * (FP as int) / 2;
    let cy = h * (FP as int) / 2;
    alpha_spec(cfg, factor_spec(cfg, x * (FP as int) - cx, y * (FP as int) - cy, cx, cy))
}

/// The packed BGRA value of the pixel at `(x, y)`: alpha in the top byte,
/// black (zero) color channels.
pub open spec fn pixel_spec(cfg: VignetteConfig, x: int, y: int, w: int, h: int) -> int {
    alpha_at_spec(cfg, x, y, w, h) * 0x100_0000
}

/// The whole frame: `w * h` pixels, row-major, top to bottom.
pub open spec fn frame_spec(cfg: VignetteConfig, w: int, h: int) -> Seq<u32> {
    Seq::new((w * h) as nat, |i: int| pixel_spec(cfg, i % w, i / w, w, h) as u32)
}

/// The alpha byte never exceeds `round(max_alpha * 255)`, which itself never
/// exceeds 255.
pub proof fn lemma_alpha_range(cfg: VignetteConfig, factor: int)
    requires
        cfg.wf(),
        0 <= factor <= FP,
    ensures
        0 <= alpha_spec(cfg, factor) <= alpha_limit_spec(cfg),
        alpha_limit_spec(cfg) <= 255,
{
    let m = cfg.max_alpha as int;
    let num = factor * m * 255 + 0x8000_0000;
    lemma_mul_nonnegative(factor, m);
    lemma_mul_nonnegative(factor * m, 255);
    lemma_div_pos_is_pos(num, 0x1_0000_0000);
    assert(factor * m * 255 <= (FP as int) * m * 255) by (nonlinear_arith)
        requires
            0 <= factor <= 65536,
            0 <= m,
    ;
    assert((FP as int) * m * 255 + 0x8000_0000 == (m * 255 + 0x8000) * 0x1_0000) by (nonlinear_arith);
    lemma_div_is_ordered(num, (m * 255 + 0x8000) * 0x1_0000, 0x1_0000_0000);
    assert(((m * 255 + 0x8000) * 0x1_0000) / 0x1_0000_0000 == (m * 255 + 0x8000) / 0x1_0000) by {
        lemma_div_denominator((m * 255 + 0x8000) * 0x1_0000, 0x1_0000, 0x1_0000);
        lemma_mul_is_commutative(m * 255 + 0x8000, 0x1_0000);
        lemma_div_multiples_vanish(m * 255 + 0x8000, 0x1_0000);
    }
    lemma_div_is_ordered(m * 255 + 0x8000, (FP as int) * 255 + 0x8000, 0x1_0000);
}

/// Rasterizing is a pure function of width, height and configuration: two
/// buffers that both match `frame_spec` for the same inputs are identical,
/// byte for byte.
pub proof fn lemma_rasterize_deterministic(
    cfg: VignetteConfig,
    w: int,
    h: int,
    b1: Seq<u32>,
    b2: Seq<u32>,
)
    requires
        b1 == frame_spec(cfg, w, h),
        b2 == frame_spec(cfg, w, h),
    ensures
        b1 == b2,
{
}

/// Pixel `i` of the frame is black, with an alpha byte within the
/// configured limit.
pub open spec fn frame_entry_ok(cfg: VignetteConfig, w: int, h: int, i: int) -> bool {
    &&& frame_spec(cfg, w, h)[i] == alpha_at_spec(cfg, i % w, i / w, w, h) * 0x100_0000
    &&& 0 <= alpha_at_spec(cfg, i % w, i / w, w, h) <= alpha_limit_spec(cfg)
}

/// The configured alpha limit is a byte.
pub proof fn lemma_alpha_limit_is_byte(cfg: VignetteConfig)
    requires
        cfg.wf(),
    ensures
        0 <= alpha_limit_spec(cfg) <= 255,
{
    let m = cfg.max_alpha as int;
    lemma_div_pos_is_pos(m * 255 + 0x8000, 0x1_0000);
    lemma_div_is_ordered(m * 255 + 0x8000, 65536int * 255 + 0x8000, 0x1_0000);
}

/// Every frame has exactly `w * h` pixels; every pixel is black with an
/// alpha byte between zero and `round(max_alpha * 255)`.
pub proof fn lemma_frame_wellformed(cfg: VignetteConfig, w: int, h: int)
    requires
        cfg.wf(),
        0 <= w,
        0 <= h,
    ensures
        frame_spec(cfg, w, h).len() == w * h,
        forall|i: int| 0 <= i < w * h ==> #[trigger] frame_entry_ok(cfg, w, h, i),
{
    lemma_mul_nonnegative(w, h);
    assert forall|i: int| 0 <= i < w * h implies #[trigger] frame_entry_ok(cfg, w, h, i) by {
        assert(1 <= w && 1 <= h) by {
            if w == 0 {
                lemma_mul_by_zero_is_zero(h);
            }
            if h == 0 {
                lemma_mul_by_zero_is_zero(w);
            }
        }
        let x = i % w;
        let y = i / w;
        lemma_mod_division_less_than_divisor(i, w);
        lemma_div_pos_is_pos(i, w);
        lemma_multiply_divide_lt(i, w, h);
        let cx = w * (FP as int) / 2;
        let cy = h * (FP as int) / 2;
        assert(1 <= cx && 1 <= cy) by {
            lemma_mul_inequality(1, w, FP as int);
            lemma_mul_inequality(1, h, FP as int);
            lemma_div_is_ordered(FP as int, w * (FP as int), 2);
            lemma_div_is_ordered(FP as int, h * (FP as int), 2);
        }
        lemma_factor_range(cfg, x * (FP as int) - cx, y * (FP as int) - cy, cx, cy);
        lemma_alpha_range(cfg, factor_spec(cfg, x * (FP as int) - cx, y * (FP as int) - cy, cx, cy));
        assert(0 <= pixel_spec(cfg, x, y, w, h) < 0x1_0000_0000) by {
            lemma_mul_inequality(0, alpha_at_spec(cfg, x, y, w, h), 0x100_0000);
            lemma_mul_inequality(alpha_at_spec(cfg, x, y, w, h), 255, 0x100_0000);
        }
    }
}

/// Rasterize one window: a row-major buffer of `width * height` packed BGRA
/// pixels, black at the vignette alpha.  Deterministic: the result is pinned
/// to `frame_spec`, a pure function of the arguments.
pub fn rasterize(cfg: &VignetteConfig, width: u32, height: u32) -> (buf: Vec<u32>)
    requires
        cfg.wf(),
        width <= SIDE_LIMIT,
        height <= SIDE_LIMIT,
        (width as int) * (height as int) <= usize::MAX,
    ensures
        buf@ == frame_spec(*cfg, width as int, height as int),
        buf@.len() == (width as int) * (height as int),
{
    let w = width as u64;
    let h = height as u64;
    let cx: u64 = w * FP / 2;
    let cy: u64 = h * FP / 2;
    let mut buf: Vec<u32> = Vec::new();
    let ghost wi = width as int;
    let ghost hi = height as int;
    let mut y: u64 = 0;
    while y < h
        invariant
            cfg.wf(),
            w == width,
            h == height,
            w <= 0x100_0000,
            h <= 0x100_0000,
            wi == w as int,
            hi == h as int,
            cx as int == wi * (FP as int) / 2,
            cy as int == hi * (FP as int) / 2,
            wi * hi <= usize::MAX,
            y <= h,
            buf@.len() == y as int * wi,
            forall|i: int|
                0 <= i < y as int * wi ==> buf@[i] == pixel_spec(*cfg, i % wi, i / wi, wi, hi)
                    as u32,
        decreases h - y,
    {
        let mut x: u64 = 0;
        proof {
            lemma_mul_inequality(y as int + 1, hi, wi);
            lemma_mul_is_commutative(y as int + 1, wi);
            lemma_mul_is_commutative(hi, wi);
            lemma_mul_is_distributive_add_other_way(wi, y as int, 1);
        }
        while x < w
            invariant
                cfg.wf(),
                w == width,
                h == height,
                w <= 0x100_0000,
                h <= 0x100_0000,
                wi == w as int,
                hi == h as int,
                cx as int == wi * (FP as int) / 2,
                cy as int == hi * (FP as int) / 2,
                y < h,
                x <= w,
                y as int * wi + wi <= usize::MAX,
                buf@.len() == y as int * wi + x as int,
                forall|i: int|
                    0 <= i < y as int * wi + x as int ==> buf@[i] == pixel_spec(
                        *cfg,
                        i % wi,
                        i / wi,
                        wi,
                        hi,
                    ) as u32,
            decreases w - x,
        {
            proof {
                assert(1 <= cx && 1 <= cy) by {
                    lemma_mul_inequality(1, wi, FP as int);
                    lemma_mul_inequality(1, hi, FP as int);
                    lemma_div_is_ordered(FP as int, wi * (FP as int), 2);
                    lemma_div_is_ordered(FP as int, hi * (FP as int), 2);
                }
                assert(cx <= COORD_LIMIT && cy <= COORD_LIMIT) by {
                    lemma_mul_inequality(wi, 0x100_0000, FP as int);
                    lemma_mul_inequality(hi, 0x100_0000, FP as int);
                    lemma_div_is_ordered(wi * (FP as int), 0x100_0000 * (FP as int), 2);
                    lemma_div_is_ordered(hi * (FP as int), 0x100_0000 * (FP as int), 2);
                }
            }
            proof {
                assert((x as int) * 65536 <= 0x100_0000_0000 && (y as int) * 65536
                    <= 0x100_0000_0000) by (nonlinear_arith)
                    requires
                        x <= 0x100_0000u64,
                        y <= 0x100_0000u64,
                ;
            }
            let dx: i64 = (x as i64) * (FP as i64) - (cx as i64);
            let dy: i64 = (y as i64) * (FP as i64) - (cy as i64);
            let factor = vignette_factor(cfg, dx, dy, cx, cy);
            proof {
                assert(factor * cfg.max_alpha <= 0x1_0000_0000) by (nonlinear_arith)
                    requires
                        factor <= 0x1_0000u64,
                        cfg.max_alpha <= 0x1_0000u64,
                ;
            }
            let alpha: u64 = (factor * cfg.max_alpha * 255 + 0x8000_0000) / 0x1_0000_0000;
            proof {
                lemma_alpha_range(*cfg, factor as int);
            }
            let px: u32 = (alpha as u32) * 0x100_0000;
            let ghost idx = y as int * wi + x as int;
            proof {
                lemma_mul_is_commutative(y as int, wi);
                lemma_fundamental_div_mod_converse(idx, wi, y as int, x as int);
                assert(px == pixel_spec(*cfg, x as int, y as int, wi, hi) as u32);
            }
            buf.push(px);
            x = x + 1;
        }
        y = y + 1;
    }
    proof {
        lemma_mul_is_commutative(hi, wi);
        assert(buf@ =~= frame_spec(*cfg, wi, hi));
    }
    buf
}

} // verus!
