use privscrn::config::{FalloffType, Shape, VignetteConfig};
use privscrn::raster::rasterize;

const FP: u64 = 65536;

fn alpha_of(px: u32) -> u32 {
    px >> 24
}

#[test]
fn rasterizing_twice_gives_byte_identical_buffers() {
    let cfg = VignetteConfig::new(
        Shape::Circle,
        FalloffType::Gaussian,
        4 * FP,
        39321,
        Some(FP / 5),
        None,
        false,
    )
    .unwrap();
    let a = rasterize(&cfg, 64, 48);
    let b = rasterize(&cfg, 64, 48);
    assert_eq!(a, b);
}

#[test]
fn buffer_has_one_pixel_per_cell_and_alpha_within_the_limit() {
    let max_alpha: u64 = 39321;  // 0.6
    let cfg = VignetteConfig::new(
        Shape::Elliptical,
        FalloffType::Exponential,
        4 * FP,
        max_alpha,
        None,
        Some(FP / 4),
        false,
    )
    .unwrap();
    let w: u32 = 33;
    let h: u32 = 21;
    let buf = rasterize(&cfg, w, h);
    assert_eq!(buf.len(), (w * h) as usize);
    let limit = ((max_alpha * 255 + 0x8000) / 0x1_0000) as u32;
    for &px in buf.iter() {
        assert!(alpha_of(px) <= limit);
        // Color channels are pure black.
        assert_eq!(px & 0x00FF_FFFF, 0);
    }
}

#[test]
fn zero_sized_window_rasterizes_to_an_empty_buffer() {
    let cfg = VignetteConfig::default();
    assert_eq!(rasterize(&cfg, 0, 17).len(), 0);
    assert_eq!(rasterize(&cfg, 17, 0).len(), 0);
}

#[test]
fn rectangle_power_scenario_center_clear_corner_opaque() {
    // 100 x 100 window, rectangle shape, power falloff with exponent 2,
    // full peak opacity, no bias, no inversion.
    let cfg = VignetteConfig::new(
        Shape::Rectangle,
        FalloffType::Power,
        2 * FP,
        FP,
        None,
        None,
        false,
    )
    .unwrap();
    let buf = rasterize(&cfg, 100, 100);
    // The exact center: distance 0, factor 0, fully transparent.
    assert_eq!(alpha_of(buf[50 * 100 + 50]), 0);
    // The corner: distance max(50/50, 50/50) = 1, factor 1, fully opaque.
    assert_eq!(alpha_of(buf[0]), 255);
}

#[test]
fn left_bias_shifts_the_transparent_point_left_of_center() {
    let unbiased = VignetteConfig::new(
        Shape::Rectangle,
        FalloffType::Power,
        2 * FP,
        FP,
        None,
        None,
        false,
    )
    .unwrap();
    let biased = VignetteConfig::new(
        Shape::Rectangle,
        FalloffType::Power,
        2 * FP,
        FP,
        Some(13107),  // 0.2
        None,
        false,
    )
    .unwrap();
    let plain = rasterize(&unbiased, 100, 100);
    let shifted = rasterize(&biased, 100, 100);
    // Without bias the center pixel is fully transparent.
    assert_eq!(alpha_of(plain[50 * 100 + 50]), 0);
    // With the bias the old center is no longer the transparent point ...
    assert!(alpha_of(shifted[50 * 100 + 50]) > 0);
    // ... the point 10 pixels to the left is.
    assert_eq!(alpha_of(shifted[50 * 100 + 40]), 0);
    assert!(alpha_of(shifted[50 * 100 + 40]) < alpha_of(shifted[50 * 100 + 50]));
}

#[test]
fn circle_scenario_corner_fully_opaque() {
    let cfg = VignetteConfig::new(
        Shape::Circle,
        FalloffType::Power,
        2 * FP,
        FP,
        None,
        None,
        false,
    )
    .unwrap();
    let buf = rasterize(&cfg, 100, 100);
    assert_eq!(alpha_of(buf[0]), 255);
    assert_eq!(alpha_of(buf[50 * 100 + 50]), 0);
    // An edge midpoint is strictly inside the corner circle: translucent.
    let edge_mid = alpha_of(buf[50 * 100]);
    assert!(edge_mid > 0);
    assert!(edge_mid < 255);
}

#[test]
fn max_alpha_scales_the_whole_frame() {
    let full = VignetteConfig::new(
        Shape::Rectangle,
        FalloffType::Power,
        2 * FP,
        FP,
        None,
        None,
        false,
    )
    .unwrap();
    let halved = VignetteConfig::new(
        Shape::Rectangle,
        FalloffType::Power,
        2 * FP,
        FP / 2,
        None,
        None,
        false,
    )
    .unwrap();
    let a = rasterize(&full, 40, 40);
    let b = rasterize(&halved, 40, 40);
    for i in 0..a.len() {
        assert!(alpha_of(b[i]) <= alpha_of(a[i]));
    }
    // The corner reaches exactly round(0.5 * 255) = 128.
    assert_eq!(alpha_of(b[0]), 128);
}
