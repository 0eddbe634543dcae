use privscrn::config::{FalloffType, Shape, VignetteConfig};
use privscrn::vignette::{factor_from_distance, falloff, shape_distance, vignette_factor};

const FP: u64 = 65536;

fn cfg_with(shape: Shape, falloff_type: FalloffType) -> VignetteConfig {
    VignetteConfig::new(shape, falloff_type, 2 * FP, FP, None, None, false).unwrap()
}

#[test]
fn center_factor_is_zero_for_every_shape_and_falloff() {
    let shapes = [Shape::Circle, Shape::Rectangle, Shape::Diamond, Shape::Elliptical];
    let falloffs = [
        FalloffType::Power,
        FalloffType::Exponential,
        FalloffType::Gaussian,
        FalloffType::Smootherstep,
    ];
    for &s in shapes.iter() {
        for &f in falloffs.iter() {
            let cfg = cfg_with(s, f);
            let factor = vignette_factor(&cfg, 0, 0, 50 * FP, 50 * FP);
            assert_eq!(factor, 0);
        }
    }
}

#[test]
fn factor_never_exceeds_full_opacity() {
    let shapes = [Shape::Circle, Shape::Rectangle, Shape::Diamond, Shape::Elliptical];
    let falloffs = [
        FalloffType::Power,
        FalloffType::Exponential,
        FalloffType::Gaussian,
        FalloffType::Smootherstep,
    ];
    let cx = 50 * FP;
    let cy = 30 * FP;
    for &s in shapes.iter() {
        for &f in falloffs.iter() {
            let cfg = cfg_with(s, f);
            let mut dy: i64 = -(cy as i64);
            while dy <= cy as i64 {
                let mut dx: i64 = -(cx as i64);
                while dx <= cx as i64 {
                    let factor = vignette_factor(&cfg, dx, dy, cx, cy);
                    assert!(factor <= FP);
                    dx += 10 * FP as i64;
                }
                dy += 10 * FP as i64;
            }
        }
    }
}

#[test]
fn smootherstep_falloff_is_monotone_in_distance() {
    let cfg = cfg_with(Shape::Rectangle, FalloffType::Smootherstep);
    let mut prev: u64 = 0;
    let mut d: u64 = 0;
    while d <= FP {
        let v = falloff(&cfg, d);
        assert!(v >= prev);
        prev = v;
        d += 111;
    }
    let at_one = falloff(&cfg, FP);
    assert_eq!(at_one, FP);
}

#[test]
fn inverted_factor_equals_normal_factor_on_mirrored_distance() {
    let shapes = [Shape::Circle, Shape::Rectangle, Shape::Diamond, Shape::Elliptical];
    let falloffs = [
        FalloffType::Power,
        FalloffType::Exponential,
        FalloffType::Gaussian,
        FalloffType::Smootherstep,
    ];
    for &s in shapes.iter() {
        for &f in falloffs.iter() {
            let normal = VignetteConfig::new(s, f, 3 * FP, FP, None, None, false).unwrap();
            let inverted = VignetteConfig::new(s, f, 3 * FP, FP, None, None, true).unwrap();
            let mut d: u64 = 0;
            while d <= FP {
                assert_eq!(
                    factor_from_distance(&inverted, d),
                    factor_from_distance(&normal, FP - d)
                );
                d += 4096;
            }
        }
    }
}

#[test]
fn inverted_vignette_is_opaque_at_center() {
    let cfg = VignetteConfig::new(
        Shape::Rectangle,
        FalloffType::Power,
        FP,
        FP,
        None,
        None,
        true,
    )
    .unwrap();
    assert_eq!(vignette_factor(&cfg, 0, 0, 50 * FP, 50 * FP), FP);
}

#[test]
fn rectangle_distance_reaches_one_at_the_edge() {
    let cfg = cfg_with(Shape::Rectangle, FalloffType::Power);
    let cx = 50 * FP;
    let cy = 50 * FP;
    assert_eq!(shape_distance(&cfg, -(cx as i64), 0, cx, cy), FP);
    assert_eq!(shape_distance(&cfg, 0, cy as i64, cx, cy), FP);
    assert_eq!(shape_distance(&cfg, 0, 0, cx, cy), 0);
    // Half-way along one axis.
    assert_eq!(shape_distance(&cfg, 25 * FP as i64, 0, cx, cy), FP / 2);
}

#[test]
fn diamond_distance_averages_the_axes() {
    let cfg = cfg_with(Shape::Diamond, FalloffType::Power);
    let cx = 50 * FP;
    let cy = 50 * FP;
    // Full offset on one axis only: (1 + 0) / 2.
    assert_eq!(shape_distance(&cfg, cx as i64, 0, cx, cy), FP / 2);
    // Full offset on both axes: (1 + 1) / 2.
    assert_eq!(shape_distance(&cfg, cx as i64, cy as i64, cx, cy), FP);
}

#[test]
fn circle_distance_reaches_one_at_the_corner() {
    let cfg = cfg_with(Shape::Circle, FalloffType::Power);
    let cx = 50 * FP;
    let cy = 50 * FP;
    assert_eq!(shape_distance(&cfg, cx as i64, -(cy as i64), cx, cy), FP);
}

#[test]
fn distance_beyond_one_is_clamped() {
    let cfg = cfg_with(Shape::Rectangle, FalloffType::Power);
    let cx = 50 * FP;
    let cy = 50 * FP;
    assert_eq!(shape_distance(&cfg, 2 * cx as i64, 0, cx, cy), FP);
}

#[test]
fn exponential_and_gaussian_falloffs_are_zero_at_center_and_bounded() {
    for &f in [FalloffType::Exponential, FalloffType::Gaussian].iter() {
        let cfg = cfg_with(Shape::Rectangle, f);
        assert_eq!(falloff(&cfg, 0), 0);
        let full = falloff(&cfg, FP);
        assert!(full <= FP);
        assert!(full > 0);
    }
}

#[test]
fn power_falloff_squares_the_distance() {
    let cfg = cfg_with(Shape::Rectangle, FalloffType::Power);
    // 0.5 ^ 2 == 0.25 exactly in fixed point.
    assert_eq!(falloff(&cfg, FP / 2), FP / 4);
    assert_eq!(falloff(&cfg, FP), FP);
    assert_eq!(falloff(&cfg, 0), 0);
}

#[test]
fn config_rejects_out_of_range_inputs() {
    assert!(
        VignetteConfig::new(Shape::Circle, FalloffType::Power, 0, FP, None, None, false).is_none()
    );
    assert!(
        VignetteConfig::new(Shape::Circle, FalloffType::Power, 17 * FP, FP, None, None, false)
            .is_none()
    );
    assert!(
        VignetteConfig::new(Shape::Circle, FalloffType::Power, FP, FP + 1, None, None, false)
            .is_none()
    );
    assert!(
        VignetteConfig::new(Shape::Circle, FalloffType::Power, FP, FP, Some(0), None, false)
            .is_none()
    );
    assert!(
        VignetteConfig::new(Shape::Circle, FalloffType::Power, FP, FP, None, Some(17 * FP), false)
            .is_none()
    );
    let ok = VignetteConfig::new(
        Shape::Diamond,
        FalloffType::Gaussian,
        4 * FP,
        FP / 2,
        Some(FP / 5),
        None,
        false,
    );
    let cfg = ok.unwrap();
    assert_eq!(cfg.falloff_power, 4 * FP);
    assert_eq!(cfg.max_alpha, FP / 2);
    assert_eq!(cfg.left_bias, Some(FP / 5));
    assert_eq!(cfg.right_bias, None);
    assert!(!cfg.invert);
}

#[test]
fn default_config_matches_the_historical_defaults() {
    let cfg = VignetteConfig::default();
    assert_eq!(cfg.shape, Shape::Circle);
    assert_eq!(cfg.falloff_type, FalloffType::Power);
    assert_eq!(cfg.falloff_power, 4 * FP);
    assert_eq!(cfg.max_alpha, 39321);
    assert_eq!(cfg.left_bias, None);
    assert_eq!(cfg.right_bias, None);
    assert!(!cfg.invert);
}
