//! The overlay configuration: shape, falloff, bias and inversion, with the
//! numeric ranges the fixed-point pipeline admits.

use vstd::prelude::*;
use crate::fixed::{FP, POWER_LIMIT};

verus! {

/// How a pixel's offset from the window center is turned into a distance.
#[derive(Clone, Copy, Debug, PartialEq, Eq, Structural)]
pub enum Shape {
    Circle,
    Rectangle,
    Diamond,
    Elliptical,
}

/// How the normalized distance is turned into an opacity factor.
#[derive(Clone, Copy, Debug, PartialEq, Eq, Structural)]
pub enum FalloffType {
    Power,
    Exponential,
    Gaussian,
    Smootherstep,
}

/// The immutable vignette configuration, shared read-only by every
/// per-monitor rasterization pass.  All reals are fixed point at scale `FP`.
///
/// When both biases are present, `left_bias` takes precedence; this mirrors
/// the historical behaviour and is deliberate.
#[derive(Clone, Copy, Debug)]
pub struct VignetteConfig {
    pub shape: Shape,
    pub falloff_type: FalloffType,
    /// Falloff steepness, in (0, 16]; a zero power is rejected at
    /// construction so the exponential falloff's normalization never divides
    /// by zero.
    pub falloff_power: u64,
    /// Peak opacity, in [0, 1].
    pub max_alpha: u64,
    /// Shifts the effective center right, darkening the left side sooner.
    pub left_bias: Option<u64>,
    /// Shifts the effective center left; ignored when `left_bias` is set.
    pub right_bias: Option<u64>,
    /// Darken the center instead of the edges.
    pub invert: bool,
}

/// An optional bias must be positive and at most 16.
pub open spec fn bias_ok(b: Option<u64>) -> bool {
    b matches Some(v) ==> 1 <= v && v <= POWER_LIMIT
}

impl VignetteConfig {
    /// The numeric ranges every constructed configuration satisfies.
    pub open spec fn wf(self) -> bool {
        &&& 1 <= self.falloff_power <= POWER_LIMIT
        &&& self.max_alpha <= FP
        &&& bias_ok(self.left_bias)
        &&& bias_ok(self.right_bias)
    }

    /// Validating constructor: accepts exactly the inputs within range and
    /// returns them unchanged.
    pub fn new(
        shape: Shape,
        falloff_type: FalloffType,
        falloff_power: u64,
        max_alpha: u64,
        left_bias: Option<u64>,
        right_bias: Option<u64>,
        invert: bool,
    ) -> (r: Option<VignetteConfig>)
        ensures
            r matches Some(c) <==> (1 <= falloff_power <= POWER_LIMIT && max_alpha <= FP && bias_ok(
                left_bias,
            ) && bias_ok(right_bias)),
            r matches Some(c) ==> c == (VignetteConfig {
                shape,
                falloff_type,
                falloff_power,
                max_alpha,
                left_bias,
                right_bias,
                invert,
            }) && c.wf(),
    {
        if falloff_power < 1 || falloff_power > POWER_LIMIT {
            return None;
        }
        if max_alpha > FP {
            return None;
        }
        if let Some(b) = left_bias {
            if b < 1 || b > POWER_LIMIT {
                return None;
            }
        }
        if let Some(b) = right_bias {
            if b < 1 || b > POWER_LIMIT {
                return None;
            }
        }
        Some(
            VignetteConfig {
                shape,
                falloff_type,
                falloff_power,
                max_alpha,
                left_bias,
                right_bias,
                invert,
            },
        )
    }
}

impl Default for VignetteConfig {
    /// A circular power-falloff vignette of steepness 4 at sixty percent
    /// peak opacity.
    fn default() -> (c: Self)
        ensures
            c == (VignetteConfig {
                shape: Shape::Circle,
                falloff_type: FalloffType::Power,
                falloff_power: 262144,  // 4.0
                max_alpha: 39321,
                left_bias: None,
                right_bias: None,
                invert: false,
            }),
            c.wf(),
    {
        VignetteConfig {
            shape: Shape::Circle,
            falloff_type: FalloffType::Power,
            falloff_power: 262144,  // 4.0
            max_alpha: 39321,
            left_bias: None,
            right_bias: None,
            invert: false,
        }
    }
}

} // verus!
