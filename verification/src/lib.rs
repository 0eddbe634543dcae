//! Per-monitor privacy vignette overlay, verified core.
//!
//! The crate renders a darkening vignette across every connected display.
//! All opacity math is carried out in fixed-point arithmetic (units of
//! 1/65536), so that the factor of every pixel is pinned down exactly by the
//! contracts here.  The unverifiable window-system work (display enumeration,
//! window creation, compositing) lives outside this library; the library
//! decides what those steps must do.

pub mod config;
pub mod expf;
pub mod fixed;
pub mod powf;
pub mod overlay;
pub mod raster;
pub mod smoother;
pub mod sqrt;
pub mod vignette;
