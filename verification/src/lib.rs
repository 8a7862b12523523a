//! Nebulabrot rendering core.
//!
//! A Nebulabrot is a statistical picture of the Mandelbrot set: instead of
//! plotting membership, the renderer accumulates the trajectories of escaping
//! points into a three-channel histogram and maps the counts to pixel
//! intensities through a gamma curve.
//!
//! All plane coordinates, radii and sample positions are exact fixed-point
//! values (see [`fixed`]), so every arithmetic step of the pipeline has a
//! precise contract: sampling, escape-time tracing, histogram accumulation,
//! coordinate projection and intensity mapping are all verified.
//! Randomness comes from `rand` behind small trusted wrappers; file output,
//! progress reporting and configuration I/O live outside this crate.

use vstd::prelude::*;

pub mod color;
pub mod fixed;
pub mod jitter_sampler;
pub mod mandelbrot;
pub mod raw_image;
pub mod render;
pub mod render_settings;

verus! {

/// Number of colour channels in every histogram and pixel buffer.
pub const CHANNELS: u32 = 3;

} // verus!
