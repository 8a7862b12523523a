//! Rendering settings.
//!
//! A [`RenderSettings`] value is constructed outside the core (from a
//! configuration file, command-line options or an interactive wizard) and
//! passed in by value; it is immutable for the duration of a render.  The
//! colour-correction curve is a fixed-point exponent with 16 fractional
//! bits (see [`crate::color::CURVE_ONE`]).

use vstd::prelude::*;

verus! {

/// Configuration settings for a render.
#[derive(Clone, Copy, Debug)]
pub struct RenderSettings {
    /// Iteration limit for each of the red, green, and blue channels.
    pub limits: [u32; 3],
    /// Number of random samples to take, per channel, per pass.
    pub samples: u32,
    /// Worker threads to use; absent means ambient hardware parallelism.
    pub threads: Option<u32>,
    /// Number of passes to run.
    pub passes: u16,
    /// Resolution of the rendered image (size x size pixels).
    pub size: u32,
    /// Colour correction curve exponent, in units of `1 / CURVE_ONE`.
    pub curve: u32,
}

impl RenderSettings {
    /// The settings describe a render the core can carry out: the histogram
    /// fits the counter index arithmetic and the curve exponent is positive.
    pub open spec fn wf(&self) -> bool {
        &&& self.size * self.size * 3 <= u32::MAX
        &&& self.curve >= 1
    }
}

/// Default settings: the values the configuration wizard offers first.
pub fn default_render_settings() -> (r: RenderSettings)
    ensures
        r.wf(),
        r.limits == [7_740u32, 2_580u32, 860u32],
        r.samples == 1_000_000,
        r.threads is None,
        r.passes == 100,
        r.size == 2048,
        r.curve == 0x8000,
{
    RenderSettings {
        limits: [7_740, 2_580, 860],
        samples: 1_000_000,
        threads: None,
        passes: 100,
        size: 2048,
        curve: 0x8000,
    }
}

/// Combine a palette (a channel ordering), a saturation triple and a
/// definition factor into per-channel iteration limits, as the
/// configuration wizard does: channel `i` gets `intensity[palette[i]]`
/// scaled by the definition factor.
pub fn combine_limits(intensity: [u32; 3], palette: [usize; 3], definition: u32) -> (r: [u32; 3])
    requires
        forall|i: int| 0 <= i < 3 ==> palette[i] < 3,
        forall|i: int| 0 <= i < 3 ==> intensity[palette[i] as int] * definition <= u32::MAX,
    ensures
        forall|i: int| 0 <= i < 3 ==> r[i] == intensity[palette[i] as int] * definition,
{
    let r: [u32; 3] = [
        intensity[palette[0]] * definition,
        intensity[palette[1]] * definition,
        intensity[palette[2]] * definition,
    ];
    r
}

} // verus!
