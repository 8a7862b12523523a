//! Render orchestration: passes, workers, projection.
//!
//! A render runs `passes` rounds; each round a worker per colour channel
//! samples the unit square, rescales each sample onto the parameter region
//! `[-2.5, 2.5]^2`, traces the escape-time path, and — only if the point
//! escaped — projects every recorded trajectory point from the viewport
//! `[-2, 2]^2` onto pixel indices and bumps the histogram.  What a worker
//! adds for a given trajectory is pinned exactly by [`accum_traj_spec`];
//! which samples it draws is random, so a worker promises that the final
//! histogram is that whole pipeline folded over *some* draw of exactly
//! `samples` unit-square points ([`worker_relates`]), and passes and whole
//! renders compose that relation channel by channel and pass by pass.
//!
//! [`RenderState`] exposes the pass cycle one step at a time, so a caller
//! can join workers, take an intermediate snapshot after a pass boundary,
//! or merge partial histograms accumulated elsewhere.

use vstd::prelude::*;
use crate::fixed::{fmul_spec, SCALE};
use crate::jitter_sampler::{JitterSampler, SamplePoint, UnitValue};
use crate::mandelbrot::{complex_view, escapes, iterate, trace_spec, trajectory_view, Complex};
use crate::raw_image::{bump_cell, bump_max, grid_index, RawImage};
use crate::render_settings::RenderSettings;

verus! {

/// Magnitude of an integer.
pub open spec fn iabs(a: int) -> int {
    if a >= 0 {
        a
    } else {
        -a
    }
}

/// Where a plane value lands on a row of `size` pixels spanning
/// `[lo, hi]`: the pixel holding `floor(size * (point - lo) / (hi - lo))`,
/// or nothing when the bounds are degenerate, the value lies before `lo`,
/// or the pixel would fall past the end of the row.
pub open spec fn project_spec(point: int, lo: int, hi: int, size: int) -> Option<u32> {
    let den = hi - lo;
    let num = point - lo;
    if den == 0 {
        None
    } else if num != 0 && ((num < 0) != (den < 0)) {
        None
    } else {
        let pix = (iabs(num) * size) / iabs(den);
        if pix < size {
            Some(pix as u32)
        } else {
            None
        }
    }
}

/// Project a plane value onto a pixel index: computes `project_spec`
/// exactly.  Degenerate bounds (`lo == hi`) never yield a pixel.
pub fn value_to_index(point: i64, lo: i64, hi: i64, size: u32) -> (r: Option<u32>)
    ensures
        r == project_spec(point as int, lo as int, hi as int, size as int),
{
    let den: i128 = hi as i128 - lo as i128;
    if den == 0 {
        return None;
    }
    let num: i128 = point as i128 - lo as i128;
    if num != 0 && ((num < 0) != (den < 0)) {
        return None;
    }
    let unum: u128 = (if num < 0 { -num } else { num }) as u128;
    let uden: u128 = (if den < 0 { -den } else { den }) as u128;
    proof {
        assert((unum as int) * (size as int) <= 0x2_0000_0000_0000_0000 * 0x1_0000_0000)
            by (nonlinear_arith)
            requires 0 <= unum <= 0x2_0000_0000_0000_0000 && 0 <= size <= 0xFFFF_FFFFu32;
    }
    let pix: u128 = (unum * (size as u128)) / uden;
    if pix < size as u128 {
        Some(pix as u32)
    } else {
        None
    }
}

/// A unit-interval coordinate rescaled onto `[-2.5, 2.5]`: the linear map
/// `v * 5 - 2.5` in fixed-point steps, rounded down.
pub open spec fn unit_to_plane_spec(num: int, den: int) -> int {
    (5 * num * 1_000_000) / den - 2_500_000
}

/// Rescale a unit-square coordinate onto the parameter region: computes
/// `unit_to_plane_spec` exactly.
pub fn unit_to_plane(u: UnitValue) -> (r: i64)
    requires
        u.wf(),
    ensures
        r == unit_to_plane_spec(u.num as int, u.den as int),
        -2_500_000 <= r < 2_500_000,
{
    proof {
        assert(5 * (u.num as int) * (SCALE as int) <= 0x5_0000_0000_0000_0000 * 1_000_000
            && 5 * (u.num as int) * (SCALE as int) == (5 * (u.num as int)) * (SCALE as int))
            by (nonlinear_arith)
            requires 0 <= u.num <= 0xFFFF_FFFF_FFFF_FFFFu64 && SCALE == 1_000_000;
        assert(5 * (u.num as int) * (SCALE as int) < (u.den as int) * (5 * (SCALE as int)))
            by (nonlinear_arith)
            requires 0 <= u.num < u.den && SCALE == 1_000_000;
        vstd::arithmetic::div_mod::lemma_multiply_divide_lt(
            5 * (u.num as int) * (SCALE as int),
            u.den as int,
            5 * (SCALE as int),
        );
    }
    let wide: u128 = (5u128 * (u.num as u128)) * (SCALE as u128);
    let q: u128 = wide / (u.den as u128);
    (q as i64) - 2_500_000
}

/// One recorded trajectory point folded into the histogram model: if both
/// coordinates project into the viewport, the matching cell of the channel
/// is bumped; otherwise the point is discarded.
pub open spec fn accum_point_spec(
    d: Seq<u32>,
    m: u32,
    z: (int, int),
    w: int,
    h: int,
    channel: int,
) -> (Seq<u32>, u32) {
    let px = project_spec(z.0, -2_000_000, 2_000_000, w);
    let py = project_spec(z.1, -2_000_000, 2_000_000, h);
    match (px, py) {
        (Some(x), Some(y)) => {
            let i = grid_index(x as int, y as int, h, channel);
            (bump_cell(d, i), bump_max(m, d, i))
        },
        _ => (d, m),
    }
}

/// A whole trajectory folded into the histogram model, first point first.
pub open spec fn accum_traj_spec(
    d: Seq<u32>,
    m: u32,
    zs: Seq<(int, int)>,
    w: int,
    h: int,
    channel: int,
) -> (Seq<u32>, u32)
    decreases zs.len(),
{
    if zs.len() == 0 {
        (d, m)
    } else {
        let s = accum_point_spec(d, m, zs[0], w, h, channel);
        accum_traj_spec(s.0, s.1, zs.drop_first(), w, h, channel)
    }
}

/// The running maximum never falls while a trajectory accumulates.
pub proof fn lemma_accum_traj_max_grows(
    d: Seq<u32>,
    m: u32,
    zs: Seq<(int, int)>,
    w: int,
    h: int,
    channel: int,
)
    ensures
        accum_traj_spec(d, m, zs, w, h, channel).1 >= m,
    decreases zs.len(),
{
    if zs.len() > 0 {
        let s = accum_point_spec(d, m, zs[0], w, h, channel);
        lemma_accum_traj_max_grows(s.0, s.1, zs.drop_first(), w, h, channel);
    }
}

/// Project every point of a trajectory from the viewport `[-2, 2]^2` onto
/// the image and bump each retained point's cell: applies `accum_traj_spec`
/// exactly.
pub fn accumulate_trajectory(img: &mut RawImage, zs: &Vec<Complex>, channel: u32)
    requires
        old(img).wf(),
        channel < 3,
    ensures
        final(img).wf(),
        final(img).width == old(img).width,
        final(img).height == old(img).height,
        (final(img).data@, final(img).maximum) == accum_traj_spec(
            old(img).data@,
            old(img).maximum,
            trajectory_view(zs@),
            old(img).width as int,
            old(img).height as int,
            channel as int,
        ),
        final(img).maximum >= old(img).maximum,
{
    let ghost tv = trajectory_view(zs@);
    let ghost full = accum_traj_spec(
        old(img).data@,
        old(img).maximum,
        tv,
        old(img).width as int,
        old(img).height as int,
        channel as int,
    );
    proof {
        assert(tv.skip(0) =~= tv);
    }
    let mut i: usize = 0;
    while i < zs.len()
        invariant
            img.wf(),
            img.width == old(img).width,
            img.height == old(img).height,
            channel < 3,
            i <= zs@.len(),
            tv == trajectory_view(zs@),
            tv.len() == zs@.len(),
            accum_traj_spec(
                img.data@,
                img.maximum,
                tv.skip(i as int),
                img.width as int,
                img.height as int,
                channel as int,
            ) == full,
        decreases zs@.len() - i,
    {
        let z = zs[i];
        proof {
            assert(tv.skip(i as int).drop_first() =~= tv.skip(i as int + 1));
            assert(tv.skip(i as int)[0] == tv[i as int]);
            assert(tv[i as int] == complex_view(zs@[i as int]));
        }
        let x = value_to_index(z.re, -2_000_000, 2_000_000, img.width);
        let y = value_to_index(z.im, -2_000_000, 2_000_000, img.height);
        match (x, y) {
            (Some(xi), Some(yi)) => {
                img.bump(xi, yi, channel);
            },
            _ => {},
        }
        i = i + 1;
    }
    proof {
        assert(tv.skip(zs@.len() as int) =~= Seq::<(int, int)>::empty());
        lemma_accum_traj_max_grows(
            old(img).data@,
            old(img).maximum,
            tv,
            old(img).width as int,
            old(img).height as int,
            channel as int,
        );
    }
}

/// The plane parameter a drawn sample stands for: each unit coordinate
/// rescaled by `v * 5 - 2.5` onto the parameter region.
pub open spec fn sample_parameter(p: SamplePoint) -> (int, int) {
    (
        unit_to_plane_spec(p.x.num as int, p.x.den as int),
        unit_to_plane_spec(p.y.num as int, p.y.den as int),
    )
}

/// One drawn sample's whole pipeline folded into the histogram model: trace
/// its parameter from the zero iterate with the channel's iteration limit,
/// the standard escape radius 2 and stop radius 3; if the point escaped,
/// accumulate the recorded trajectory, otherwise discard it.
pub open spec fn sample_fold(
    d: Seq<u32>,
    m: u32,
    p: SamplePoint,
    limit: nat,
    w: int,
    h: int,
    channel: int,
) -> (Seq<u32>, u32) {
    let c = sample_parameter(p);
    let esc2 = fmul_spec(2_000_000, 2_000_000);
    let stop2 = fmul_spec(3_000_000, 3_000_000);
    if escapes((0, 0), c, limit, esc2, stop2) {
        accum_traj_spec(d, m, trace_spec((0, 0), c, limit, stop2), w, h, channel)
    } else {
        (d, m)
    }
}

/// A worker's whole draw folded into the histogram model, first sample
/// first.
pub open spec fn worker_fold(
    d: Seq<u32>,
    m: u32,
    ps: Seq<SamplePoint>,
    limit: nat,
    w: int,
    h: int,
    channel: int,
) -> (Seq<u32>, u32)
    decreases ps.len(),
{
    if ps.len() == 0 {
        (d, m)
    } else {
        let s = sample_fold(d, m, ps[0], limit, w, h, channel);
        worker_fold(s.0, s.1, ps.drop_first(), limit, w, h, channel)
    }
}

/// A draw of exactly `n` samples, every one inside the unit square.
pub open spec fn draw_wf(ps: Seq<SamplePoint>, n: u32) -> bool {
    &&& ps.len() == n
    &&& forall|i: int| 0 <= i < ps.len() ==> (#[trigger] ps[i]).wf()
}

/// Appending one drawn sample to a draw folds it in last.
pub proof fn lemma_worker_fold_snoc(
    d: Seq<u32>,
    m: u32,
    ps: Seq<SamplePoint>,
    p: SamplePoint,
    limit: nat,
    w: int,
    h: int,
    channel: int,
)
    ensures
        worker_fold(d, m, ps.push(p), limit, w, h, channel) == ({
            let s = worker_fold(d, m, ps, limit, w, h, channel);
            sample_fold(s.0, s.1, p, limit, w, h, channel)
        }),
    decreases ps.len(),
{
    reveal_with_fuel(worker_fold, 3);
    if ps.len() == 0 {
        assert(ps.push(p)[0] == p);
        assert(ps.push(p).drop_first() =~= Seq::<SamplePoint>::empty());
        assert(ps =~= Seq::<SamplePoint>::empty());
    } else {
        assert(ps.push(p)[0] == ps[0]);
        assert(ps.push(p).drop_first() =~= ps.drop_first().push(p));
        let s = sample_fold(d, m, ps[0], limit, w, h, channel);
        lemma_worker_fold_snoc(s.0, s.1, ps.drop_first(), p, limit, w, h, channel);
    }
}

/// What one worker did to the histogram: for some draw of exactly `samples`
/// unit-square points, the new counters and maximum are the whole verified
/// pipeline — rescale, trace, project, bump — folded over that draw.
pub open spec fn worker_relates(
    d0: Seq<u32>,
    m0: u32,
    d1: Seq<u32>,
    m1: u32,
    limit: u32,
    samples: u32,
    w: int,
    h: int,
    channel: int,
) -> bool {
    exists|ps: Seq<SamplePoint>|
        #![trigger worker_fold(d0, m0, ps, limit as nat, w, h, channel)]
        draw_wf(ps, samples) && (d1, m1) == worker_fold(d0, m0, ps, limit as nat, w, h, channel)
}

/// One worker's whole task: draw `samples` jittered points, rescale each
/// onto the parameter region, trace it with this channel's iteration limit
/// and the standard escape radius 2 and stop radius 3, and accumulate the
/// trajectories of the points that escaped.  Which points are drawn is
/// random; the promise is that the new histogram is the pipeline folded
/// over the draw that actually happened.
pub fn run_worker(img: &mut RawImage, channel: u32, limit: u32, samples: u32)
    requires
        old(img).wf(),
        channel < 3,
    ensures
        final(img).wf(),
        final(img).width == old(img).width,
        final(img).height == old(img).height,
        final(img).maximum >= old(img).maximum,
        worker_relates(
            old(img).data@,
            old(img).maximum,
            final(img).data@,
            final(img).maximum,
            limit,
            samples,
            old(img).width as int,
            old(img).height as int,
            channel as int,
        ),
{
    let ghost mut draw: Seq<SamplePoint> = Seq::empty();
    let mut sampler = JitterSampler::new(samples);
    loop
        invariant
            sampler.wf(),
            sampler.samples == samples,
            img.wf(),
            img.width == old(img).width,
            img.height == old(img).height,
            img.maximum >= old(img).maximum,
            channel < 3,
            draw.len() == sampler.count,
            forall|i: int| 0 <= i < draw.len() ==> (#[trigger] draw[i]).wf(),
            (img.data@, img.maximum) == worker_fold(
                old(img).data@,
                old(img).maximum,
                draw,
                limit as nat,
                old(img).width as int,
                old(img).height as int,
                channel as int,
            ),
        ensures
            img.wf(),
            img.width == old(img).width,
            img.height == old(img).height,
            img.maximum >= old(img).maximum,
            draw_wf(draw, samples),
            (img.data@, img.maximum) == worker_fold(
                old(img).data@,
                old(img).maximum,
                draw,
                limit as nat,
                old(img).width as int,
                old(img).height as int,
                channel as int,
            ),
        decreases sampler.samples - sampler.count,
    {
        let next = sampler.next();
        match next {
            None => {
                break;
            },
            Some(p) => {
                let ghost dcur = img.data@;
                let ghost mcur = img.maximum;
                let c = Complex { re: unit_to_plane(p.x), im: unit_to_plane(p.y) };
                let z0 = Complex { re: 0, im: 0 };
                let traced = iterate(z0, c, limit, 2 * SCALE, 3 * SCALE);
                if traced.1 {
                    accumulate_trajectory(img, &traced.0, channel);
                }
                proof {
                    lemma_worker_fold_snoc(
                        old(img).data@,
                        old(img).maximum,
                        draw,
                        p,
                        limit as nat,
                        old(img).width as int,
                        old(img).height as int,
                        channel as int,
                    );
                    assert(complex_view(c) == sample_parameter(p));
                    assert(complex_view(z0) == (0int, 0int));
                    assert(fmul_spec((2 * SCALE) as int, (2 * SCALE) as int) == fmul_spec(
                        2_000_000,
                        2_000_000,
                    ));
                    assert(fmul_spec((3 * SCALE) as int, (3 * SCALE) as int) == fmul_spec(
                        3_000_000,
                        3_000_000,
                    ));
                    assert((img.data@, img.maximum) == sample_fold(
                        dcur,
                        mcur,
                        p,
                        limit as nat,
                        old(img).width as int,
                        old(img).height as int,
                        channel as int,
                    ));
                    draw = draw.push(p);
                }
            },
        }
    }
    proof {
        assert(worker_relates(
            old(img).data@,
            old(img).maximum,
            img.data@,
            img.maximum,
            limit,
            samples,
            old(img).width as int,
            old(img).height as int,
            channel as int,
        ));
    }
}

/// A zeroed counter grid for a square image of the given side.
pub open spec fn zero_grid(size: int) -> Seq<u32> {
    Seq::new((size * size * 3) as nat, |i: int| 0u32)
}

/// What one pass did to the histogram: the three channel workers in turn,
/// each a fold over a draw of exactly `samples` points with its own
/// channel's iteration limit, over a square grid of the configured size.
pub open spec fn pass_relates(d0: Seq<u32>, m0: u32, d1: Seq<u32>, m1: u32, s: RenderSettings) -> bool {
    exists|da: Seq<u32>, ma: u32, db: Seq<u32>, mb: u32|
        worker_relates(d0, m0, da, ma, s.limits[0], s.samples, s.size as int, s.size as int, 0)
            && #[trigger] worker_relates(
            da,
            ma,
            db,
            mb,
            s.limits[1],
            s.samples,
            s.size as int,
            s.size as int,
            1,
        ) && worker_relates(db, mb, d1, m1, s.limits[2], s.samples, s.size as int, s.size as int, 2)
}

/// A chain of histogram checkpoints, one per pass boundary: every adjacent
/// pair is related by [`pass_relates`], so entry `k + 1` is what one full
/// pass makes of entry `k`.
pub open spec fn passes_chain(states: Seq<(Seq<u32>, u32)>, s: RenderSettings) -> bool {
    forall|k: int|
        0 <= k < states.len() - 1 ==> pass_relates(
            (#[trigger] states[k]).0,
            states[k].1,
            states[k + 1].0,
            states[k + 1].1,
            s,
        )
}

/// Build one worker's private partial histogram: a fresh image of the given
/// size accumulated by a single worker task, so its counters and maximum
/// are the pipeline folded over that worker's draw alone.  Partial
/// histograms are merged into the shared one at a pass boundary with
/// [`RawImage::merge`].
pub fn worker_image(size: u32, channel: u32, limit: u32, samples: u32) -> (r: RawImage)
    requires
        size * size * 3 <= u32::MAX,
        channel < 3,
    ensures
        r.wf(),
        r.width == size,
        r.height == size,
        worker_relates(
            zero_grid(size as int),
            0,
            r.data@,
            r.maximum,
            limit,
            samples,
            size as int,
            size as int,
            channel as int,
        ),
{
    let mut img = RawImage::new(size, size);
    proof {
        assert(img.data@ =~= zero_grid(size as int));
    }
    run_worker(&mut img, channel, limit, samples);
    img
}

/// The cycle of a render: a fixed number of passes over one shared
/// histogram, each pass accumulating every channel, with a well-defined
/// boundary after each pass at which a snapshot may be taken or partial
/// histograms merged.
pub struct RenderState {
    pub image: RawImage,
    pub settings: RenderSettings,
    pub passes_done: u16,
}

impl RenderState {
    /// The state is intact: the histogram is well formed, square at the
    /// configured resolution, and the pass counter has not passed the
    /// configured number of passes.
    pub open spec fn wf(&self) -> bool {
        &&& self.image.wf()
        &&& self.settings.wf()
        &&& self.image.width == self.settings.size
        &&& self.image.height == self.settings.size
        &&& self.passes_done <= self.settings.passes
    }

    /// Start a render: a zeroed histogram and no passes done.
    pub fn new(settings: RenderSettings) -> (r: RenderState)
        requires
            settings.wf(),
        ensures
            r.wf(),
            r.settings == settings,
            r.passes_done == 0,
            r.image.maximum == 0,
            forall|j: int| 0 <= j < r.image.data@.len() ==> r.image.data@[j] == 0,
    {
        proof {
            assert(settings.size * settings.size * 3 <= u32::MAX);
        }
        RenderState {
            image: RawImage::new(settings.size, settings.size),
            settings,
            passes_done: 0,
        }
    }

    /// Whether every configured pass has run.
    pub fn is_finished(&self) -> (r: bool)
        ensures
            r == (self.passes_done == self.settings.passes),
    {
        self.passes_done == self.settings.passes
    }

    /// Run one full pass: one worker per colour channel, each with its
    /// channel's iteration limit, all joined before the pass counter
    /// advances.  The new histogram relates to the old one by the three
    /// workers' folds in channel order.
    pub fn run_pass(&mut self)
        requires
            old(self).wf(),
            old(self).passes_done < old(self).settings.passes,
        ensures
            final(self).wf(),
            final(self).settings == old(self).settings,
            final(self).passes_done == old(self).passes_done + 1,
            final(self).image.maximum >= old(self).image.maximum,
            pass_relates(
                old(self).image.data@,
                old(self).image.maximum,
                final(self).image.data@,
                final(self).image.maximum,
                old(self).settings,
            ),
    {
        let samples = self.settings.samples;
        let limit0 = self.settings.limits[0];
        run_worker(&mut self.image, 0, limit0, samples);
        let ghost da = self.image.data@;
        let ghost ma = self.image.maximum;
        let limit1 = self.settings.limits[1];
        run_worker(&mut self.image, 1, limit1, samples);
        let ghost db = self.image.data@;
        let ghost mb = self.image.maximum;
        let limit2 = self.settings.limits[2];
        run_worker(&mut self.image, 2, limit2, samples);
        self.passes_done = self.passes_done + 1;
        proof {
            let s = old(self).settings;
            assert(worker_relates(
                old(self).image.data@,
                old(self).image.maximum,
                da,
                ma,
                s.limits[0],
                s.samples,
                s.size as int,
                s.size as int,
                0,
            ));
            assert(worker_relates(
                da,
                ma,
                db,
                mb,
                s.limits[1],
                s.samples,
                s.size as int,
                s.size as int,
                1,
            ));
            assert(worker_relates(
                db,
                mb,
                self.image.data@,
                self.image.maximum,
                s.limits[2],
                s.samples,
                s.size as int,
                s.size as int,
                2,
            ));
        }
    }

    /// Record a pass boundary when the pass's workers accumulated privately
    /// and their joined partial histograms have been merged: only the pass
    /// counter advances.
    pub fn finish_pass(&mut self)
        requires
            old(self).wf(),
            old(self).passes_done < old(self).settings.passes,
        ensures
            final(self).wf(),
            final(self).settings == old(self).settings,
            final(self).image == old(self).image,
            final(self).passes_done == old(self).passes_done + 1,
    {
        self.passes_done = self.passes_done + 1;
    }

    /// Merge a worker's partial histogram of the same resolution into the
    /// shared one; used at a pass boundary when workers accumulate
    /// privately.  The maximum comes out as the exact maximum over the
    /// merged cells, and never falls while no counter saturates or wraps.
    pub fn merge_partial(&mut self, part: &RawImage)
        requires
            old(self).wf(),
            part.wf(),
            part.width == old(self).settings.size,
            part.height == old(self).settings.size,
        ensures
            final(self).wf(),
            final(self).settings == old(self).settings,
            final(self).passes_done == old(self).passes_done,
            forall|j: int| 0 <= j < old(self).image.data@.len() ==> final(self).image.data@[j]
                == crate::raw_image::wrap_sum(old(self).image.data@[j], part.data@[j]),
            final(self).image.maximum == crate::raw_image::run_max(0, final(self).image.data@),
            (old(self).image.maximum != u32::MAX && (forall|j: int|
                0 <= j < old(self).image.data@.len() ==> old(self).image.data@[j]
                    + part.data@[j] <= u32::MAX)) ==> final(self).image.maximum >= old(
                self,
            ).image.maximum,
    {
        self.image.merge(part);
    }

    /// Copy out the histogram counters and the running maximum, for an
    /// intermediate preview or the final output.  Of a well-formed state the
    /// maximum is at least every counter, and zero, attained by one, or the
    /// saturated footprint of a wrapped counter.
    pub fn snapshot(&self) -> (r: (Vec<u32>, u32))
        ensures
            r.0@ == self.image.data@,
            r.1 == self.image.maximum,
            self.wf() ==> forall|j: int| 0 <= j < r.0@.len() ==> r.0@[j] <= r.1,
            self.wf() ==> (r.1 == 0 || r.1 == u32::MAX || exists|j: int|
                0 <= j < self.image.data@.len() && self.image.data@[j] == r.1),
    {
        let data = self.image.get_data();
        let maximum = self.image.get_maximum();
        proof {
            if self.wf() && maximum != 0 && maximum != u32::MAX {
                let j = choose|j: int|
                    0 <= j < self.image.data@.len() && self.image.data@[j] == self.image.maximum;
                assert(data@[j] == maximum);
            }
        }
        (data, maximum)
    }
}

/// Render a Nebulabrot: run every configured pass over a fresh histogram
/// and return the final counters and their running maximum.  The image is
/// `size x size` with three channels; the counters are exactly the verified
/// pipeline folded, pass by pass and channel by channel, over the draws of
/// `passes * 3` workers of `samples` points each, starting from all zeros
/// (the checkpoint chain); and the maximum is at least every counter and —
/// zero and saturation aside — attained by one.
pub fn render_nebulabrot(settings: &RenderSettings) -> (r: (Vec<u32>, u32))
    requires
        settings.wf(),
    ensures
        r.0@.len() == settings.size * settings.size * 3,
        forall|j: int| 0 <= j < r.0@.len() ==> r.0@[j] <= r.1,
        r.1 == 0 || r.1 == u32::MAX || exists|j: int| 0 <= j < r.0@.len() && r.0@[j] == r.1,
        exists|states: Seq<(Seq<u32>, u32)>|
            #[trigger] passes_chain(states, *settings) && states.len() == settings.passes + 1
                && states.first() == (zero_grid(settings.size as int), 0u32) && states.last() == (
            r.0@,
            r.1,
            ),
{
    let mut state = RenderState::new(*settings);
    let ghost mut states: Seq<(Seq<u32>, u32)> = seq![
        (state.image.data@, state.image.maximum),
    ];
    proof {
        assert(state.image.data@ =~= zero_grid(settings.size as int));
    }
    let mut pass: u16 = 0;
    while pass < settings.passes
        invariant
            state.wf(),
            state.settings == *settings,
            state.passes_done == pass,
            pass <= settings.passes,
            states.len() == pass + 1,
            states.first() == (zero_grid(settings.size as int), 0u32),
            states.last() == (state.image.data@, state.image.maximum),
            passes_chain(states, *settings),
        decreases settings.passes - pass,
    {
        let ghost prev = states;
        state.run_pass();
        proof {
            states = states.push((state.image.data@, state.image.maximum));
            assert forall|k: int| 0 <= k < states.len() - 1 implies pass_relates(
                (#[trigger] states[k]).0,
                states[k].1,
                states[k + 1].0,
                states[k + 1].1,
                *settings,
            ) by {
                if k < prev.len() - 1 {
                    assert(states[k] == prev[k]);
                    assert(states[k + 1] == prev[k + 1]);
                } else {
                    assert(states[k] == prev.last());
                }
            }
        }
        pass = pass + 1;
    }
    let r = state.snapshot();
    proof {
        assert(states.last() == (r.0@, r.1));
        assert(passes_chain(states, *settings) && states.len() == settings.passes + 1
            && states.first() == (zero_grid(settings.size as int), 0u32) && states.last() == (
        r.0@,
        r.1,
        ));
    }
    r
}

} // verus!
