//! Escape-time path tracing for the quadratic map `z <- z^2 + c`.
//!
//! On top of classifying whether the parameter escapes within the iteration
//! limit, [`iterate`] returns every value the iteration visited; the list of
//! visited points is what a Nebulabrot accumulates.  The whole trajectory is
//! pinned down exactly by [`trace_spec`], over the fixed-point arithmetic of
//! [`crate::fixed`].

use vstd::prelude::*;
use crate::fixed::{fmul, fmul_spec, SCALE};

verus! {

/// Real and imaginary parts of a complex number, in fixed-point steps.
#[derive(Clone, Copy, PartialEq, Eq, Structural, Debug)]
pub struct Complex {
    pub re: i64,
    pub im: i64,
}

/// The pair of mathematical integers a `Complex` holds.
pub open spec fn complex_view(z: Complex) -> (int, int) {
    (z.re as int, z.im as int)
}

/// One application of the quadratic map in fixed-point arithmetic.
pub open spec fn step_spec(z: (int, int), c: (int, int)) -> (int, int) {
    (fmul_spec(z.0, z.0) - fmul_spec(z.1, z.1) + c.0, 2 * fmul_spec(z.0, z.1) + c.1)
}

/// Squared magnitude in fixed-point arithmetic.
pub open spec fn mag2_spec(z: (int, int)) -> int {
    fmul_spec(z.0, z.0) + fmul_spec(z.1, z.1)
}

/// The exact trajectory an escape-time run records: one entry per completed
/// iteration, stopping early as soon as the squared magnitude reaches `stop2`.
pub open spec fn trace_spec(z: (int, int), c: (int, int), limit: nat, stop2: int) -> Seq<(int, int)>
    decreases limit,
{
    if limit == 0 || mag2_spec(z) >= stop2 {
        Seq::empty()
    } else {
        seq![step_spec(z, c)] + trace_spec(step_spec(z, c), c, (limit - 1) as nat, stop2)
    }
}

/// The last iterate an escape-time run holds when it classifies escape:
/// the final recorded point, or the initial iterate if nothing was recorded.
pub open spec fn trace_end(z: (int, int), c: (int, int), limit: nat, stop2: int) -> (int, int) {
    let t = trace_spec(z, c, limit, stop2);
    if t.len() == 0 {
        z
    } else {
        t.last()
    }
}

/// Whether an escape-time run with these parameters classifies the point as
/// escaped: the squared magnitude of the final iterate exceeds `esc2`.
pub open spec fn escapes(z: (int, int), c: (int, int), limit: nat, esc2: int, stop2: int) -> bool {
    mag2_spec(trace_end(z, c, limit, stop2)) > esc2
}

/// The views of a trajectory's entries.
pub open spec fn trajectory_view(s: Seq<Complex>) -> Seq<(int, int)> {
    s.map_values(|w: Complex| complex_view(w))
}

/// A trajectory never exceeds the iteration limit.
pub proof fn lemma_trace_len(z: (int, int), c: (int, int), limit: nat, stop2: int)
    ensures
        trace_spec(z, c, limit, stop2).len() <= limit,
    decreases limit,
{
    if limit > 0 && mag2_spec(z) < stop2 {
        lemma_trace_len(step_spec(z, c), c, (limit - 1) as nat, stop2);
    }
}

/// Tracing with iteration limit zero records nothing, and the standard
/// initial iterate `0 + 0i` is never classified as escaped by it.
pub proof fn lemma_limit_zero_trace(c: (int, int), esc2: int, stop2: int)
    requires
        esc2 >= 0,
    ensures
        trace_spec((0, 0), c, 0, stop2) == Seq::<(int, int)>::empty(),
        !escapes((0, 0), c, 0, esc2, stop2),
{
    assert(fmul_spec(0, 0) == 0);
}

/// The fixed point of the map: a zero parameter keeps the zero iterate in
/// place, so the trajectory is exactly `limit` zero points and the point
/// never escapes.
pub proof fn lemma_zero_parameter_trace(limit: nat, esc2: int, stop2: int)
    requires
        esc2 >= 0,
        stop2 > 0,
    ensures
        trace_spec((0, 0), (0, 0), limit, stop2) == Seq::new(limit, |i: int| (0int, 0int)),
        !escapes((0, 0), (0, 0), limit, esc2, stop2),
    decreases limit,
{
    let zeros = Seq::new(limit, |i: int| (0int, 0int));
    assert(mag2_spec((0, 0)) == 0);
    if limit == 0 {
        assert(trace_spec((0, 0), (0, 0), limit, stop2) =~= zeros);
    } else {
        assert(step_spec((0, 0), (0, 0)) == (0int, 0int));
        lemma_zero_parameter_trace((limit - 1) as nat, esc2, stop2);
        assert(trace_spec((0, 0), (0, 0), limit, stop2) =~= zeros);
        assert(trace_spec((0, 0), (0, 0), limit, stop2).last() == (0int, 0int));
    }
}

/// A parameter far outside the set escapes at once: for `c = 2 + 2i`, the
/// standard escape radius `2` and stop radius `3`, any limit of at least one
/// yields a non-empty trajectory no longer than the limit, classified as
/// escaped.
pub proof fn lemma_far_parameter_escapes(limit: nat)
    requires
        limit >= 1,
    ensures
        ({
            let c = ((2 * SCALE) as int, (2 * SCALE) as int);
            let esc2 = fmul_spec((2 * SCALE) as int, (2 * SCALE) as int);
            let stop2 = fmul_spec((3 * SCALE) as int, (3 * SCALE) as int);
            &&& trace_spec((0, 0), c, limit, stop2).len() >= 1
            &&& trace_spec((0, 0), c, limit, stop2).len() <= limit
            &&& escapes((0, 0), c, limit, esc2, stop2)
        }),
{
    let s = SCALE as int;
    let c = (2 * s, 2 * s);
    let esc2 = fmul_spec(2 * s, 2 * s);
    let stop2 = fmul_spec(3 * s, 3 * s);
    lemma_trace_len((0, 0), c, limit, stop2);
    assert(s == 1_000_000);
    assert(fmul_spec(0, 0) == 0);
    assert(fmul_spec(2_000_000, 2_000_000) == 4_000_000);
    assert(fmul_spec(3_000_000, 3_000_000) == 9_000_000);
    assert(fmul_spec(10_000_000, 10_000_000) == 100_000_000);
    assert(esc2 == 4 * s);
    assert(stop2 == 9 * s);
    assert(mag2_spec((0, 0)) == 0);
    let z1 = step_spec((0, 0), c);
    assert(z1 == (2 * s, 2 * s));
    assert(mag2_spec(z1) == 8 * s);
    let t1 = trace_spec(z1, c, (limit - 1) as nat, stop2);
    assert(trace_spec((0, 0), c, limit, stop2) == seq![z1] + t1);
    if limit == 1 {
        assert(t1 =~= Seq::<(int, int)>::empty());
        assert(trace_spec((0, 0), c, limit, stop2).last() == z1);
        assert(mag2_spec(z1) > esc2);
    } else {
        let z2 = step_spec(z1, c);
        assert(z2 == (2 * s, 10 * s));
        assert(mag2_spec(z2) == 104 * s);
        let t2 = trace_spec(z2, c, (limit - 2) as nat, stop2);
        assert(t2 =~= Seq::<(int, int)>::empty());
        assert(t1 == seq![z2] + t2);
        assert(trace_spec((0, 0), c, limit, stop2).last() == z2);
        assert(mag2_spec(z2) > esc2);
    }
}

/// Iterated Mandelbrot map that also returns the points traversed during
/// iteration.  The trajectory equals `trace_spec` and the escape flag equals
/// `escapes`, both applied to the fixed-point views of the arguments.
pub fn iterate(z: Complex, c: Complex, limit: u32, escape: i64, stop: i64) -> (r: (Vec<Complex>, bool))
    requires
        -100 * SCALE <= z.re <= 100 * SCALE,
        -100 * SCALE <= z.im <= 100 * SCALE,
        -100 * SCALE <= c.re <= 100 * SCALE,
        -100 * SCALE <= c.im <= 100 * SCALE,
        0 <= escape <= 100 * SCALE,
        0 <= stop <= 10 * SCALE,
    ensures
        trajectory_view(r.0@) == trace_spec(
            complex_view(z),
            complex_view(c),
            limit as nat,
            fmul_spec(stop as int, stop as int),
        ),
        r.1 == escapes(
            complex_view(z),
            complex_view(c),
            limit as nat,
            fmul_spec(escape as int, escape as int),
            fmul_spec(stop as int, stop as int),
        ),
        r.0@.len() <= limit,
{
    let ghost zv = complex_view(z);
    let ghost cv = complex_view(c);
    let mut cur = z;
    let mut zs: Vec<Complex> = Vec::new();
    let escape_squared = fmul(escape, escape);
    let stop_squared = fmul(stop, stop);
    proof {
        assert(fmul_spec(stop as int, stop as int) <= 100 * SCALE && fmul_spec(
            stop as int,
            stop as int,
        ) >= 0) by (nonlinear_arith)
            requires 0 <= stop <= 10 * SCALE, SCALE == 1_000_000;
    }
    let ghost stop2 = stop_squared as int;
    let mut z2re = fmul(cur.re, cur.re);
    let mut z2im = fmul(cur.im, cur.im);
    proof {
        assert(0 <= fmul_spec(cur.re as int, cur.re as int) <= 360000 * SCALE && 0 <= fmul_spec(
            cur.im as int,
            cur.im as int,
        ) <= 360000 * SCALE) by (nonlinear_arith)
            requires
                -600 * SCALE <= cur.re <= 600 * SCALE,
                -600 * SCALE <= cur.im <= 600 * SCALE,
                SCALE == 1_000_000;
    }
    let mut iter: u32 = 0;
    while iter < limit && z2re + z2im < stop_squared
        invariant
            iter <= limit,
            zs@.len() == iter,
            stop2 == stop_squared,
            0 <= z2re <= 360000 * SCALE,
            0 <= z2im <= 360000 * SCALE,
            -600 * SCALE <= cur.re <= 600 * SCALE,
            -600 * SCALE <= cur.im <= 600 * SCALE,
            cv == complex_view(c),
            -100 * SCALE <= cv.0 <= 100 * SCALE,
            -100 * SCALE <= cv.1 <= 100 * SCALE,
            0 <= stop2 <= 100 * SCALE,
            z2re == fmul_spec(cur.re as int, cur.re as int),
            z2im == fmul_spec(cur.im as int, cur.im as int),
            trace_spec(zv, cv, limit as nat, stop2) == trajectory_view(zs@) + trace_spec(
                complex_view(cur),
                cv,
                (limit - iter) as nat,
                stop2,
            ),
            zs@.len() == 0 ==> cur == z,
            zs@.len() > 0 ==> cur == zs@.last(),
        decreases limit - iter,
    {
        proof {
            assert(-11 * SCALE <= cur.re <= 11 * SCALE && -11 * SCALE <= cur.im <= 11 * SCALE)
                by (nonlinear_arith)
                requires
                    z2re == fmul_spec(cur.re as int, cur.re as int),
                    z2im == fmul_spec(cur.im as int, cur.im as int),
                    z2re >= 0,
                    z2im >= 0,
                    z2re + z2im <= 100 * SCALE,
                    SCALE == 1_000_000,
                    -600 * SCALE <= cur.re <= 600 * SCALE,
                    -600 * SCALE <= cur.im <= 600 * SCALE;
        }
        let cross = fmul(cur.re, cur.im);
        proof {
            assert(-121 * SCALE <= cross <= 121 * SCALE) by (nonlinear_arith)
                requires
                    cross == fmul_spec(cur.re as int, cur.im as int),
                    -11 * SCALE <= cur.re <= 11 * SCALE,
                    -11 * SCALE <= cur.im <= 11 * SCALE,
                    SCALE == 1_000_000;
        }
        let new_im: i64 = 2 * cross + c.im;
        let new_re: i64 = z2re - z2im + c.re;
        let ghost prev = cur;
        cur = Complex { re: new_re, im: new_im };
        // record path
        zs.push(cur);
        proof {
            assert(complex_view(cur) == step_spec(complex_view(prev), cv));
            assert(trajectory_view(zs@) =~= trajectory_view(zs@.drop_last()).push(complex_view(cur)));
            assert(trace_spec(complex_view(prev), cv, (limit - iter) as nat, stop2) == seq![
                step_spec(complex_view(prev), cv),
            ] + trace_spec(complex_view(cur), cv, (limit - iter - 1) as nat, stop2));
            assert(trajectory_view(zs@.drop_last()) + (seq![complex_view(cur)] + trace_spec(
                complex_view(cur),
                cv,
                (limit - iter - 1) as nat,
                stop2,
            )) =~= trajectory_view(zs@) + trace_spec(
                complex_view(cur),
                cv,
                (limit - iter - 1) as nat,
                stop2,
            ));
        }
        z2re = fmul(cur.re, cur.re);
        z2im = fmul(cur.im, cur.im);
        proof {
            assert(0 <= fmul_spec(cur.re as int, cur.re as int) <= 360000 * SCALE && 0
                <= fmul_spec(cur.im as int, cur.im as int) <= 360000 * SCALE) by (nonlinear_arith)
                requires
                    -600 * SCALE <= cur.re <= 600 * SCALE,
                    -600 * SCALE <= cur.im <= 600 * SCALE,
                    SCALE == 1_000_000;
        }
        iter = iter + 1;
    }
    let escaped = z2re + z2im > escape_squared;
    proof {
        assert(trace_spec(complex_view(cur), cv, (limit - iter) as nat, stop2) =~= Seq::<(
            int,
            int,
        )>::empty());
        assert(trajectory_view(zs@) + Seq::<(int, int)>::empty() =~= trajectory_view(zs@));
        assert(mag2_spec(complex_view(cur)) == z2re + z2im);
        assert(trace_end(zv, cv, limit as nat, stop2) == complex_view(cur)) by {
            if zs@.len() == 0 {
                assert(complex_view(z) == complex_view(cur));
            } else {
                assert(trace_spec(zv, cv, limit as nat, stop2).last() == trajectory_view(
                    zs@,
                ).last());
            }
        }
    }
    (zs, escaped)
}

} // verus!
