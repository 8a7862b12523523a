//! Exact fixed-point arithmetic.
//!
//! Plane coordinates, escape radii and curve values are stored as integer
//! multiples of `1 / SCALE`.  Multiplication truncates toward zero, like the
//! hardware rounding it stands in for, and its result is pinned exactly by
//! [`fmul_spec`], so every later computation of the renderer can be stated
//! and proved without any real-number reasoning.

use vstd::prelude::*;

verus! {

/// Fixed-point steps per unit: the value `x` stands for the real `x / SCALE`.
pub const SCALE: i64 = 1_000_000;

/// Largest magnitude accepted by [`fmul`]; the rescaled product of two such
/// values still fits an `i64`.
pub const FMUL_BOUND: i64 = 1_000_000_000_000;

/// Truncated-toward-zero product of two fixed-point values.
pub open spec fn fmul_spec(a: int, b: int) -> int {
    let p = a * b;
    if p >= 0 {
        p / (SCALE as int)
    } else {
        -((-p) / (SCALE as int))
    }
}

/// Fixed-point multiplication: computes `fmul_spec` exactly.
pub fn fmul(a: i64, b: i64) -> (r: i64)
    requires
        -FMUL_BOUND <= a <= FMUL_BOUND,
        -FMUL_BOUND <= b <= FMUL_BOUND,
    ensures
        r == fmul_spec(a as int, b as int),
{
    let neg = (a < 0) != (b < 0);
    let ua: i64 = if a < 0 { -a } else { a };
    let ub: i64 = if b < 0 { -b } else { b };
    assert((ua as int) * (ub as int) <= FMUL_BOUND * FMUL_BOUND) by (nonlinear_arith)
        requires 0 <= ua <= FMUL_BOUND && 0 <= ub <= FMUL_BOUND;
    let p: u128 = (ua as u128) * (ub as u128);
    let q: u128 = p / (SCALE as u128);
    let qi: i64 = q as i64;
    proof {
        let ai = a as int;
        let bi = b as int;
        assert(ai * bi == if neg { -((ua as int) * (ub as int)) } else { (ua as int) * (ub as int) })
            by (nonlinear_arith)
            requires
                ua == (if ai < 0 { -ai } else { ai }),
                ub == (if bi < 0 { -bi } else { bi }),
                neg == ((ai < 0) != (bi < 0));
    }
    if neg {
        -qi
    } else {
        qi
    }
}

/// `r` is the floor of the square root of `x`.
pub open spec fn is_floor_sqrt(x: nat, r: nat) -> bool {
    r * r <= x < (r + 1) * (r + 1)
}

/// Integer square root, rounded down.
pub fn isqrt(x: u128) -> (r: u128)
    ensures
        is_floor_sqrt(x as nat, r as nat),
        r < 0x1_0000_0000_0000_0000u128,
{
    let mut lo: u128 = 0;
    let mut hi: u128 = 0x1_0000_0000_0000_0000u128;
    assert((x as int) < (hi as int) * (hi as int)) by (nonlinear_arith)
        requires hi == 0x1_0000_0000_0000_0000u128 && x <= u128::MAX;
    while hi - lo > 1
        invariant
            lo < hi <= 0x1_0000_0000_0000_0000u128,
            (lo as int) * (lo as int) <= x as int,
            (x as int) < (hi as int) * (hi as int),
        decreases hi - lo,
    {
        let mid: u128 = lo + (hi - lo) / 2;
        assert((mid as int) * (mid as int) <= u128::MAX) by (nonlinear_arith)
            requires mid < 0x1_0000_0000_0000_0000u128;
        let sq: u128 = mid * mid;
        if sq <= x {
            lo = mid;
        } else {
            hi = mid;
        }
    }
    lo
}

/// Integer square root of a `u32` count: the stratification grid side.
pub fn squirt(n: u32) -> (r: u32)
    ensures
        is_floor_sqrt(n as nat, r as nat),
        r < 0x1_0000,
{
    let root = isqrt(n as u128);
    proof {
        if root >= 0x1_0000 {
            assert((root as int) * (root as int) >= 0x1_0000_0000) by (nonlinear_arith)
                requires root >= 0x1_0000u128;
        }
    }
    root as u32
}

} // verus!
