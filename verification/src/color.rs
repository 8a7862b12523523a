//! Intensity mapping: histogram counts to display bytes.
//!
//! A cell's count is normalised by the histogram maximum to a ratio in
//! `[0, 1]`, lifted through a gamma curve, scaled to `[0, 256)` and clamped
//! to a byte.  The ratio is a binary fixed-point value with 32 fractional
//! bits, and the curve exponent is a binary fixed-point value with 16
//! fractional bits, applied exactly: an integer power by repeated
//! multiplication and a fractional power by a square-root chain, one root
//! per exponent bit.  Every step rounds down, and the whole mapping is the
//! spec function [`intensity_spec`].

use vstd::prelude::*;
use vstd::arithmetic::div_mod::{
    lemma_div_by_multiple,
    lemma_div_denominator,
    lemma_div_multiples_vanish,
    lemma_multiply_divide_lt,
};
use crate::fixed::{isqrt, is_floor_sqrt};

verus! {

/// Fixed-point steps per unit for normalised ratios: 32 fractional bits.
pub const RSCALE: u64 = 0x1_0000_0000;

/// The curve exponent value that stands for `1.0`: 16 fractional bits.
pub const CURVE_ONE: u32 = 0x1_0000;

/// Rounded-down product of two ratio values.
pub open spec fn rmul_spec(a: nat, b: nat) -> nat {
    (a * b) / 0x1_0000_0000
}

/// The floor of the square root, defined by counting up.
pub open spec fn sqrt_floor(x: nat) -> nat
    decreases x,
{
    if x == 0 {
        0
    } else {
        let s = sqrt_floor((x - 1) as nat);
        if (s + 1) * (s + 1) <= x {
            s + 1
        } else {
            s
        }
    }
}

/// `sqrt_floor` is what its name says.
pub proof fn lemma_sqrt_floor_correct(x: nat)
    ensures
        is_floor_sqrt(x, sqrt_floor(x)),
    decreases x,
{
    if x == 0 {
        assert(sqrt_floor(0) == 0);
        assert(0nat * 0nat == 0nat) by (nonlinear_arith);
        assert((0nat + 1) * (0nat + 1) == 1nat) by (nonlinear_arith);
        assert(is_floor_sqrt(0, 0));
    } else {
        let x1 = (x - 1) as nat;
        lemma_sqrt_floor_correct(x1);
        let s = sqrt_floor(x1);
        assert(is_floor_sqrt(x1, s));
        assert(sqrt_floor(x) == if (s + 1) * (s + 1) <= x {
            s + 1
        } else {
            s
        });
        if (s + 1) * (s + 1) <= x {
            assert((s + 1) * (s + 1) < (s + 2) * (s + 2)) by (nonlinear_arith);
            assert(is_floor_sqrt(x, s + 1));
        } else {
            assert(is_floor_sqrt(x, s));
        }
        assert(is_floor_sqrt(x, sqrt_floor(x)));
    }
}

/// There is only one floor of a square root.
pub proof fn lemma_floor_sqrt_unique(x: nat, r: nat)
    requires
        is_floor_sqrt(x, r),
    ensures
        r == sqrt_floor(x),
{
    lemma_sqrt_floor_correct(x);
    let s = sqrt_floor(x);
    if r < s {
        assert((r + 1) * (r + 1) <= s * s) by (nonlinear_arith)
            requires r + 1 <= s;
    }
    if s < r {
        assert((s + 1) * (s + 1) <= r * r) by (nonlinear_arith)
            requires s + 1 <= r;
    }
}

/// Rounded-down square root of a ratio value.
pub open spec fn rsqrt_spec(t: nat) -> nat {
    sqrt_floor(t * 0x1_0000_0000)
}

/// An integer power of a ratio value, by repeated rounded-down
/// multiplication.
pub open spec fn rpow_int_spec(x: nat, n: nat) -> nat
    decreases n,
{
    if n == 0 {
        0x1_0000_0000
    } else {
        rmul_spec(rpow_int_spec(x, (n - 1) as nat), x)
    }
}

/// A fractional power of a ratio value by a square-root chain: `p` walks the
/// exponent's fraction bits from the highest weight down, `t` is the running
/// root of the base, and `acc` gathers the roots at the set bits.
pub open spec fn rpow_frac_spec(acc: nat, t: nat, f: nat, p: nat) -> nat
    decreases p,
{
    if p == 0 {
        acc
    } else {
        let t2 = rsqrt_spec(t);
        let acc2 = if (f / p) % 2 == 1 {
            rmul_spec(acc, t2)
        } else {
            acc
        };
        rpow_frac_spec(acc2, t2, f, p / 2)
    }
}

/// A ratio raised to a curve exponent with 16 fraction bits: the integer
/// power times the fractional power.
pub open spec fn curve_pow_spec(x: nat, cbits: nat) -> nat {
    rmul_spec(rpow_int_spec(x, cbits / 0x1_0000), rpow_frac_spec(0x1_0000_0000, x, cbits % 0x1_0000, 0x8000))
}

/// The byte a counted cell maps to: the count normalised by the maximum,
/// clamped to one, raised to the curve, scaled by 256 and clamped to 255.
/// A zero maximum maps the whole image to black by policy.
pub open spec fn intensity_spec(count: u32, maximum: u32, cbits: u32) -> u8 {
    if maximum == 0 {
        0u8
    } else {
        let ratio = if count >= maximum {
            0x1_0000_0000nat
        } else {
            ((count * 0x1_0000_0000) / (maximum as int)) as nat
        };
        let v = curve_pow_spec(ratio, cbits as nat) / 0x100_0000;
        if v >= 255 {
            255u8
        } else {
            v as u8
        }
    }
}

/// Ratio multiplication: computes `rmul_spec` exactly and stays in `[0, 1]`.
fn rmul(a: u64, b: u64) -> (r: u64)
    requires
        a <= RSCALE,
        b <= RSCALE,
    ensures
        r == rmul_spec(a as nat, b as nat),
        r <= RSCALE,
{
    proof {
        assert((a as int) * (b as int) <= (RSCALE as int) * (RSCALE as int)) by (nonlinear_arith)
            requires 0 <= a <= RSCALE && 0 <= b <= RSCALE;
        lemma_div_by_multiple(RSCALE as int, RSCALE as int);
        assert((a as int) * (b as int) / (RSCALE as int) <= (RSCALE as int) * (RSCALE as int) / (
        RSCALE as int)) by {
            vstd::arithmetic::div_mod::lemma_div_is_ordered(
                (a as int) * (b as int),
                (RSCALE as int) * (RSCALE as int),
                RSCALE as int,
            );
        }
    }
    let p: u128 = (a as u128) * (b as u128);
    (p / (RSCALE as u128)) as u64
}

/// Ratio square root: computes `rsqrt_spec` exactly and stays in `[0, 1]`.
fn rsqrt(t: u64) -> (r: u64)
    requires
        t <= RSCALE,
    ensures
        r == rsqrt_spec(t as nat),
        r <= RSCALE,
{
    proof {
        assert((t as int) * (RSCALE as int) <= 0x1_0000_0000_0000_0000) by (nonlinear_arith)
            requires 0 <= t <= 0x1_0000_0000 && RSCALE == 0x1_0000_0000;
    }
    let wide: u128 = (t as u128) * (RSCALE as u128);
    let root = isqrt(wide);
    proof {
        lemma_floor_sqrt_unique(wide as nat, root as nat);
        if root > RSCALE {
            assert((RSCALE + 1) * (RSCALE + 1) > (RSCALE as int) * (RSCALE as int))
                by (nonlinear_arith);
            assert((root as int) * (root as int) >= (RSCALE + 1) * (RSCALE + 1))
                by (nonlinear_arith)
                requires root >= RSCALE + 1;
            assert((t as int) * (RSCALE as int) <= (RSCALE as int) * (RSCALE as int))
                by (nonlinear_arith)
                requires 0 <= t <= RSCALE;
        }
    }
    root as u64
}

/// A ratio raised to a curve exponent: computes `curve_pow_spec` exactly.
pub fn curve_pow(x: u64, cbits: u32) -> (r: u64)
    requires
        x <= RSCALE,
    ensures
        r == curve_pow_spec(x as nat, cbits as nat),
        r <= RSCALE,
{
    let n: u32 = cbits / 0x1_0000;
    let f: u32 = cbits % 0x1_0000;
    let mut ip: u64 = RSCALE;
    let mut i: u32 = 0;
    while i < n
        invariant
            i <= n,
            x <= RSCALE,
            ip <= RSCALE,
            ip == rpow_int_spec(x as nat, i as nat),
        decreases n - i,
    {
        ip = rmul(ip, x);
        i = i + 1;
    }
    let mut acc: u64 = RSCALE;
    let mut t: u64 = x;
    let mut p: u32 = 0x8000;
    let ghost full = rpow_frac_spec(RSCALE as nat, x as nat, f as nat, 0x8000nat);
    while p > 0
        invariant
            acc <= RSCALE,
            t <= RSCALE,
            rpow_frac_spec(acc as nat, t as nat, f as nat, p as nat) == full,
        decreases p,
    {
        t = rsqrt(t);
        if (f / p) % 2 == 1 {
            acc = rmul(acc, t);
        }
        p = p / 2;
    }
    rmul(ip, acc)
}

/// Map one histogram cell to its display byte: computes `intensity_spec`
/// exactly.
pub fn intensity_byte(count: u32, maximum: u32, cbits: u32) -> (r: u8)
    ensures
        r == intensity_spec(count, maximum, cbits),
{
    if maximum == 0 {
        return 0;
    }
    let ratio: u64 = if count >= maximum {
        RSCALE
    } else {
        proof {
            assert((count as int) * (RSCALE as int) < (maximum as int) * (RSCALE as int))
                by (nonlinear_arith)
                requires 0 <= count < maximum && RSCALE > 0;
            lemma_multiply_divide_lt(
                (count as int) * (RSCALE as int),
                maximum as int,
                RSCALE as int,
            );
        }
        ((count as u64) as u64 * RSCALE) / (maximum as u64)
    };
    let powed = curve_pow(ratio, cbits);
    let v = powed / 0x100_0000;
    if v >= 255 {
        255
    } else {
        v as u8
    }
}

/// Convert a full histogram snapshot into a pixel buffer: one byte per
/// counter, each the exact intensity of its cell.  A zero maximum yields a
/// buffer of zero bytes of the same length by policy.
pub fn map_to_color(data: &Vec<u32>, maximum: u32, cbits: u32) -> (r: Vec<u8>)
    ensures
        r@.len() == data@.len(),
        forall|i: int| 0 <= i < data@.len() ==> r@[i] == intensity_spec(data@[i], maximum, cbits),
{
    let mut out: Vec<u8> = Vec::new();
    let mut i: usize = 0;
    while i < data.len()
        invariant
            i <= data@.len(),
            out@.len() == i,
            forall|j: int| 0 <= j < i ==> out@[j] == intensity_spec(data@[j], maximum, cbits),
        decreases data@.len() - i,
    {
        let b = intensity_byte(data[i], maximum, cbits);
        out.push(b);
        i = i + 1;
    }
    out
}

/// Multiplying a ratio by one keeps it.
proof fn lemma_rmul_one(x: nat)
    ensures
        rmul_spec(0x1_0000_0000, x) == x,
        rmul_spec(x, 0x1_0000_0000) == x,
{
    let r = 0x1_0000_0000int;
    lemma_div_multiples_vanish(x as int, r);
    assert(x * 0x1_0000_0000 == 0x1_0000_0000 * x) by (nonlinear_arith);
}

/// A square-root chain that never picks a factor keeps the accumulator.
proof fn lemma_rpow_frac_zero(acc: nat, t: nat, p: nat)
    ensures
        rpow_frac_spec(acc, t, 0, p) == acc,
    decreases p,
{
    if p > 0 {
        lemma_rpow_frac_zero(acc, rsqrt_spec(t), p / 2);
    }
}

/// The identity curve is exact: raising a ratio to the exponent one gives
/// the ratio back.
pub proof fn lemma_curve_pow_one(x: nat)
    ensures
        curve_pow_spec(x, CURVE_ONE as nat) == x,
{
    lemma_rmul_one(x);
    assert(rpow_int_spec(x, 1) == rmul_spec(rpow_int_spec(x, 0), x));
    lemma_rpow_frac_zero(0x1_0000_0000, x, 0x8000);
}

/// The ratio one is a fixed point of every curve: a cell at the maximum
/// count maps to full intensity whatever the exponent.
pub proof fn lemma_curve_pow_of_one_ratio(cbits: nat)
    ensures
        curve_pow_spec(0x1_0000_0000, cbits) == 0x1_0000_0000,
{
    let r: nat = 0x1_0000_0000;
    assert(rmul_spec(r, r) == r) by {
        lemma_rmul_one(r);
    }
    assert(rsqrt_spec(r) == r) by {
        assert(is_floor_sqrt((r * r) as nat, r)) by (nonlinear_arith);
        lemma_floor_sqrt_unique((r * r) as nat, r);
    }
    lemma_rpow_int_of_one(cbits / 0x1_0000);
    lemma_rpow_frac_of_one(r, cbits % 0x1_0000, 0x8000);
}

/// Every integer power of the ratio one is one.
proof fn lemma_rpow_int_of_one(n: nat)
    ensures
        rpow_int_spec(0x1_0000_0000, n) == 0x1_0000_0000,
    decreases n,
{
    if n > 0 {
        lemma_rpow_int_of_one((n - 1) as nat);
        lemma_rmul_one(0x1_0000_0000);
    }
}

/// A square-root chain over the ratio one keeps the accumulator.
proof fn lemma_rpow_frac_of_one(acc: nat, f: nat, p: nat)
    ensures
        rpow_frac_spec(acc, 0x1_0000_0000, f, p) == acc,
    decreases p,
{
    if p > 0 {
        let r: nat = 0x1_0000_0000;
        assert(rsqrt_spec(r) == r) by {
            assert(is_floor_sqrt((r * r) as nat, r)) by (nonlinear_arith);
            lemma_floor_sqrt_unique((r * r) as nat, r);
        }
        lemma_rmul_one(acc);
        lemma_rpow_frac_of_one(if (f / p) % 2 == 1 { rmul_spec(acc, r) } else { acc }, f, p / 2);
    }
}

/// With the identity curve the intensity mapping is linear: a cell at or
/// above the maximum maps to 255, and any other cell to
/// `floor(256 * count / maximum)`; in particular a zero count maps to zero.
pub proof fn lemma_linear_curve(count: u32, maximum: u32)
    requires
        maximum > 0,
    ensures
        intensity_spec(count, maximum, CURVE_ONE) as int == if count >= maximum {
            255int
        } else {
            256 * count / (maximum as int)
        },
{
    let r = 0x1_0000_0000int;
    if count >= maximum {
        lemma_curve_pow_one(r as nat);
        assert(r / 0x100_0000 == 256);
    } else {
        let m = maximum as int;
        let ratio = (count * r) / m;
        lemma_curve_pow_one(ratio as nat);
        assert(ratio >= 0) by {
            assert(count * r >= 0) by (nonlinear_arith)
                requires r >= 0 && count >= 0;
            vstd::arithmetic::div_mod::lemma_div_pos_is_pos(count * r, m);
        }
        lemma_div_denominator(count * r, m, 0x100_0000);
        assert(m * 0x100_0000 == 0x100_0000 * m) by (nonlinear_arith);
        lemma_div_denominator(count * r, 0x100_0000, m);
        assert(count * r == (256 * count) * 0x100_0000) by (nonlinear_arith)
            requires r == 0x1_0000_0000;
        lemma_div_by_multiple(256 * count, 0x100_0000);
        assert((count * r) / 0x100_0000 == 256 * count);
        assert(ratio / 0x100_0000 == 256 * count / m);
        lemma_multiply_divide_lt(256 * count, m, 256);
        assert(256 * count < m * 256) by (nonlinear_arith)
            requires 0 <= count < m;
        assert(256 * count / m < 256);
    }
}

/// A zero maximum blacks out every cell, whatever the count and the curve.
pub proof fn lemma_zero_maximum_black(count: u32, cbits: u32)
    ensures
        intensity_spec(count, 0, cbits) == 0,
{
}

} // verus!
