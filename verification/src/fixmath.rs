//! Fixed-point math: angle normalization, a rational sine/cosine
//! approximation, a four-quadrant arctangent and an integer square root.
//!
//! Angles are milli-radians in `[0, TAU_MRAD)`; trigonometric values are
//! scaled by `MILLI`, so they lie in `[-1000, 1000]`.

use vstd::prelude::*;
use crate::{TAU_MRAD, HALF_TURN_MRAD, QUARTER_TURN_MRAD, MILLI};

verus! {

/// Mathematical normalization of an angle into `[0, TAU_MRAD)`.
pub open spec fn norm_angle(a: int) -> int {
    a % (TAU_MRAD as int)
}

/// Rational sine approximation on a half turn, scaled by `MILLI`;
/// clamped so the value never exceeds the unit scale.
pub open spec fn half_turn_sine(x: int) -> int {
    let u = x * (HALF_TURN_MRAD - x);
    let raw = (16 * u * MILLI) / (5 * HALF_TURN_MRAD * HALF_TURN_MRAD - 4 * u);
    if raw > MILLI {
        MILLI as int
    } else {
        raw
    }
}

/// Sine of a normalized angle, scaled by `MILLI`.
pub open spec fn sine(a: int) -> int {
    if a <= HALF_TURN_MRAD {
        half_turn_sine(a)
    } else {
        -half_turn_sine(a - HALF_TURN_MRAD)
    }
}

/// Cosine of a normalized angle, scaled by `MILLI`: the sine a quarter
/// turn ahead.
pub open spec fn cosine(a: int) -> int {
    sine(norm_angle(a + QUARTER_TURN_MRAD))
}

/// The product `x * (HALF_TURN_MRAD - x)` stays within `[0, 9_865_881]`
/// on the half turn, and keeps the sine denominator positive.
proof fn lemma_sine_kernel_ranges(x: int)
    requires
        0 <= x <= HALF_TURN_MRAD,
    ensures
        0 <= x * (HALF_TURN_MRAD - x) <= 9_865_881,
        5 * HALF_TURN_MRAD * HALF_TURN_MRAD - 4 * (x * (HALF_TURN_MRAD - x)) >= 9_865_881,
        16 * (x * (HALF_TURN_MRAD - x)) * MILLI <= 157_854_096_000,
{
    assert(0 <= x * (3141 - x) <= 3141 * 3141) by (nonlinear_arith)
        requires
            0 <= x <= 3141,
    ;
}

/// The sine approximation stays within the unit scale on a half turn.
pub proof fn lemma_half_turn_sine_bounds(x: int)
    requires
        0 <= x <= HALF_TURN_MRAD,
    ensures
        0 <= half_turn_sine(x) <= MILLI,
{
    lemma_sine_kernel_ranges(x);
    let u = x * (HALF_TURN_MRAD - x);
    let den = 5 * HALF_TURN_MRAD * HALF_TURN_MRAD - 4 * u;
    assert(0 <= (16 * u * MILLI) / den) by (nonlinear_arith)
        requires
            0 <= u,
            den > 0,
    ;
}

/// Sine and cosine of any normalized angle stay within the unit scale.
pub proof fn lemma_sine_cosine_bounds(a: int)
    requires
        0 <= a < TAU_MRAD,
    ensures
        -MILLI <= sine(a) <= MILLI,
        -MILLI <= cosine(a) <= MILLI,
{
    if a <= HALF_TURN_MRAD {
        lemma_half_turn_sine_bounds(a);
    } else {
        lemma_half_turn_sine_bounds(a - HALF_TURN_MRAD);
    }
    let b = norm_angle(a + QUARTER_TURN_MRAD);
    assert(0 <= b < TAU_MRAD);
    if b <= HALF_TURN_MRAD {
        lemma_half_turn_sine_bounds(b);
    } else {
        lemma_half_turn_sine_bounds(b - HALF_TURN_MRAD);
    }
}

/// Normalizes any angle into `[0, TAU_MRAD)`.
pub fn normalize_angle(a: i64) -> (r: i64)
    ensures
        0 <= r < TAU_MRAD,
        r == norm_angle(a as int),
{
    let m = a % TAU_MRAD;
    if m < 0 {
        m + TAU_MRAD
    } else {
        m
    }
}

/// Computes sine and cosine of a normalized angle, scaled by `MILLI`.
pub fn sin_cos(a: i64) -> (r: (i64, i64))
    requires
        0 <= a < TAU_MRAD,
    ensures
        r.0 == sine(a as int),
        r.1 == cosine(a as int),
        -MILLI <= r.0 <= MILLI,
        -MILLI <= r.1 <= MILLI,
{
    proof {
        lemma_sine_cosine_bounds(a as int);
    }
    let s = sine_exec(a);
    let shifted = normalize_angle(a + QUARTER_TURN_MRAD);
    let c = sine_exec(shifted);
    (s, c)
}

/// Sine of a normalized angle, scaled by `MILLI`.
fn sine_exec(a: i64) -> (r: i64)
    requires
        0 <= a < TAU_MRAD,
    ensures
        r == sine(a as int),
{
    if a <= HALF_TURN_MRAD {
        half_turn_sine_exec(a)
    } else {
        let s = half_turn_sine_exec(a - HALF_TURN_MRAD);
        -s
    }
}

/// The half-turn sine kernel.
fn half_turn_sine_exec(x: i64) -> (r: i64)
    requires
        0 <= x <= HALF_TURN_MRAD,
    ensures
        r == half_turn_sine(x as int),
        0 <= r <= MILLI,
{
    proof {
        lemma_sine_kernel_ranges(x as int);
        lemma_half_turn_sine_bounds(x as int);
    }
    let u = x * (HALF_TURN_MRAD - x);
    let den = 5 * HALF_TURN_MRAD * HALF_TURN_MRAD - 4 * u;
    let raw = (16 * u * MILLI) / den;
    if raw > MILLI {
        MILLI
    } else {
        raw
    }
}

/// The arctangent kernel's value on `[0, MILLI]`: a rational
/// approximation of `atan(t / MILLI)` in milli-radians, clamped to a
/// quarter turn.
pub open spec fn atan_unit_value(t: int) -> int {
    let r = (785_000 * t + 273 * t * (MILLI - t)) / 1_000_000;
    if r > QUARTER_TURN_MRAD {
        QUARTER_TURN_MRAD as int
    } else {
        r
    }
}

/// The four-quadrant arctangent's value: the kernel on the smaller
/// coordinate ratio, reflected into the quadrant of `(y, x)` and kept
/// within `[0, TAU_MRAD)`; the origin maps to zero.
pub open spec fn atan2_value(y: int, x: int) -> int {
    let ax = if x < 0 { -x } else { x };
    let ay = if y < 0 { -y } else { y };
    if ax == 0 && ay == 0 {
        0
    } else {
        let base = if ax >= ay {
            atan_unit_value(ay * (MILLI as int) / ax)
        } else {
            QUARTER_TURN_MRAD - atan_unit_value(ax * (MILLI as int) / ay)
        };
        let angle = if x >= 0 && y >= 0 {
            base
        } else if x < 0 && y >= 0 {
            HALF_TURN_MRAD - base
        } else if x < 0 {
            HALF_TURN_MRAD + base
        } else {
            TAU_MRAD - base
        };
        if angle >= TAU_MRAD {
            0
        } else if angle < 0 {
            0
        } else {
            angle
        }
    }
}

/// Arctangent kernel on `[0, MILLI]`: `atan(t / MILLI)` in milli-radians.
/// The result lies in `[0, QUARTER_TURN_MRAD]`.
fn atan_unit(t: i64) -> (r: i64)
    requires
        0 <= t <= MILLI,
    ensures
        r == atan_unit_value(t as int),
        0 <= r <= QUARTER_TURN_MRAD,
{
    proof {
        assert(0 <= 273 * t * (1000 - t) <= 68_250_000) by (nonlinear_arith)
            requires
                0 <= t <= 1000,
        ;
    }
    let num = 785_000 * t + 273 * t * (MILLI - t);
    let r = num / 1_000_000;
    if r > QUARTER_TURN_MRAD {
        QUARTER_TURN_MRAD
    } else {
        r
    }
}

/// Four-quadrant arctangent of `(y, x)`, in milli-radians within
/// `[0, TAU_MRAD)`; the origin maps to angle zero.
pub fn atan2_mrad(y: i64, x: i64) -> (r: i64)
    requires
        -1_000_000_000 <= y <= 1_000_000_000,
        -1_000_000_000 <= x <= 1_000_000_000,
    ensures
        r == atan2_value(y as int, x as int),
        0 <= r < TAU_MRAD,
{
    let ax = if x < 0 { -x } else { x };
    let ay = if y < 0 { -y } else { y };
    if ax == 0 && ay == 0 {
        return 0;
    }
    let base: i64 = if ax >= ay {
        proof {
            assert((ay as int * 1000) / (ax as int) <= 1000) by (nonlinear_arith)
                requires
                    0 <= ay <= ax,
                    ax > 0,
            ;
            assert(0 <= (ay as int * 1000) / (ax as int)) by (nonlinear_arith)
                requires
                    0 <= ay,
                    ax > 0,
            ;
        }
        atan_unit((ay * MILLI) / ax)
    } else {
        proof {
            assert((ax as int * 1000) / (ay as int) <= 1000) by (nonlinear_arith)
                requires
                    0 <= ax <= ay,
                    ay > 0,
            ;
            assert(0 <= (ax as int * 1000) / (ay as int)) by (nonlinear_arith)
                requires
                    0 <= ax,
                    ay > 0,
            ;
        }
        QUARTER_TURN_MRAD - atan_unit((ax * MILLI) / ay)
    };
    let angle: i64 = if x >= 0 && y >= 0 {
        base
    } else if x < 0 && y >= 0 {
        HALF_TURN_MRAD - base
    } else if x < 0 {
        HALF_TURN_MRAD + base
    } else {
        TAU_MRAD - base
    };
    if angle >= TAU_MRAD {
        0
    } else if angle < 0 {
        0
    } else {
        angle
    }
}

/// Integer square root: the largest `r` with `r * r <= n`.
pub fn isqrt(n: u64) -> (r: u64)
    ensures
        r * r <= n,
        n < (r + 1) * (r + 1),
{
    let mut lo: u64 = 0;
    let mut hi: u64 = 0x1_0000_0000;
    proof {
        assert(0x1_0000_0000 * 0x1_0000_0000 > n as int) by (nonlinear_arith)
            requires
                n <= 0xffff_ffff_ffff_ffffu64,
        ;
    }
    while lo + 1 < hi
        invariant
            lo < hi,
            hi <= 0x1_0000_0000,
            lo * lo <= n,
            hi * hi > n as int,
        decreases hi - lo,
    {
        let mid = lo + (hi - lo) / 2;
        proof {
            assert(mid * mid < 0x1_0000_0000 * 0x1_0000_0000) by (nonlinear_arith)
                requires
                    0 <= mid < 0x1_0000_0000,
            ;
        }
        if mid * mid <= n {
            lo = mid;
        } else {
            hi = mid;
        }
    }
    lo
}

/// Floor of a milli-cell coordinate, as a cell index (rounds toward
/// negative infinity).
pub fn floor_cell(v: i64) -> (r: i64)
    requires
        i64::MIN + MILLI < v,
    ensures
        r == (v as int) / (MILLI as int),
{
    if v >= 0 {
        v / MILLI
    } else {
        (v - (MILLI - 1)) / MILLI
    }
}

} // verus!
