//! Fixed-point sine and cosine on integer angles.
//!
//! Angles are microradians. A half turn is `PI`, chosen even so that a quarter
//! turn is exact. Results are scaled by `ONE`, the fixed-point one. The curve is Bhaskara's
//! rational approximation of the sine, which is exact at every quarter turn
//! and within two thousandths elsewhere.

use crate::units::ONE;
use vstd::prelude::*;

verus! {

/// A half turn, in microradians.
pub const PI: i64 = 3_141_592;

/// A quarter turn.
pub const HALF_PI: i64 = 1_570_796;

/// A full turn.
pub const TAU: i64 = 6_283_184;

/// The angle in `[0, TAU)` that points the same way as `angle`.
pub open spec fn normalize(angle: int) -> int {
    angle % (TAU as int)
}

/// The sine of `x` for `0 <= x <= PI`.
#[verifier::opaque]
pub open spec fn half_wave(x: int) -> int {
    let p = x * (PI - x);
    (4 * p * ONE) / (5 * HALF_PI * HALF_PI - p)
}

/// The sine of `angle`, scaled by `ONE`.
pub open spec fn sin_fp(angle: int) -> int {
    let t = normalize(angle);
    if t <= PI {
        half_wave(t)
    } else {
        -half_wave(t - PI)
    }
}

/// The cosine of `angle`, scaled by `ONE`.
pub open spec fn cos_fp(angle: int) -> int {
    sin_fp(angle + HALF_PI)
}

/// On a half turn the product `x * (PI - x)` peaks at the quarter turn.
pub proof fn lemma_arc_product(x: int)
    requires
        0 <= x <= PI,
    ensures
        0 <= x * (PI - x) <= HALF_PI * HALF_PI,
{
    let h: int = HALF_PI as int;
    assert(0 <= x * (2 * h - x) <= h * h) by (nonlinear_arith)
        requires
            0 <= x <= 2 * h,
    ;
}

/// The half wave stays between 0 and `ONE`.
pub proof fn lemma_half_wave_bounds(x: int)
    requires
        0 <= x <= PI,
    ensures
        0 <= half_wave(x) <= ONE,
{
    reveal(half_wave);
    lemma_arc_product(x);
    let p: int = x * (PI - x);
    let d: int = 5 * HALF_PI * HALF_PI - p;
    let n: int = 4 * p * ONE;
    assert(d > 0);
    assert(0 <= n <= ONE * d);
    assert(0 <= n / d <= ONE) by (nonlinear_arith)
        requires
            d > 0,
            0 <= n <= ONE * d,
    ;
}

/// Sine and cosine never leave `[-ONE, ONE]`.
pub proof fn lemma_trig_bounds(angle: int)
    ensures
        -ONE <= sin_fp(angle) <= ONE,
        -ONE <= cos_fp(angle) <= ONE,
{
    lemma_sin_bounds(angle);
    lemma_sin_bounds(angle + HALF_PI);
}

proof fn lemma_sin_bounds(angle: int)
    ensures
        -ONE <= sin_fp(angle) <= ONE,
{
    let t: int = normalize(angle);
    if t <= PI {
        lemma_half_wave_bounds(t);
    } else {
        lemma_half_wave_bounds(t - PI);
    }
}

/// What the sine is at least, an eighth of a turn to either side of its peak.
pub const SIN_EIGHTH: i64 = 705_882;

/// Within an eighth of a turn of its peak the half wave is at least
/// `SIN_EIGHTH`.
pub proof fn lemma_half_wave_near_peak(x: int)
    requires
        HALF_PI / 2 <= x <= HALF_PI + HALF_PI / 2,
    ensures
        half_wave(x) >= SIN_EIGHTH,
{
    reveal(half_wave);
    lemma_arc_product(x);
    let h: int = HALF_PI as int;
    let p: int = x * (PI - x);
    assert(4 * (x * (2 * h - x)) >= 3 * (h * h)) by (nonlinear_arith)
        requires
            2 * x >= h,
            2 * x <= 3 * h,
            h >= 0,
    ;
    let hh: int = h * h;
    assert(hh == 2_467_400_073_616) by (nonlinear_arith)
        requires
            hh == h * h,
            h == 1_570_796,
    ;
    let d: int = 5 * HALF_PI * HALF_PI - p;
    let n: int = 4 * p * ONE;
    assert(d == 5 * hh - p);
    assert(d > 0);
    assert(n >= SIN_EIGHTH * d);
    assert(n / d >= SIN_EIGHTH) by (nonlinear_arith)
        requires
            d > 0,
            n >= SIN_EIGHTH * d,
    ;
}

/// Within an eighth of a turn of straight ahead the cosine is at least
/// `SIN_EIGHTH`.
pub proof fn lemma_cos_near_zero(angle: int)
    requires
        -HALF_PI / 2 <= angle <= HALF_PI / 2,
    ensures
        cos_fp(angle) >= SIN_EIGHTH,
{
    lemma_half_wave_near_peak(angle + HALF_PI);
}

/// No direction is far from an axis: of sine and cosine, one is at least
/// `SIN_EIGHTH` in size.
pub proof fn lemma_long_axis(angle: int)
    ensures
        sin_fp(angle) >= SIN_EIGHTH || sin_fp(angle) <= -SIN_EIGHTH || cos_fp(angle) >= SIN_EIGHTH
            || cos_fp(angle) <= -SIN_EIGHTH,
{
    let t: int = normalize(angle);
    let u: int = normalize(angle + HALF_PI);
    assert(u == if t + HALF_PI < TAU { t + HALF_PI } else { t + HALF_PI - TAU });
    let e: int = HALF_PI / 2;
    if e <= t <= 3 * e {
        lemma_half_wave_near_peak(t);
    } else if 5 * e <= t <= 7 * e {
        lemma_half_wave_near_peak(t - PI);
    } else if e <= u <= 3 * e {
        lemma_half_wave_near_peak(u);
    } else {
        assert(5 * e <= u <= 7 * e);
        lemma_half_wave_near_peak(u - PI);
    }
}

/// The curve is exact at the four quarter turns.
pub proof fn lemma_quarter_turns()
    ensures
        sin_fp(0) == 0,
        sin_fp(HALF_PI as int) == ONE,
        sin_fp(PI as int) == 0,
        sin_fp(PI + HALF_PI) == -ONE,
        cos_fp(0) == ONE,
        cos_fp(HALF_PI as int) == 0,
        cos_fp(PI as int) == -ONE,
        cos_fp(PI + HALF_PI) == 0,
{
    reveal(half_wave);
    assert(half_wave(0) == 0);
    assert(half_wave(PI as int) == 0);
    assert(half_wave(HALF_PI as int) == ONE) by {
        let p: int = HALF_PI * (PI - HALF_PI);
        assert(p == 2_467_400_073_616) by (nonlinear_arith)
            requires
                p == 1_570_796 * (3_141_592 - 1_570_796),
        ;
        assert(5 * HALF_PI * HALF_PI - p == 9_869_600_294_464);
        assert(4 * p * ONE == 9_869_600_294_464_000_000);
    }
}

/// A full turn changes neither sine nor cosine.
pub proof fn lemma_full_turn(angle: int)
    ensures
        sin_fp(angle + TAU) == sin_fp(angle),
        cos_fp(angle + TAU) == cos_fp(angle),
        sin_fp(normalize(angle)) == sin_fp(angle),
        cos_fp(normalize(angle)) == cos_fp(angle),
{
    assert(normalize(angle + TAU) == normalize(angle));
    assert(normalize(normalize(angle)) == normalize(angle));
    assert(normalize(angle + TAU + HALF_PI) == normalize(angle + HALF_PI));
    assert(normalize(normalize(angle) + HALF_PI) == normalize(angle + HALF_PI));
}

/// Brings any angle into `[0, TAU)`.
pub fn normalize_angle(angle: i64) -> (r: i64)
    ensures
        r == normalize(angle as int),
        0 <= r < TAU,
{
    let m: i64 = angle % TAU;
    if m < 0 {
        m + TAU
    } else {
        m
    }
}

fn half_wave_exec(x: i64) -> (r: i64)
    requires
        0 <= x <= PI,
    ensures
        r == half_wave(x as int),
        0 <= r <= ONE,
{
    proof {
        reveal(half_wave);
        lemma_arc_product(x as int);
        lemma_half_wave_bounds(x as int);
    }
    let y: i64 = PI - x;
    assert(x * y == x * (PI - x));
    let p: u64 = (x * y) as u64;
    let num: u64 = 4 * p * 1_000_000;
    let den: u64 = 5 * 2_467_400_073_616 - p;
    assert(5 * HALF_PI * HALF_PI == 5 * 2_467_400_073_616);
    (num / den) as i64
}

/// The sine of `angle`, scaled by `ONE`.
pub fn sin(angle: i64) -> (r: i64)
    ensures
        r == sin_fp(angle as int),
        -ONE <= r <= ONE,
{
    let t: i64 = normalize_angle(angle);
    if t <= PI {
        half_wave_exec(t)
    } else {
        -half_wave_exec(t - PI)
    }
}

/// The cosine of `angle`, scaled by `ONE`.
pub fn cos(angle: i64) -> (r: i64)
    ensures
        r == cos_fp(angle as int),
        -ONE <= r <= ONE,
{
    let t: i64 = normalize_angle(angle);
    proof {
        lemma_full_turn(angle as int);
    }
    sin(t + HALF_PI)
}

} // verus!
