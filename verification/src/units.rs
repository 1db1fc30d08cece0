//! Fixed-point units and integer helpers shared by the whole simulation.

use vstd::prelude::*;

verus! {

/// The side of the square world, in thousandths of a world unit. Every point
/// that is not wall lies inside it.
pub const WORLD_SIZE: i64 = 1_024_000;

/// The fixed-point value that stands for 1 in a direction vector.
pub const ONE: i64 = 1_000_000;

/// `(x, y)` lies inside the world.
pub open spec fn in_world(x: int, y: int) -> bool {
    0 <= x < WORLD_SIZE && 0 <= y < WORLD_SIZE
}

/// Both components of a direction lie in `[-ONE, ONE]`.
pub open spec fn is_direction(hx: int, hy: int) -> bool {
    -ONE <= hx <= ONE && -ONE <= hy <= ONE
}

/// The quotient `a / d` rounded toward zero, for a positive `d`.
pub open spec fn div_trunc(a: int, d: int) -> int {
    if a >= 0 {
        a / d
    } else {
        -((-a) / d)
    }
}

/// The square of the distance between two points.
pub open spec fn sq_dist(ax: int, ay: int, bx: int, by: int) -> int {
    (ax - bx) * (ax - bx) + (ay - by) * (ay - by)
}

/// The ground covered in `dt` microseconds at `speed` world units a second,
/// in thousandths of a world unit.
pub open spec fn travel(speed: int, dt: int) -> int {
    speed * dt / 1000
}

/// The share of a step of length `len` that falls on an axis where the
/// direction has component `h`.
pub open spec fn along(h: int, len: int) -> int {
    div_trunc(h * len, ONE as int)
}

/// `r` is the integer square root of `n`: the largest `r` with `r * r <= n`.
pub open spec fn is_sqrt_floor(n: int, r: int) -> bool {
    0 <= r && r * r <= n && n < (r + 1) * (r + 1)
}

/// The integer square root of a non-negative `n`.
pub open spec fn sqrt_floor(n: int) -> int
    recommends
        n >= 0,
{
    choose|r: int| is_sqrt_floor(n, r)
}

/// Two roots that bracket the same `n` are the same root.
pub proof fn lemma_sqrt_unique(n: int, a: int, b: int)
    requires
        0 <= a,
        a * a <= n,
        n < (a + 1) * (a + 1),
        0 <= b,
        b * b <= n,
        n < (b + 1) * (b + 1),
    ensures
        a == b,
{
    if a < b {
        assert((a + 1) * (a + 1) <= b * b) by (nonlinear_arith)
            requires
                0 <= a,
                a + 1 <= b,
        ;
    } else if b < a {
        assert((b + 1) * (b + 1) <= a * a) by (nonlinear_arith)
            requires
                0 <= b,
                b + 1 <= a,
        ;
    }
}

/// Integer square root by bisection.
pub fn isqrt(n: u64) -> (r: u64)
    ensures
        r * r <= n,
        n < (r + 1) * (r + 1),
        r == sqrt_floor(n as int),
        r <= 0xFFFF_FFFF,
{
    let mut lo: u64 = 0;
    let mut hi: u64 = 0x1_0000_0000;
    assert(0x1_0000_0000u64 * 0x1_0000_0000u64 > n) by (nonlinear_arith);
    while hi - lo > 1
        invariant
            lo < hi <= 0x1_0000_0000,
            lo * lo <= n,
            n < hi * hi,
        decreases hi - lo,
    {
        let mid: u64 = lo + (hi - lo) / 2;
        assert(mid * mid <= 0xFFFF_FFFF * 0xFFFF_FFFF) by (nonlinear_arith)
            requires
                mid <= 0xFFFF_FFFF,
        ;
        if mid * mid <= n {
            lo = mid;
        } else {
            hi = mid;
        }
    }
    proof {
        let w: int = sqrt_floor(n as int);
        assert(is_sqrt_floor(n as int, lo as int));
        lemma_sqrt_unique(n as int, lo as int, w);
    }
    lo
}

/// Among non-negative lengths, the order of the squares is the order of the
/// lengths.
pub proof fn lemma_square_order(a: int, b: int)
    requires
        0 <= a,
        0 <= b,
    ensures
        a < b <==> a * a < b * b,
{
    if a < b {
        assert(a * a < b * b) by (nonlinear_arith)
            requires
                0 <= a < b,
        ;
    } else {
        assert(b * b <= a * a) by (nonlinear_arith)
            requires
                0 <= b <= a,
        ;
    }
}

/// The square of the distance between two points of the world.
pub fn sq_distance(ax: i64, ay: i64, bx: i64, by: i64) -> (d: i64)
    requires
        in_world(ax as int, ay as int),
        in_world(bx as int, by as int),
    ensures
        d == sq_dist(ax as int, ay as int, bx as int, by as int),
        0 <= d <= 2 * WORLD_SIZE * WORLD_SIZE,
{
    let dx: i64 = ax - bx;
    let dy: i64 = ay - by;
    assert(0 <= dx * dx <= WORLD_SIZE * WORLD_SIZE) by (nonlinear_arith)
        requires
            -WORLD_SIZE <= dx <= WORLD_SIZE,
    ;
    assert(0 <= dy * dy <= WORLD_SIZE * WORLD_SIZE) by (nonlinear_arith)
        requires
            -WORLD_SIZE <= dy <= WORLD_SIZE,
    ;
    dx * dx + dy * dy
}

/// The ground covered in `dt` microseconds at `speed` world units a second.
pub fn travel_len(speed: u32, dt: u32) -> (len: i64)
    requires
        speed <= 1000,
    ensures
        len == travel(speed as int, dt as int),
        0 <= len <= 0x1_0000_0000,
{
    let s: u64 = speed as u64;
    let t: u64 = dt as u64;
    assert(s * t <= 1000 * 0xFFFF_FFFF) by (nonlinear_arith)
        requires
            s <= 1000,
            t <= 0xFFFF_FFFF,
    ;
    ((s * t) / 1000) as i64
}

/// The share of a step of length `len` along an axis with component `h`.
pub fn along_axis(h: i64, len: i64) -> (r: i64)
    requires
        -ONE <= h <= ONE,
        0 <= len <= 0x1_0000_0000,
    ensures
        r == along(h as int, len as int),
        -len <= r <= len,
{
    assert(-1_000_000 * len <= h * len <= 1_000_000 * len) by (nonlinear_arith)
        requires
            -1_000_000 <= h <= 1_000_000,
            0 <= len,
    ;
    (h * len) / ONE
}

} // verus!
