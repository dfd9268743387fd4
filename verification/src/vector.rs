//! Integer vector arithmetic: lengths and steps of a given speed towards a
//! target.
use vstd::prelude::*;
use crate::units::{in_world, Point};

verus! {

/// Fastest speed, in world units per second, that a body may have.
pub const SPEED_LIMIT: i64 = 1_000_000;

/// Whether `r` is the square root of `n`, rounded down.
pub open spec fn is_sqrt_floor(n: int, r: int) -> bool {
    0 <= r && r * r <= n < (r + 1) * (r + 1)
}

/// The square root of `n`, rounded down.
pub open spec fn isqrt(n: int) -> int {
    choose|r: int| is_sqrt_floor(n, r)
}

/// A number has at most one rounded-down square root.
pub proof fn lemma_sqrt_floor_unique(n: int, r: int, s: int)
    requires
        is_sqrt_floor(n, r),
        is_sqrt_floor(n, s),
    ensures
        r == s,
{
    if r < s {
        assert((r + 1) * (r + 1) <= s * s) by (nonlinear_arith)
            requires
                0 <= r,
                r + 1 <= s,
        ;
    } else if s < r {
        assert((s + 1) * (s + 1) <= r * r) by (nonlinear_arith)
            requires
                0 <= s,
                s + 1 <= r,
        ;
    }
}

/// Computes the square root of `n`, rounded down.
pub fn integer_sqrt(n: u64) -> (r: u64)
    requires
        n <= i64::MAX,
    ensures
        is_sqrt_floor(n as int, r as int),
        r == isqrt(n as int),
{
    let mut lo: u64 = 0;
    let mut hi: u64 = 3_037_000_500;
    assert(3_037_000_500u64 * 3_037_000_500u64 > i64::MAX) by (nonlinear_arith);
    while hi - lo > 1
        invariant
            lo < hi <= 3_037_000_500,
            lo * lo <= n < hi * hi,
        decreases hi - lo,
    {
        let mid = lo + (hi - lo) / 2;
        assert(mid * mid <= 3_037_000_500u64 * 3_037_000_500u64) by (nonlinear_arith)
            requires
                mid <= 3_037_000_500u64,
        ;
        assert(3_037_000_500u64 * 3_037_000_500u64 < u64::MAX) by (nonlinear_arith);
        if mid * mid <= n {
            lo = mid;
        } else {
            hi = mid;
        }
    }
    proof {
        assert(hi == lo + 1);
        assert(is_sqrt_floor(n as int, lo as int));
        lemma_sqrt_floor_unique(n as int, lo as int, isqrt(n as int));
    }
    lo
}

/// `a / b` rounded towards zero, for a positive `b`.
pub open spec fn div_toward_zero(a: int, b: int) -> int {
    if a >= 0 {
        a / b
    } else {
        -((-a) / b)
    }
}

/// The distance between two points, rounded down.
pub open spec fn distance(from: Point, to: Point) -> int {
    isqrt((to.x - from.x) * (to.x - from.x) + (to.y - from.y) * (to.y - from.y))
}

/// One coordinate of the step that a body of speed `speed` takes in
/// `delta_ms` milliseconds along a direction of which `d` is that coordinate
/// and `len` the length: `speed * delta_ms * d / len`, rounded towards zero.
/// A direction of no length gives no step.
pub open spec fn step_component(speed: int, delta_ms: int, d: int, len: int) -> int {
    if len <= 0 {
        0
    } else {
        div_toward_zero(speed * delta_ms * d, len)
    }
}

/// The step that a body at `from` takes towards `to` in `delta_ms`
/// milliseconds at `speed` world units per second.
pub open spec fn step_toward(from: Point, to: Point, speed: int, delta_ms: int) -> (int, int) {
    let len = distance(from, to);
    (
        step_component(speed, delta_ms, to.x - from.x, len),
        step_component(speed, delta_ms, to.y - from.y, len),
    )
}

/// The quotient of a product by a number no smaller than one of its factors
/// is no larger than the other factor.
proof fn lemma_scaled_quotient_bound(a: int, d: int, len: int)
    requires
        0 <= a,
        0 <= d <= len,
        0 < len,
    ensures
        0 <= (a * d) / len <= a,
{
    assert(0 <= a * d <= a * len) by (nonlinear_arith)
        requires
            0 <= a,
            0 <= d <= len,
    ;
    vstd::arithmetic::div_mod::lemma_div_is_ordered(a * d, a * len, len);
    vstd::arithmetic::div_mod::lemma_div_multiples_vanish(a, len);
    assert(a * len == len * a) by (nonlinear_arith);
    vstd::arithmetic::div_mod::lemma_div_pos_is_pos(a * d, len);
}

/// Computes one coordinate of a step.
fn component(speed: i64, delta_ms: u32, d: i64, len: u64) -> (step: i64)
    requires
        0 <= speed <= SPEED_LIMIT,
        -len <= d <= len,
        len <= 4_000_000_000,
    ensures
        step == step_component(speed as int, delta_ms as int, d as int, len as int),
        -(speed * delta_ms) <= step <= speed * delta_ms,
{
    if len == 0 {
        return 0;
    }
    let magnitude: u64 = if d >= 0 {
        d as u64
    } else {
        (-d) as u64
    };
    assert(0 <= speed * delta_ms <= 1_000_000 * 0xffff_ffff) by (nonlinear_arith)
        requires
            0 <= speed <= 1_000_000,
            0 <= delta_ms <= 0xffff_ffff,
    ;
    let pace: u64 = (speed as u64) * (delta_ms as u64);
    assert(pace * magnitude <= 1_000_000 * 0xffff_ffff * 4_000_000_000) by (nonlinear_arith)
        requires
            0 <= pace <= 1_000_000 * 0xffff_ffff,
            0 <= magnitude <= 4_000_000_000,
    ;
    let scaled: u128 = (pace as u128) * (magnitude as u128) / (len as u128);
    proof {
        lemma_scaled_quotient_bound(pace as int, magnitude as int, len as int);
        if d >= 0 {
            assert(speed * delta_ms * d == pace * magnitude);
        } else {
            assert(-(speed * delta_ms * d) == pace * magnitude) by (nonlinear_arith)
                requires
                    pace == speed * delta_ms,
                    magnitude == -d,
            ;
            assert(pace * magnitude >= 0) by (nonlinear_arith)
                requires
                    pace >= 0,
                    magnitude >= 0,
            ;
            if pace * magnitude == 0 {
                assert(0int / (len as int) == 0);
            }
        }
    }
    if d >= 0 {
        scaled as i64
    } else {
        -(scaled as i64)
    }
}

/// Computes the step that a body at `from` takes towards `to`.
pub fn step_towards(from: Point, to: Point, speed: i64, delta_ms: u32) -> (step: (i64, i64))
    requires
        from.wf(),
        to.wf(),
        0 <= speed <= SPEED_LIMIT,
    ensures
        (step.0 as int, step.1 as int) == step_toward(from, to, speed as int, delta_ms as int),
        -(speed * delta_ms) <= step.0 <= speed * delta_ms,
        -(speed * delta_ms) <= step.1 <= speed * delta_ms,
{
    let dx = to.x - from.x;
    let dy = to.y - from.y;
    assert(dx * dx + dy * dy <= 8_000_000_000_000_000_000) by (nonlinear_arith)
        requires
            -2_000_000_000 <= dx <= 2_000_000_000,
            -2_000_000_000 <= dy <= 2_000_000_000,
    ;
    assert(dx * dx >= 0 && dy * dy >= 0) by (nonlinear_arith);
    let len = integer_sqrt((dx * dx + dy * dy) as u64);
    proof {
        let n = dx * dx + dy * dy;
        assert(len <= 4_000_000_000) by (nonlinear_arith)
            requires
                len * len <= n,
                n <= 8_000_000_000_000_000_000,
                len >= 0,
        ;
        assert(-len <= dx <= len) by (nonlinear_arith)
            requires
                n < (len + 1) * (len + 1),
                n >= dx * dx,
                len >= 0,
        ;
        assert(-len <= dy <= len) by (nonlinear_arith)
            requires
                n < (len + 1) * (len + 1),
                n >= dy * dy,
                len >= 0,
        ;
    }
    (component(speed, delta_ms, dx, len), component(speed, delta_ms, dy, len))
}

/// Whether `a` lies closer to `b` than `radius`.
pub open spec fn within(a: Point, b: Point, radius: int) -> bool {
    (a.x - b.x) * (a.x - b.x) + (a.y - b.y) * (a.y - b.y) < radius * radius
}

/// Tests whether two points lie closer together than `radius`.
pub fn closer_than(a: Point, b: Point, radius: i64) -> (near: bool)
    requires
        a.wf(),
        b.wf(),
        0 <= radius <= 2_000_000_000,
    ensures
        near == within(a, b, radius as int),
{
    let dx = a.x - b.x;
    let dy = a.y - b.y;
    assert(0 <= dx * dx <= 4_000_000_000_000_000_000 && 0 <= dy * dy <= 4_000_000_000_000_000_000)
        by (nonlinear_arith)
        requires
            -2_000_000_000 <= dx <= 2_000_000_000,
            -2_000_000_000 <= dy <= 2_000_000_000,
    ;
    assert(0 <= radius * radius <= 4_000_000_000_000_000_000) by (nonlinear_arith)
        requires
            0 <= radius <= 2_000_000_000,
    ;
    dx * dx + dy * dy < radius * radius
}

} // verus!
