//! Fixed-point scale and the bounds inside which all arithmetic is exact.
use vstd::prelude::*;

verus! {

/// Sub-units per world unit.
pub const UNIT: i64 = 1000;

/// Largest absolute coordinate, in sub-units, that the library works with.
pub const WORLD_LIMIT: i64 = 1_000_000_000;

/// Whether `v` is a coordinate (or a length) inside the world.
pub open spec fn in_world(v: int) -> bool {
    -(WORLD_LIMIT as int) <= v <= WORLD_LIMIT as int
}

/// A position in the plane, in sub-units.
#[derive(Clone, Copy, Debug, PartialEq, Eq, Structural)]
pub struct Point {
    pub x: i64,
    pub y: i64,
}

impl Point {
    /// Both coordinates lie inside the world.
    pub open spec fn wf(self) -> bool {
        in_world(self.x as int) && in_world(self.y as int)
    }

    /// The point `(x, y)`, or `None` if it lies outside the world.
    pub fn new(x: i64, y: i64) -> (p: Option<Point>)
        ensures
            p == (if in_world(x as int) && in_world(y as int) {
                Some(Point { x, y })
            } else {
                None
            }),
    {
        if -WORLD_LIMIT <= x && x <= WORLD_LIMIT && -WORLD_LIMIT <= y && y <= WORLD_LIMIT {
            Some(Point { x, y })
        } else {
            None
        }
    }
}

/// `value` held to the range of a 64-bit count, such as health or money.
pub open spec fn clamped(value: int) -> int {
    if value < i64::MIN {
        i64::MIN as int
    } else if value > i64::MAX {
        i64::MAX as int
    } else {
        value
    }
}

/// Subtracts, stopping at the ends of the range.
pub fn clamped_sub(a: i64, b: i64) -> (r: i64)
    ensures
        r == clamped(a - b),
{
    match a.checked_sub(b) {
        Some(r) => r,
        None => if b > 0 {
            i64::MIN
        } else {
            i64::MAX
        },
    }
}

/// Adds, stopping at the ends of the range.
pub fn clamped_add(a: i64, b: i64) -> (r: i64)
    ensures
        r == clamped(a + b),
{
    match a.checked_add(b) {
        Some(r) => r,
        None => if b > 0 {
            i64::MAX
        } else {
            i64::MIN
        },
    }
}

} // verus!
