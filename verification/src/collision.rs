//! Overlap of axis-aligned boxes.
use vstd::prelude::*;
use crate::units::{in_world, Point, WORLD_LIMIT};

verus! {

/// Whether two axis-aligned square boxes overlap. Each is given by its centre
/// and its half-extent; boxes that only touch do not overlap.
pub open spec fn boxes_overlap(a: Point, a_half: int, b: Point, b_half: int) -> bool {
    &&& a.x - a_half < b.x + b_half
    &&& a.x + a_half > b.x - b_half
    &&& a.y - a_half < b.y + b_half
    &&& a.y + a_half > b.y - b_half
}

/// Tests two boxes for overlap.
pub fn collide(a: Point, a_half: i64, b: Point, b_half: i64) -> (hit: bool)
    requires
        a.wf(),
        b.wf(),
        in_world(a_half as int),
        in_world(b_half as int),
    ensures
        hit == boxes_overlap(a, a_half as int, b, b_half as int),
{
    a.x - a_half < b.x + b_half && a.x + a_half > b.x - b_half && a.y - a_half < b.y + b_half
        && a.y + a_half > b.y - b_half
}

/// Overlap does not depend on the order of the two boxes.
pub proof fn lemma_overlap_symmetric(a: Point, a_half: int, b: Point, b_half: int)
    ensures
        boxes_overlap(a, a_half, b, b_half) == boxes_overlap(b, b_half, a, a_half),
{
}

} // verus!
