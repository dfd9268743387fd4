//! Doorways between rooms that share a stretch of boundary.
use vstd::prelude::*;
use crate::units::{Point, UNIT};
use crate::map_gen::Leaf;

verus! {

/// How far apart two facing sides may lie and still count as one boundary.
pub const DOOR_TOLERANCE: i64 = UNIT;

/// Whether two boundary coordinates lie within the tolerance of each other.
pub open spec fn touches(a: int, b: int) -> bool {
    a - b <= DOOR_TOLERANCE && b - a <= DOOR_TOLERANCE
}

/// The midpoint of the stretch that the spans `[a_lo, a_hi]` and `[b_lo, b_hi]`
/// have in common, if that stretch has any length.
pub open spec fn shared_midpoint(a_lo: int, a_hi: int, b_lo: int, b_hi: int) -> Option<int> {
    let lo = if a_lo >= b_lo { a_lo } else { b_lo };
    let hi = if a_hi <= b_hi { a_hi } else { b_hi };
    if lo < hi {
        Some(lo + (hi - lo) / 2)
    } else {
        None
    }
}

/// The side of a room on which a doorway lies.
#[derive(Clone, Copy, Debug, PartialEq, Eq, Structural)]
pub enum Side {
    Top,
    Right,
    Bottom,
    Left,
}

/// The doorway on `side` of `room` towards `other`: the two rooms must face
/// each other across that side, within the tolerance, and share a stretch of
/// it; the doorway is the middle of that stretch, on `room`'s own side.
pub open spec fn door_on(room: Leaf, other: Leaf, side: Side) -> Option<Point> {
    let across = shared_midpoint(
        room.x as int,
        room.x + room.width,
        other.x as int,
        other.x + other.width,
    );
    let along = shared_midpoint(
        room.y as int,
        room.y + room.height,
        other.y as int,
        other.y + other.height,
    );
    match side {
        Side::Top => if touches(room.y + room.height, other.y as int) && across is Some {
            Some(Point { x: across->0 as i64, y: (room.y + room.height) as i64 })
        } else {
            None
        },
        Side::Right => if touches(room.x + room.width, other.x as int) && along is Some {
            Some(Point { x: (room.x + room.width) as i64, y: along->0 as i64 })
        } else {
            None
        },
        Side::Bottom => if touches(room.y as int, other.y + other.height) && across is Some {
            Some(Point { x: across->0 as i64, y: room.y })
        } else {
            None
        },
        Side::Left => if touches(room.x as int, other.x + other.width) && along is Some {
            Some(Point { x: room.x, y: along->0 as i64 })
        } else {
            None
        },
    }
}

/// A doorway as a list of none or one.
pub open spec fn door_seq(door: Option<Point>) -> Seq<Point> {
    match door {
        Some(p) => seq![p],
        None => Seq::empty(),
    }
}

/// The doorways of `room` towards `other`, in the order top, right, bottom,
/// left.
pub open spec fn door_positions(room: Leaf, other: Leaf) -> Seq<Point> {
    door_seq(door_on(room, other, Side::Top)) + door_seq(door_on(room, other, Side::Right))
        + door_seq(door_on(room, other, Side::Bottom)) + door_seq(
        door_on(room, other, Side::Left),
    )
}

/// The side of the other room that faces `side`.
pub open spec fn facing(side: Side) -> Side {
    match side {
        Side::Top => Side::Bottom,
        Side::Right => Side::Left,
        Side::Bottom => Side::Top,
        Side::Left => Side::Right,
    }
}

/// Whether two points lie within the tolerance of each other on both axes.
pub open spec fn near(p: Point, q: Point) -> bool {
    touches(p.x as int, q.x as int) && touches(p.y as int, q.y as int)
}

/// Whether some doorway of `doors` lies within the tolerance of `p`.
pub open spec fn has_twin(p: Point, doors: Seq<Point>) -> bool {
    exists|j: int| 0 <= j < doors.len() && near(p, #[trigger] doors[j])
}

/// The midpoint of what two spans share, computed.
fn span_midpoint(a_lo: i64, a_hi: i64, b_lo: i64, b_hi: i64) -> (mid: Option<i64>)
    requires
        crate::units::in_world(a_lo as int),
        crate::units::in_world(a_hi as int),
        crate::units::in_world(b_lo as int),
        crate::units::in_world(b_hi as int),
    ensures
        mid is Some == shared_midpoint(a_lo as int, a_hi as int, b_lo as int, b_hi as int) is Some,
        mid matches Some(m) ==> shared_midpoint(a_lo as int, a_hi as int, b_lo as int, b_hi as int)
            == Some(m as int),
{
    let lo = if a_lo >= b_lo { a_lo } else { b_lo };
    let hi = if a_hi <= b_hi { a_hi } else { b_hi };
    if lo < hi {
        Some(lo + (hi - lo) / 2)
    } else {
        None
    }
}

fn within_tolerance(a: i64, b: i64) -> (close: bool)
    requires
        crate::units::in_world(a as int),
        crate::units::in_world(b as int),
    ensures
        close == touches(a as int, b as int),
{
    a - b <= DOOR_TOLERANCE && b - a <= DOOR_TOLERANCE
}

/// Finds the doorways of `leaf` towards `other_leaf`: one for each side of
/// `leaf` across which the two rooms share a stretch of boundary.
pub fn calculate_door_positions(leaf: &Leaf, other_leaf: &Leaf) -> (doors: Vec<Point>)
    requires
        leaf.wf(),
        other_leaf.wf(),
    ensures
        doors@ == door_positions(*leaf, *other_leaf),
{
    let mut doors: Vec<Point> = Vec::new();
    let leaf_left_x = leaf.x;
    let leaf_right_x = leaf.x + leaf.width;
    let other_leaf_left_x = other_leaf.x;
    let other_leaf_right_x = other_leaf.x + other_leaf.width;
    let leaf_bottom_y = leaf.y;
    let leaf_top_y = leaf.y + leaf.height;
    let other_leaf_bottom_y = other_leaf.y;
    let other_leaf_top_y = other_leaf.y + other_leaf.height;
    let across = span_midpoint(leaf_left_x, leaf_right_x, other_leaf_left_x, other_leaf_right_x);
    let along = span_midpoint(leaf_bottom_y, leaf_top_y, other_leaf_bottom_y, other_leaf_top_y);

    if within_tolerance(leaf_top_y, other_leaf_bottom_y) {
        if let Some(x) = across {
            doors.push(Point { x, y: leaf_top_y });
        }
    }
    assert(doors@ =~= door_seq(door_on(*leaf, *other_leaf, Side::Top)));
    if within_tolerance(leaf_right_x, other_leaf_left_x) {
        if let Some(y) = along {
            doors.push(Point { x: leaf_right_x, y });
        }
    }
    assert(doors@ =~= door_seq(door_on(*leaf, *other_leaf, Side::Top)) + door_seq(
        door_on(*leaf, *other_leaf, Side::Right),
    ));
    if within_tolerance(leaf_bottom_y, other_leaf_top_y) {
        if let Some(x) = across {
            doors.push(Point { x, y: leaf_bottom_y });
        }
    }
    assert(doors@ =~= door_seq(door_on(*leaf, *other_leaf, Side::Top)) + door_seq(
        door_on(*leaf, *other_leaf, Side::Right),
    ) + door_seq(door_on(*leaf, *other_leaf, Side::Bottom)));
    if within_tolerance(leaf_left_x, other_leaf_right_x) {
        if let Some(y) = along {
            doors.push(Point { x: leaf_left_x, y });
        }
    }
    assert(doors@ =~= door_positions(*leaf, *other_leaf));
    doors
}

/// Doorway detection does not depend on which room is asked: a doorway on one
/// side of `a` towards `b` has a twin on the facing side of `b` towards `a`,
/// at the same place along the boundary and within the tolerance across it.
pub proof fn lemma_door_symmetric(a: Leaf, b: Leaf, side: Side)
    requires
        a.wf(),
        b.wf(),
    ensures
        door_on(a, b, side) is Some <==> door_on(b, a, facing(side)) is Some,
        door_on(a, b, side) is Some ==> near(door_on(a, b, side)->0, door_on(b, a, facing(side))->0),
{
}

/// Swapping the two rooms yields as many doorways, and each doorway found one
/// way round lies within the tolerance of one found the other way round.
pub proof fn lemma_door_positions_symmetric(a: Leaf, b: Leaf)
    requires
        a.wf(),
        b.wf(),
    ensures
        door_positions(a, b).len() == door_positions(b, a).len(),
        forall|i: int|
            0 <= i < door_positions(a, b).len() ==> has_twin(
                #[trigger] door_positions(a, b)[i],
                door_positions(b, a),
            ),
{
    lemma_door_symmetric(a, b, Side::Top);
    lemma_door_symmetric(a, b, Side::Right);
    lemma_door_symmetric(a, b, Side::Bottom);
    lemma_door_symmetric(a, b, Side::Left);
    let ab = door_positions(a, b);
    let ba = door_positions(b, a);
    let t = door_seq(door_on(a, b, Side::Top)).len() as int;
    let r = door_seq(door_on(a, b, Side::Right)).len() as int;
    let bt = door_seq(door_on(a, b, Side::Bottom)).len() as int;
    let l = door_seq(door_on(a, b, Side::Left)).len() as int;
    assert forall|i: int| 0 <= i < ab.len() implies has_twin(#[trigger] ab[i], ba) by {
        // In `ba` the twins come in the order bottom, left, top, right.
        let j = if i < t {
            // a top doorway of `a`: the bottom doorway of `b`
            bt + l
        } else if i < t + r {
            // a right doorway of `a`: the left doorway of `b`
            bt + l + t
        } else if i < t + r + bt {
            // a bottom doorway of `a`: the top doorway of `b`
            0
        } else {
            // a left doorway of `a`: the right doorway of `b`
            bt
        };
        assert(0 <= j < ba.len());
        assert(near(ab[i], ba[j]));
    }
}

} // verus!
