//! Wall tiles and their size.
use vstd::prelude::*;
use crate::units::{Point, UNIT};

verus! {

/// Side of a wall tile, and the half-extent of its collision box, in sub-units.
pub const TILE_SIZE: i64 = 8 * UNIT;

/// Half-extent of the box that a moving body is tested with against the
/// walls: nine tenths of a tile.
pub const BODY_HALF_EXTENT: i64 = 7200;

/// The body's half-extent is nine tenths of a tile, to the sub-unit.
pub proof fn lemma_body_is_nine_tenths_of_a_tile()
    ensures
        10 * BODY_HALF_EXTENT == 9 * TILE_SIZE,
{
}

/// What blocks movement: a wall tile, known by where it stands.
#[derive(Clone, Copy, Debug, PartialEq, Eq, Structural)]
pub struct TileCollider {
    pub position: Point,
}

} // verus!
