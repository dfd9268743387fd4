//! The ring of wall tiles around a room, with or without gaps for doorways.
use vstd::prelude::*;
use crate::units::{in_world, Point};
use crate::tilemap::{TileCollider, TILE_SIZE};

verus! {

/// Number of tiles, one tile apart, that start before the end of a stretch of
/// the given length.
pub open spec fn tile_count(span: int) -> int {
    if span <= 0 {
        0
    } else {
        (span + TILE_SIZE - 1) / (TILE_SIZE as int)
    }
}

/// Whether a room of this size around `room_location` lies inside the world.
pub open spec fn room_in_world(width: int, height: int, room_location: Point) -> bool {
    &&& 0 <= width
    &&& 0 <= height
    &&& in_world(room_location.x - width / 2)
    &&& in_world(room_location.x + width / 2)
    &&& in_world(room_location.y - height / 2)
    &&& in_world(room_location.y + height / 2)
}

/// The lower-left corner of the room's outline.
pub open spec fn room_min(width: int, height: int, room_location: Point) -> Point {
    Point { x: (room_location.x - width / 2) as i64, y: (room_location.y - height / 2) as i64 }
}

/// The upper-right corner of the room's outline.
pub open spec fn room_max(width: int, height: int, room_location: Point) -> Point {
    Point { x: (room_location.x + width / 2) as i64, y: (room_location.y + height / 2) as i64 }
}

/// Tile `k` of the walls along the top and the bottom: the tiles come in
/// pairs, top then bottom, one tile further right with each pair.
pub open spec fn horizontal_tile(min: Point, max: Point, k: int) -> Point {
    Point { x: (min.x + (k / 2) * TILE_SIZE) as i64, y: if k % 2 == 0 { max.y } else { min.y } }
}

/// Tile `k` of the walls along the right and the left: the tiles come in
/// pairs, right then left, one tile further up with each pair.
pub open spec fn vertical_tile(min: Point, max: Point, k: int) -> Point {
    Point { x: if k % 2 == 0 { max.x } else { min.x }, y: (min.y + (k / 2) * TILE_SIZE) as i64 }
}

/// The closed ring of wall tiles around a room: first the top and bottom
/// walls, left to right, then the right and left walls, bottom to top.
pub open spec fn wall_ring(width: int, height: int, room_location: Point) -> Seq<TileCollider> {
    let min = room_min(width, height, room_location);
    let max = room_max(width, height, room_location);
    Seq::new(
        (2 * tile_count(max.x - min.x)) as nat,
        |k: int| TileCollider { position: horizontal_tile(min, max, k) },
    ) + Seq::new(
        (2 * tile_count(max.y - min.y)) as nat,
        |k: int| TileCollider { position: vertical_tile(min, max, k) },
    )
}

/// Lays the ring of wall tiles around a room.
pub fn create_walls(width: i64, height: i64, room_location: Point) -> (walls: Vec<TileCollider>)
    requires
        room_in_world(width as int, height as int, room_location),
    ensures
        walls@ == wall_ring(width as int, height as int, room_location),
        forall|i: int| 0 <= i < walls@.len() ==> (#[trigger] walls@[i]).position.wf(),
{
    let min = Point { x: room_location.x - width / 2, y: room_location.y - height / 2 };
    let max = Point { x: room_location.x + width / 2, y: room_location.y + height / 2 };
    let mut walls: Vec<TileCollider> = Vec::new();
    let mut x_wall = min.x;
    let mut y_wall = min.y;
    let ghost mut count: int = 0;
    while x_wall < max.x
        invariant
            in_world(min.x as int),
            in_world(max.x as int),
            in_world(min.y as int),
            in_world(max.y as int),
            0 <= count <= tile_count(max.x - min.x),
            x_wall == min.x + count * TILE_SIZE,
            x_wall >= max.x ==> count == tile_count(max.x - min.x),
            walls@ =~= Seq::new(
                (2 * count) as nat,
                |k: int| TileCollider { position: horizontal_tile(min, max, k) },
            ),
        decreases tile_count(max.x - min.x) - count,
    {
        assert(TILE_SIZE == 8000);
        walls.push(TileCollider { position: Point { x: x_wall, y: max.y } });
        walls.push(TileCollider { position: Point { x: x_wall, y: min.y } });
        x_wall += TILE_SIZE;
        proof {
            count = count + 1;
        }
    }
    let ghost top_bottom = walls@;
    proof {
        count = 0;
    }
    while y_wall < max.y
        invariant
            in_world(min.x as int),
            in_world(max.x as int),
            in_world(min.y as int),
            in_world(max.y as int),
            0 <= count <= tile_count(max.y - min.y),
            y_wall == min.y + count * TILE_SIZE,
            y_wall >= max.y ==> count == tile_count(max.y - min.y),
            walls@ =~= top_bottom + Seq::new(
                (2 * count) as nat,
                |k: int| TileCollider { position: vertical_tile(min, max, k) },
            ),
        decreases tile_count(max.y - min.y) - count,
    {
        assert(TILE_SIZE == 8000);
        walls.push(TileCollider { position: Point { x: max.x, y: y_wall } });
        walls.push(TileCollider { position: Point { x: min.x, y: y_wall } });
        y_wall += TILE_SIZE;
        proof {
            count = count + 1;
        }
    }
    walls
}

/// Where a room's doorway stands when nothing else is known: the middle of
/// its right-hand wall.
pub fn create_doorway(width: i64, height: i64, room_location: Point) -> (doorway: Point)
    requires
        room_in_world(width as int, height as int, room_location),
    ensures
        doorway == (Point {
            x: room_max(width as int, height as int, room_location).x,
            y: room_location.y,
        }),
{
    Point { x: room_location.x + width / 2, y: room_location.y }
}

/// Whether every doorway lies inside the world.
pub open spec fn doors_wf(doors: Seq<Point>) -> bool {
    forall|d: int| 0 <= d < doors.len() ==> (#[trigger] doors[d]).wf()
}

/// The coordinate of a doorway along a wall: `x` for the walls that run left
/// to right, `y` for those that run bottom to top.
pub open spec fn door_coordinate(door: Point, along_x: bool) -> int {
    if along_x {
        door.x as int
    } else {
        door.y as int
    }
}

/// Whether a tile at coordinate `pos` along a wall would stand in a doorway:
/// some doorway lies less than a tile away from it.
pub open spec fn door_in_way(pos: int, doors: Seq<Point>, along_x: bool) -> bool {
    exists|d: int|
        0 <= d < doors.len() && pos + TILE_SIZE > door_coordinate(#[trigger] doors[d], along_x) && pos
            < door_coordinate(doors[d], along_x) + TILE_SIZE
}

/// The first `n` pairs of top and bottom tiles, without those that would stand
/// in a doorway.
pub open spec fn gapped_horizontal(min: Point, max: Point, doors: Seq<Point>, n: nat) -> Seq<Point>
    decreases n,
{
    if n == 0 {
        Seq::empty()
    } else {
        let k = (n - 1) as nat;
        gapped_horizontal(min, max, doors, k) + if door_in_way(min.x + k * TILE_SIZE, doors, true) {
            Seq::empty()
        } else {
            seq![horizontal_tile(min, max, 2 * k as int), horizontal_tile(min, max, 2 * k as int + 1)]
        }
    }
}

/// The first `n` pairs of right and left tiles, without those that would stand
/// in a doorway.
pub open spec fn gapped_vertical(min: Point, max: Point, doors: Seq<Point>, n: nat) -> Seq<Point>
    decreases n,
{
    if n == 0 {
        Seq::empty()
    } else {
        let k = (n - 1) as nat;
        gapped_vertical(min, max, doors, k) + if door_in_way(min.y + k * TILE_SIZE, doors, false) {
            Seq::empty()
        } else {
            seq![vertical_tile(min, max, 2 * k as int), vertical_tile(min, max, 2 * k as int + 1)]
        }
    }
}

/// The ring of wall tiles around a room with its doorways left open. The top
/// and bottom walls stop one tile short of the right-hand corner.
pub open spec fn gapped_ring(width: int, height: int, room_location: Point, doors: Seq<Point>) -> Seq<
    Point,
> {
    let min = room_min(width, height, room_location);
    let max = room_max(width, height, room_location);
    gapped_horizontal(min, max, doors, tile_count(max.x - TILE_SIZE - min.x) as nat)
        + gapped_vertical(min, max, doors, tile_count(max.y - min.y) as nat)
}

/// Tests whether a wall tile at `pos` would stand in one of the doorways.
fn skip_wall(pos: i64, door_locations: &Vec<Point>, along_x: bool) -> (skip: bool)
    requires
        in_world(pos as int),
        doors_wf(door_locations@),
    ensures
        skip == door_in_way(pos as int, door_locations@, along_x),
{
    let mut d: usize = 0;
    while d < door_locations.len()
        invariant
            d <= door_locations@.len(),
            in_world(pos as int),
            doors_wf(door_locations@),
            forall|e: int|
                0 <= e < d ==> !(pos + TILE_SIZE > door_coordinate(
                    #[trigger] door_locations@[e],
                    along_x,
                ) && pos < door_coordinate(door_locations@[e], along_x) + TILE_SIZE),
        decreases door_locations@.len() - d,
    {
        assert(door_locations@[d as int].wf());
        let door = if along_x {
            door_locations[d].x
        } else {
            door_locations[d].y
        };
        if pos + TILE_SIZE > door && pos < door + TILE_SIZE {
            return true;
        }
        d += 1;
    }
    false
}

/// The wall tiles and the doorway tiles of one room.
#[derive(Clone, Debug)]
pub struct RoomLayout {
    pub walls: Vec<Point>,
    pub doorways: Vec<Point>,
}

/// Lays the wall tiles around a room, leaving out every tile that would stand
/// in one of its doorways, and puts a doorway tile on each doorway.
pub fn create_walls_and_doorway(
    width: i64,
    height: i64,
    room_location: Point,
    door_locations: &Vec<Point>,
) -> (layout: RoomLayout)
    requires
        room_in_world(width as int, height as int, room_location),
        doors_wf(door_locations@),
    ensures
        layout.walls@ == gapped_ring(width as int, height as int, room_location, door_locations@),
        layout.doorways@ == door_locations@,
{
    let min = Point { x: room_location.x - width / 2, y: room_location.y - height / 2 };
    let max = Point { x: room_location.x + width / 2, y: room_location.y + height / 2 };
    let mut walls: Vec<Point> = Vec::new();
    let mut x_wall = min.x;
    let mut y_wall = min.y;
    let ghost mut count: nat = 0;
    let ghost doors = door_locations@;
    while x_wall < max.x - TILE_SIZE
        invariant
            in_world(min.x as int),
            in_world(max.x as int),
            in_world(min.y as int),
            in_world(max.y as int),
            doors == door_locations@,
            doors_wf(doors),
            0 <= count <= tile_count(max.x - TILE_SIZE - min.x),
            x_wall == min.x + count * TILE_SIZE,
            x_wall >= max.x - TILE_SIZE ==> count == tile_count(max.x - TILE_SIZE - min.x),
            walls@ == gapped_horizontal(min, max, doors, count),
        decreases tile_count(max.x - TILE_SIZE - min.x) - count,
    {
        assert(TILE_SIZE == 8000);
        if !skip_wall(x_wall, door_locations, true) {
            walls.push(Point { x: x_wall, y: max.y });
            walls.push(Point { x: x_wall, y: min.y });
        }
        x_wall += TILE_SIZE;
        proof {
            count = count + 1;
            assert(walls@ =~= gapped_horizontal(min, max, doors, count));
        }
    }
    let ghost top_bottom = walls@;
    proof {
        count = 0;
        assert(walls@ =~= top_bottom + gapped_vertical(min, max, doors, 0));
    }
    while y_wall < max.y
        invariant
            in_world(min.x as int),
            in_world(max.x as int),
            in_world(min.y as int),
            in_world(max.y as int),
            doors == door_locations@,
            doors_wf(doors),
            0 <= count <= tile_count(max.y - min.y),
            y_wall == min.y + count * TILE_SIZE,
            y_wall >= max.y ==> count == tile_count(max.y - min.y),
            walls@ == top_bottom + gapped_vertical(min, max, doors, count),
        decreases tile_count(max.y - min.y) - count,
    {
        assert(TILE_SIZE == 8000);
        if !skip_wall(y_wall, door_locations, false) {
            walls.push(Point { x: max.x, y: y_wall });
            walls.push(Point { x: min.x, y: y_wall });
        }
        y_wall += TILE_SIZE;
        proof {
            count = count + 1;
            assert(walls@ =~= top_bottom + gapped_vertical(min, max, doors, count));
        }
    }
    let mut doorways: Vec<Point> = Vec::new();
    let mut d: usize = 0;
    while d < door_locations.len()
        invariant
            d <= door_locations@.len(),
            doorways@ == door_locations@.take(d as int),
        decreases door_locations@.len() - d,
    {
        doorways.push(door_locations[d]);
        assert(door_locations@.take(d + 1) =~= door_locations@.take(d as int).push(
            door_locations@[d as int],
        ));
        d += 1;
    }
    assert(door_locations@.take(d as int) =~= door_locations@);
    RoomLayout { walls, doorways }
}

/// No wall tile of a gapped top or bottom wall stands in a doorway.
pub proof fn lemma_gapped_horizontal_clear(min: Point, max: Point, doors: Seq<Point>, n: nat, i: int)
    requires
        0 <= i < gapped_horizontal(min, max, doors, n).len(),
        in_world(min.x as int),
        in_world(min.x + n * TILE_SIZE),
    ensures
        !door_in_way(gapped_horizontal(min, max, doors, n)[i].x as int, doors, true),
    decreases n,
{
    if n > 0 {
        let k = (n - 1) as nat;
        let rest = gapped_horizontal(min, max, doors, k);
        assert(TILE_SIZE == 8000);
        if i < rest.len() {
            lemma_gapped_horizontal_clear(min, max, doors, k, i);
        } else {
            assert((2 * k) / 2 == k && (2 * k + 1) / 2 == k);
        }
    }
}

/// No wall tile of a gapped right or left wall stands in a doorway.
pub proof fn lemma_gapped_vertical_clear(min: Point, max: Point, doors: Seq<Point>, n: nat, i: int)
    requires
        0 <= i < gapped_vertical(min, max, doors, n).len(),
        in_world(min.y as int),
        in_world(min.y + n * TILE_SIZE),
    ensures
        !door_in_way(gapped_vertical(min, max, doors, n)[i].y as int, doors, false),
    decreases n,
{
    if n > 0 {
        let k = (n - 1) as nat;
        let rest = gapped_vertical(min, max, doors, k);
        assert(TILE_SIZE == 8000);
        if i < rest.len() {
            lemma_gapped_vertical_clear(min, max, doors, k, i);
        } else {
            assert((2 * k) / 2 == k && (2 * k + 1) / 2 == k);
        }
    }
}

} // verus!
