//! The player: wall-gated movement and the rooms it walks through.
use vstd::prelude::*;
use crate::units::{in_world, Point, UNIT, WORLD_LIMIT};
use crate::collision::{boxes_overlap, collide};
use crate::tilemap::{TileCollider, BODY_HALF_EXTENT, TILE_SIZE};
use crate::vector::SPEED_LIMIT;
use crate::map_gen::RoomTag;

verus! {

/// Half-extent of the player's box in contact with enemies, in sub-units.
pub const PLAYER_RADIUS: i64 = 5 * UNIT;

/// The player: where it stands, how fast it walks in world units per second,
/// and its health.
#[derive(Clone, Copy, Debug, PartialEq, Eq, Structural)]
pub struct Player {
    pub position: Point,
    pub speed: i64,
    pub health: i64,
}

impl Player {
    /// The player stands inside the world and its speed is within the limit.
    pub open spec fn wf(self) -> bool {
        self.position.wf() && 0 <= self.speed <= SPEED_LIMIT
    }
}

/// Whether a body at `target` would overlap the wall tile `wall`.
pub open spec fn blocked_by(target: Point, wall: TileCollider) -> bool {
    boxes_overlap(target, BODY_HALF_EXTENT as int, wall.position, TILE_SIZE as int)
}

/// Whether a body can stand at `target` without overlapping any of `walls`.
pub open spec fn can_occupy(target: Point, walls: Seq<TileCollider>) -> bool {
    forall|i: int| 0 <= i < walls.len() ==> !blocked_by(target, #[trigger] walls[i])
}

/// Whether every wall tile stands inside the world.
pub open spec fn walls_wf(walls: Seq<TileCollider>) -> bool {
    forall|i: int| 0 <= i < walls.len() ==> (#[trigger] walls[i]).position.wf()
}

/// Tests whether a body may move to `target_player_pos`: it may unless it
/// would overlap a wall tile there.
pub fn wall_collision_check(target_player_pos: Point, walls: &Vec<TileCollider>) -> (free: bool)
    requires
        target_player_pos.wf(),
        walls_wf(walls@),
    ensures
        free == can_occupy(target_player_pos, walls@),
{
    let mut i: usize = 0;
    while i < walls.len()
        invariant
            i <= walls@.len(),
            target_player_pos.wf(),
            walls_wf(walls@),
            forall|j: int| 0 <= j < i ==> !blocked_by(target_player_pos, #[trigger] walls@[j]),
        decreases walls@.len() - i,
    {
        assert(walls@[i as int].position.wf());
        if collide(target_player_pos, BODY_HALF_EXTENT, walls[i].position, TILE_SIZE) {
            assert(blocked_by(target_player_pos, walls@[i as int]));
            return false;
        }
        i += 1;
    }
    true
}

/// Where a body ends up that tries to move from `position` by `(dx, dy)`: at
/// the target if that lies inside the world and free of walls, else where it
/// was.
pub open spec fn moved(position: Point, dx: int, dy: int, walls: Seq<TileCollider>) -> Point {
    let target = Point { x: (position.x + dx) as i64, y: (position.y + dy) as i64 };
    if in_world(position.x + dx) && in_world(position.y + dy) && can_occupy(target, walls) {
        target
    } else {
        position
    }
}

/// Moves a body by `(dx, dy)` if the walls and the world's bounds allow it.
pub fn move_if_free(position: Point, dx: i64, dy: i64, walls: &Vec<TileCollider>) -> (end: Point)
    requires
        position.wf(),
        walls_wf(walls@),
    ensures
        end == moved(position, dx as int, dy as int, walls@),
        end.wf(),
{
    match (position.x.checked_add(dx), position.y.checked_add(dy)) {
        (Some(x), Some(y)) => {
            if -WORLD_LIMIT <= x && x <= WORLD_LIMIT && -WORLD_LIMIT <= y && y <= WORLD_LIMIT {
                let target = Point { x, y };
                if wall_collision_check(target, walls) {
                    target
                } else {
                    position
                }
            } else {
                position
            }
        },
        _ => position,
    }
}

/// Which of the four movement keys are held.
#[derive(Clone, Copy, Debug, PartialEq, Eq, Structural)]
pub struct MoveInput {
    pub up: bool,
    pub down: bool,
    pub left: bool,
    pub right: bool,
}

/// The movement asked for along one axis: `amount` forward, backward, or
/// nothing when both keys or neither are held.
pub open spec fn axis_delta(amount: int, forward: bool, backward: bool) -> int {
    (if forward { amount } else { 0int }) - (if backward { amount } else { 0int })
}

/// Where the player stands after one tick of input: it moves by its speed
/// times the elapsed time, first along x and then along y, each move made
/// only if it is free, so that the player slides along a wall.
pub open spec fn walked(player: Player, input: MoveInput, delta_ms: int, walls: Seq<TileCollider>) -> Point {
    let amount = player.speed * delta_ms;
    moved(
        moved(player.position, axis_delta(amount, input.right, input.left), 0, walls),
        0,
        axis_delta(amount, input.up, input.down),
        walls,
    )
}

/// Moves the player as the held keys ask, as far as the walls allow.
pub fn character_movement(
    player: &mut Player,
    input: MoveInput,
    delta_ms: u32,
    walls: &Vec<TileCollider>,
)
    requires
        old(player).wf(),
        walls_wf(walls@),
    ensures
        final(player).position == walked(*old(player), input, delta_ms as int, walls@),
        final(player).speed == old(player).speed,
        final(player).health == old(player).health,
        final(player).wf(),
{
    assert(0 <= player.speed * delta_ms <= 1_000_000 * 0xffff_ffff) by (nonlinear_arith)
        requires
            0 <= player.speed <= 1_000_000,
            0 <= delta_ms <= 0xffff_ffff,
    ;
    let movement_amount: i64 = player.speed * (delta_ms as i64);
    let mut y_del: i64 = 0;
    let mut x_del: i64 = 0;
    if input.up {
        y_del += movement_amount;
    }
    if input.down {
        y_del -= movement_amount;
    }
    if input.right {
        x_del += movement_amount;
    }
    if input.left {
        x_del -= movement_amount;
    }
    let along_x = move_if_free(player.position, x_del, 0, walls);
    player.position = move_if_free(along_x, 0, y_del, walls);
}

/// Whether the player stands strictly inside a room of the given size around
/// `room_location`.
pub open spec fn inside_room(player_location: Point, room_location: Point, room_width: int, room_height: int) -> bool {
    &&& player_location.x > room_location.x - room_width / 2
    &&& player_location.x < room_location.x + room_width / 2
    &&& player_location.y > room_location.y - room_height / 2
    &&& player_location.y < room_location.y + room_height / 2
}

/// Tests whether the player stands strictly inside a room.
pub fn is_inside_room(
    player_location: Point,
    room_location: Point,
    room_width: i64,
    room_height: i64,
) -> (inside: bool)
    requires
        room_location.wf(),
        0 <= room_width <= WORLD_LIMIT,
        0 <= room_height <= WORLD_LIMIT,
    ensures
        inside == inside_room(player_location, room_location, room_width as int, room_height as int),
{
    player_location.x > room_location.x - room_width / 2 && player_location.x < room_location.x
        + room_width / 2 && player_location.y > room_location.y - room_height / 2
        && player_location.y < room_location.y + room_height / 2
}

/// What happens to a room when the player is looked for in it.
#[derive(Clone, Copy, Debug, PartialEq, Eq, Structural)]
pub enum RoomAction {
    /// The player has come into the room: its walls and doorway are built
    /// and it is shown.
    Enter,
    /// The player is still in the room it was in.
    Stay,
    /// The player is elsewhere: the room is hidden.
    Hide,
}

/// Whether a room's tag can be worked with: the room lies inside the world.
pub open spec fn tag_wf(room: RoomTag) -> bool {
    &&& room.center.wf()
    &&& 0 <= room.width <= WORLD_LIMIT
    &&& 0 <= room.height <= WORLD_LIMIT
}

/// Whether the player stands strictly inside the tagged room.
pub open spec fn inside_tag(player: Point, room: RoomTag) -> bool {
    inside_room(player, room.center, room.width as int, room.height as int)
}

/// What happens to `room` with the player at `player`, when the room that the
/// player was last seen in is `prev`.
pub open spec fn room_action(player: Point, room: RoomTag, prev: Option<Point>) -> RoomAction {
    if !inside_tag(player, room) {
        RoomAction::Hide
    } else if prev == Some(room.center) {
        RoomAction::Stay
    } else {
        RoomAction::Enter
    }
}

/// The room that the player was last seen in, after the first `n` rooms have
/// been looked at.
pub open spec fn last_seen(player: Point, rooms: Seq<RoomTag>, prev: Option<Point>, n: nat) -> Option<
    Point,
>
    decreases n,
{
    if n == 0 {
        prev
    } else if inside_tag(player, rooms[n - 1]) {
        Some(rooms[n - 1].center)
    } else {
        last_seen(player, rooms, prev, (n - 1) as nat)
    }
}

/// Looks for the player in every room, in order. The room that the player
/// stands in is entered, unless the player was last seen in it; every other
/// room is hidden. `prev_room_pos` remembers the room the player was last
/// seen in.
pub fn room_enter(player: Point, rooms: &Vec<RoomTag>, prev_room_pos: &mut Option<Point>) -> (actions:
    Vec<RoomAction>)
    requires
        forall|i: int| 0 <= i < rooms@.len() ==> tag_wf(#[trigger] rooms@[i]),
    ensures
        actions@.len() == rooms@.len(),
        forall|i: int|
            0 <= i < rooms@.len() ==> #[trigger] actions@[i] == room_action(
                player,
                rooms@[i],
                last_seen(player, rooms@, *old(prev_room_pos), i as nat),
            ),
        *final(prev_room_pos) == last_seen(player, rooms@, *old(prev_room_pos), rooms@.len()),
{
    let mut actions: Vec<RoomAction> = Vec::new();
    let mut i: usize = 0;
    while i < rooms.len()
        invariant
            i <= rooms@.len(),
            actions@.len() == i,
            forall|k: int| 0 <= k < rooms@.len() ==> tag_wf(#[trigger] rooms@[k]),
            forall|k: int|
                0 <= k < i ==> #[trigger] actions@[k] == room_action(
                    player,
                    rooms@[k],
                    last_seen(player, rooms@, *old(prev_room_pos), k as nat),
                ),
            *prev_room_pos == last_seen(player, rooms@, *old(prev_room_pos), i as nat),
        decreases rooms@.len() - i,
    {
        assert(tag_wf(rooms@[i as int]));
        let center = rooms[i].center;
        if is_inside_room(player, center, rooms[i].width, rooms[i].height) {
            let seen_here = match *prev_room_pos {
                Some(prev_pos) => prev_pos.x == center.x && prev_pos.y == center.y,
                None => false,
            };
            if seen_here {
                actions.push(RoomAction::Stay);
            } else {
                actions.push(RoomAction::Enter);
            }
            *prev_room_pos = Some(center);
        } else {
            actions.push(RoomAction::Hide);
        }
        i += 1;
    }
    actions
}

} // verus!
