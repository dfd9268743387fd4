use shape_battle::map_gen::RoomTag;
use shape_battle::player::{
    character_movement, is_inside_room, move_if_free, room_enter, wall_collision_check, MoveInput,
    Player, RoomAction, PLAYER_RADIUS,
};
use shape_battle::tilemap::TileCollider;
use shape_battle::units::{Point, UNIT, WORLD_LIMIT};

fn at(x: i64, y: i64) -> Point {
    Point { x, y }
}

fn wall(x: i64, y: i64) -> TileCollider {
    TileCollider { position: at(x, y) }
}

fn keys(up: bool, down: bool, left: bool, right: bool) -> MoveInput {
    MoveInput { up, down, left, right }
}

fn tag(x: i64, y: i64, width: i64, height: i64) -> RoomTag {
    RoomTag {
        center: at(x, y),
        width,
        height,
        is_left_edge: false,
        is_right_edge: false,
        is_top_edge: false,
        is_bottom_edge: false,
        doors: Vec::new(),
    }
}

#[test]
fn the_player_is_five_units_wide_either_way() {
    assert_eq!(PLAYER_RADIUS, 5 * UNIT);
}

#[test]
fn a_target_overlapping_a_wall_cannot_be_occupied() {
    let walls = vec![wall(50_000, 50_000), wall(0, 0)];
    assert!(!wall_collision_check(at(0, 0), &walls));
    assert!(!wall_collision_check(at(15_199, 0), &walls));
    assert!(!wall_collision_check(at(-15_199, 15_199), &walls));
    assert!(!wall_collision_check(at(50_000, 34_801), &walls));
}

#[test]
fn a_target_outside_every_wall_can_be_occupied() {
    let walls = vec![wall(50_000, 50_000), wall(0, 0)];
    assert!(wall_collision_check(at(15_200, 0), &walls));
    assert!(wall_collision_check(at(0, -15_200), &walls));
    assert!(wall_collision_check(at(15_200, 15_200), &walls));
    assert!(wall_collision_check(at(25_000, 25_000), &walls));
    assert!(wall_collision_check(at(0, 0), &Vec::new()));
}

#[test]
fn a_wall_anywhere_in_the_list_blocks() {
    let mut walls = Vec::new();
    for k in 0..50 {
        walls.push(wall(100_000 + k * 8_000, 0));
    }
    assert!(wall_collision_check(at(0, 0), &walls));
    walls.push(wall(1_000, 1_000));
    assert!(!wall_collision_check(at(0, 0), &walls));
}

#[test]
fn move_if_free_moves_unless_blocked() {
    let walls = vec![wall(20_000, 0)];
    assert_eq!(move_if_free(at(0, 0), 4_000, 0, &walls), at(4_000, 0));
    assert_eq!(move_if_free(at(0, 0), 5_000, 0, &walls), at(0, 0));
    assert_eq!(move_if_free(at(0, 0), 4_800, 0, &walls), at(4_800, 0));
    assert_eq!(move_if_free(at(0, 0), 4_801, 0, &walls), at(0, 0));
    assert_eq!(move_if_free(at(0, 0), 0, -7, &walls), at(0, -7));
}

#[test]
fn move_if_free_stays_inside_the_world() {
    let walls = Vec::new();
    assert_eq!(move_if_free(at(WORLD_LIMIT - 1, 0), 1, 0, &walls), at(WORLD_LIMIT, 0));
    assert_eq!(move_if_free(at(WORLD_LIMIT - 1, 0), 2, 0, &walls), at(WORLD_LIMIT - 1, 0));
    assert_eq!(move_if_free(at(0, 0), i64::MAX, 0, &walls), at(0, 0));
    assert_eq!(move_if_free(at(-5, 0), i64::MIN, i64::MIN, &walls), at(-5, 0));
}

#[test]
fn the_player_walks_at_its_speed() {
    let mut player = Player { position: at(0, 0), speed: 100, health: 10 };
    character_movement(&mut player, keys(true, false, false, true), 16, &Vec::new());
    assert_eq!(player, Player { position: at(1_600, 1_600), speed: 100, health: 10 });
    character_movement(&mut player, keys(false, true, true, false), 10, &Vec::new());
    assert_eq!(player.position, at(600, 600));
    character_movement(&mut player, keys(false, false, false, false), 10, &Vec::new());
    assert_eq!(player.position, at(600, 600));
}

#[test]
fn opposite_keys_cancel() {
    let mut player = Player { position: at(0, 0), speed: 100, health: 10 };
    character_movement(&mut player, keys(true, true, true, true), 16, &Vec::new());
    assert_eq!(player.position, at(0, 0));
    character_movement(&mut player, keys(true, true, false, true), 16, &Vec::new());
    assert_eq!(player.position, at(1_600, 0));
}

#[test]
fn the_player_slides_along_a_wall() {
    let walls = vec![wall(16_000, 0), wall(16_000, 8_000), wall(16_000, 16_000)];
    let mut player = Player { position: at(0, 0), speed: 100, health: 10 };
    character_movement(&mut player, keys(true, false, false, true), 10, &walls);
    assert_eq!(player.position, at(0, 1_000));
    let mut other = Player { position: at(0, 0), speed: 100, health: 10 };
    character_movement(&mut other, keys(false, false, false, true), 8, &walls);
    assert_eq!(other.position, at(800, 0));
    character_movement(&mut other, keys(false, false, false, true), 1, &walls);
    assert_eq!(other.position, at(800, 0));
}

#[test]
fn a_room_holds_what_lies_strictly_inside() {
    assert!(is_inside_room(at(0, 0), at(0, 0), 10_000, 6_000));
    assert!(is_inside_room(at(4_999, -2_999), at(0, 0), 10_000, 6_000));
    assert!(!is_inside_room(at(5_000, 0), at(0, 0), 10_000, 6_000));
    assert!(!is_inside_room(at(0, -3_000), at(0, 0), 10_000, 6_000));
    assert!(!is_inside_room(at(-5_000, 0), at(0, 0), 10_000, 6_000));
    assert!(is_inside_room(at(102, 50), at(100, 50), 7, 3));
    assert!(!is_inside_room(at(103, 50), at(100, 50), 7, 3));
    assert!(!is_inside_room(at(0, 0), at(0, 0), 0, 0));
    assert!(!is_inside_room(at(i64::MAX, i64::MIN), at(0, 0), WORLD_LIMIT, WORLD_LIMIT));
}

#[test]
fn entering_a_room_is_told_once() {
    let rooms = vec![tag(0, 0, 10_000, 10_000), tag(10_000, 0, 10_000, 10_000)];
    let mut prev = None;
    assert_eq!(room_enter(at(1_000, 0), &rooms, &mut prev), vec![RoomAction::Enter, RoomAction::Hide]);
    assert_eq!(prev, Some(at(0, 0)));
    assert_eq!(room_enter(at(2_000, 0), &rooms, &mut prev), vec![RoomAction::Stay, RoomAction::Hide]);
    assert_eq!(prev, Some(at(0, 0)));
    assert_eq!(room_enter(at(6_000, 0), &rooms, &mut prev), vec![RoomAction::Hide, RoomAction::Enter]);
    assert_eq!(prev, Some(at(10_000, 0)));
    assert_eq!(room_enter(at(1_000, 0), &rooms, &mut prev), vec![RoomAction::Enter, RoomAction::Hide]);
}

#[test]
fn a_player_in_no_room_hides_them_all() {
    let rooms = vec![tag(0, 0, 10_000, 10_000), tag(10_000, 0, 10_000, 10_000)];
    let mut prev = Some(at(10_000, 0));
    assert_eq!(room_enter(at(5_000, 0), &rooms, &mut prev), vec![RoomAction::Hide, RoomAction::Hide]);
    assert_eq!(prev, Some(at(10_000, 0)));
    let mut none = None;
    assert_eq!(room_enter(at(5_000, 0), &Vec::new(), &mut none), Vec::new());
    assert_eq!(none, None);
}

#[test]
fn rooms_that_overlap_are_entered_in_turn() {
    let rooms = vec![tag(0, 0, 10_000, 10_000), tag(2_000, 0, 10_000, 10_000)];
    let mut prev = None;
    assert_eq!(room_enter(at(1_000, 0), &rooms, &mut prev), vec![RoomAction::Enter, RoomAction::Enter]);
    assert_eq!(prev, Some(at(2_000, 0)));
    assert_eq!(room_enter(at(1_000, 0), &rooms, &mut prev), vec![RoomAction::Enter, RoomAction::Enter]);
}
