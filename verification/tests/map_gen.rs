use rand::rngs::StdRng;
use rand::SeedableRng;
use shape_battle::map_gen::{
    generate, partition, room_tags, terminal_rooms, Axis, Leaf, RoomTag, MAX_LEAF_SIZE, MIN_LEAF_SIZE,
};
use shape_battle::units::{Point, UNIT, WORLD_LIMIT};

fn leaf(x: i64, y: i64, width: i64, height: i64) -> Leaf {
    Leaf { x, y, width, height, child_split: false }
}

fn can_split(room: &Leaf, axis: Axis, min: i64) -> bool {
    let side = match axis {
        Axis::Width => room.width,
        Axis::Height => room.height,
    };
    side - min > min
}

fn blocked(room: &Leaf, min: i64) -> bool {
    !can_split(room, room.split_axis(true), min) || !can_split(room, room.split_axis(false), min)
}

fn bounds(tag: &RoomTag) -> Leaf {
    leaf(tag.center.x - tag.width / 2, tag.center.y - tag.height / 2, tag.width, tag.height)
}

#[test]
fn leaf_new_accepts_a_room_inside_the_world() {
    assert_eq!(Leaf::new(-5, 7, 10, 20), Some(leaf(-5, 7, 10, 20)));
    assert_eq!(
        Leaf::new(-WORLD_LIMIT, -WORLD_LIMIT, 2 * WORLD_LIMIT, 2 * WORLD_LIMIT),
        Some(leaf(-WORLD_LIMIT, -WORLD_LIMIT, 2 * WORLD_LIMIT, 2 * WORLD_LIMIT))
    );
}

#[test]
fn leaf_new_rejects_empty_and_outsized_rooms() {
    assert_eq!(Leaf::new(0, 0, 0, 10), None);
    assert_eq!(Leaf::new(0, 0, 10, -1), None);
    assert_eq!(Leaf::new(WORLD_LIMIT, 0, 1, 1), None);
    assert_eq!(Leaf::new(0, -WORLD_LIMIT - 1, 1, 1), None);
    assert_eq!(Leaf::new(0, 0, i64::MAX, 1), None);
}

#[test]
fn split_axis_follows_the_longer_side() {
    assert_eq!(leaf(0, 0, 1250, 1000).split_axis(true), Axis::Width);
    assert_eq!(leaf(0, 0, 1250, 1000).split_axis(false), Axis::Width);
    assert_eq!(leaf(0, 0, 1000, 1250).split_axis(true), Axis::Height);
    assert_eq!(leaf(0, 0, 1000, 1250).split_axis(false), Axis::Height);
}

#[test]
fn split_axis_leaves_near_squares_to_the_coin() {
    assert_eq!(leaf(0, 0, 1249, 1000).split_axis(true), Axis::Height);
    assert_eq!(leaf(0, 0, 1249, 1000).split_axis(false), Axis::Width);
    assert_eq!(leaf(0, 0, 1000, 1000).split_axis(true), Axis::Height);
    assert_eq!(leaf(0, 0, 1000, 1249).split_axis(false), Axis::Width);
}

#[test]
fn split_at_cuts_the_width() {
    let mut room = leaf(-100, 50, 1000, 400);
    let (left, right) = room.split_at(Axis::Width, 300);
    assert_eq!(left, leaf(-100, 50, 300, 400));
    assert_eq!(right, leaf(200, 50, 700, 400));
    assert_eq!(room, Leaf { x: -100, y: 50, width: 1000, height: 400, child_split: true });
}

#[test]
fn split_at_cuts_the_height() {
    let mut room = leaf(-100, 50, 1000, 400);
    let (lower, upper) = room.split_at(Axis::Height, 150);
    assert_eq!(lower, leaf(-100, 50, 1000, 150));
    assert_eq!(upper, leaf(-100, 200, 1000, 250));
    assert!(room.child_split);
}

#[test]
fn split_halves_have_the_area_of_the_room() {
    for seed in 0..200u64 {
        let mut rng = StdRng::seed_from_u64(seed);
        let mut room = leaf(-640 * UNIT, -360 * UNIT, 1280 * UNIT, 720 * UNIT);
        let before = room;
        let (a, b) = room.split(MIN_LEAF_SIZE, &mut rng).expect("the room is wide enough to cut");
        assert_eq!(
            a.width as i128 * a.height as i128 + b.width as i128 * b.height as i128,
            before.width as i128 * before.height as i128
        );
        assert_eq!((a.x, a.y), (before.x, before.y));
        assert!(a.width >= MIN_LEAF_SIZE && b.width >= MIN_LEAF_SIZE);
        assert_eq!(a.x + a.width, b.x);
        assert_eq!(b.x + b.width, before.x + before.width);
        assert_eq!((a.height, b.height), (before.height, before.height));
        assert!(room.child_split);
        assert!(!a.child_split && !b.child_split);
    }
}

#[test]
fn split_offsets_vary() {
    let mut seen = Vec::new();
    for seed in 0..50u64 {
        let mut rng = StdRng::seed_from_u64(seed);
        let mut room = leaf(0, 0, 1280 * UNIT, 720 * UNIT);
        let (a, _) = room.split(MIN_LEAF_SIZE, &mut rng).expect("the room is wide enough to cut");
        if !seen.contains(&a.width) {
            seen.push(a.width);
        }
    }
    assert!(seen.len() > 1);
    assert!(seen.iter().any(|w| *w != MIN_LEAF_SIZE));
}

#[test]
fn split_leaves_a_short_room_alone() {
    let mut rng = StdRng::seed_from_u64(1);
    let mut room = leaf(0, 0, 400 * UNIT, 100 * UNIT);
    assert_eq!(room.split(MIN_LEAF_SIZE, &mut rng), None);
    assert_eq!(room, leaf(0, 0, 400 * UNIT, 100 * UNIT));
    let mut just_enough = leaf(0, 0, 400 * UNIT + 1, 100 * UNIT);
    let (a, b) = just_enough.split(MIN_LEAF_SIZE, &mut rng).expect("one offset is left");
    assert!(a.width == MIN_LEAF_SIZE || a.width == MIN_LEAF_SIZE + 1);
    assert_eq!(a.width + b.width, 400 * UNIT + 1);
}

#[test]
fn split_leaves_a_cut_room_alone() {
    let mut rng = StdRng::seed_from_u64(1);
    let mut room = Leaf { x: 0, y: 0, width: 1280 * UNIT, height: 720 * UNIT, child_split: true };
    assert_eq!(room.split(MIN_LEAF_SIZE, &mut rng), None);
    assert!(room.child_split);
}

#[test]
fn partition_of_a_small_root_is_the_root() {
    let mut rng = StdRng::seed_from_u64(3);
    let root = leaf(0, 0, 600 * UNIT, 600 * UNIT);
    assert_eq!(partition(root, MIN_LEAF_SIZE, MAX_LEAF_SIZE, &mut rng), vec![root]);
}

#[test]
fn partition_tiles_the_root() {
    for seed in 0..100u64 {
        let mut rng = StdRng::seed_from_u64(seed);
        let root = leaf(-1280 * UNIT, -720 * UNIT, 2560 * UNIT, 1440 * UNIT);
        let nodes = partition(root, MIN_LEAF_SIZE, MAX_LEAF_SIZE, &mut rng);
        assert!(nodes[0].child_split);
        assert_eq!((nodes[0].width, nodes[0].height), (root.width, root.height));
        let rooms = terminal_rooms(&nodes);
        assert_eq!(nodes.len(), 2 * rooms.len() - 1);
        let mut area: i128 = 0;
        for room in &rooms {
            assert!(!room.child_split);
            assert!(room.x >= root.x && room.y >= root.y);
            assert!(room.x + room.width <= root.x + root.width);
            assert!(room.y + room.height <= root.y + root.height);
            assert!(room.width >= MIN_LEAF_SIZE && room.height >= MIN_LEAF_SIZE);
            area += room.width as i128 * room.height as i128;
        }
        assert_eq!(area, root.width as i128 * root.height as i128);
        for (i, a) in rooms.iter().enumerate() {
            for b in rooms.iter().skip(i + 1) {
                let apart = a.x + a.width <= b.x
                    || b.x + b.width <= a.x
                    || a.y + a.height <= b.y
                    || b.y + b.height <= a.y;
                assert!(apart);
            }
        }
    }
}

#[test]
fn terminal_rooms_keeps_the_uncut_nodes_in_order() {
    let cut = Leaf { x: 0, y: 0, width: 10, height: 10, child_split: true };
    let a = leaf(0, 0, 4, 10);
    let b = leaf(4, 0, 6, 10);
    assert_eq!(terminal_rooms(&vec![cut, a, b]), vec![a, b]);
    assert_eq!(terminal_rooms(&vec![cut]), Vec::<Leaf>::new());
    assert_eq!(terminal_rooms(&Vec::new()), Vec::<Leaf>::new());
}

#[test]
fn generated_rooms_fit_or_could_not_be_cut() {
    for seed in 0..200u64 {
        let mut rng = StdRng::seed_from_u64(seed);
        let tags = generate(1280 * UNIT, 720 * UNIT, 200 * UNIT, 600 * UNIT, &mut rng)
            .expect("the level is valid");
        assert!(!tags.is_empty());
        let mut area: i128 = 0;
        for tag in &tags {
            let room = bounds(tag);
            let fits = room.width <= 600 * UNIT && room.height <= 600 * UNIT;
            assert!(fits || blocked(&room, 200 * UNIT));
            assert!(room.x >= -640 * UNIT && room.x + room.width <= 640 * UNIT);
            assert!(room.y >= -360 * UNIT && room.y + room.height <= 360 * UNIT);
            area += room.width as i128 * room.height as i128;
        }
        assert_eq!(area, (1280 * UNIT) as i128 * (720 * UNIT) as i128);
    }
}

#[test]
fn generate_keeps_an_oversized_room_that_cannot_be_cut() {
    let mut rng = StdRng::seed_from_u64(5);
    let tags = generate(700 * UNIT, 300 * UNIT, 400 * UNIT, 600 * UNIT, &mut rng)
        .expect("the level is valid");
    assert_eq!(tags.len(), 1);
    assert_eq!((tags[0].width, tags[0].height), (700 * UNIT, 300 * UNIT));
    assert_eq!(tags[0].center, Point { x: 0, y: 0 });
    assert!(tags[0].is_left_edge && tags[0].is_right_edge);
    assert!(tags[0].is_top_edge && tags[0].is_bottom_edge);
    assert!(tags[0].doors.is_empty());
}

#[test]
fn generate_is_reproducible_from_a_seed() {
    let mut first = StdRng::seed_from_u64(11);
    let mut second = StdRng::seed_from_u64(11);
    let a = generate(2560 * UNIT, 1440 * UNIT, MIN_LEAF_SIZE, MAX_LEAF_SIZE, &mut first).unwrap();
    let b = generate(2560 * UNIT, 1440 * UNIT, MIN_LEAF_SIZE, MAX_LEAF_SIZE, &mut second).unwrap();
    assert_eq!(a.len(), b.len());
    for (x, y) in a.iter().zip(b.iter()) {
        assert_eq!((x.center, x.width, x.height), (y.center, y.width, y.height));
        assert_eq!(x.doors, y.doors);
    }
}

#[test]
fn generate_refuses_a_level_without_size() {
    let mut rng = StdRng::seed_from_u64(5);
    assert!(generate(0, 720 * UNIT, MIN_LEAF_SIZE, MAX_LEAF_SIZE, &mut rng).is_none());
    assert!(generate(1280 * UNIT, -1, MIN_LEAF_SIZE, MAX_LEAF_SIZE, &mut rng).is_none());
    assert!(generate(1280 * UNIT, 720 * UNIT, 0, MAX_LEAF_SIZE, &mut rng).is_none());
    assert!(generate(WORLD_LIMIT + 1, 720 * UNIT, MIN_LEAF_SIZE, MAX_LEAF_SIZE, &mut rng).is_none());
    assert!(generate(WORLD_LIMIT, WORLD_LIMIT, WORLD_LIMIT, 0, &mut rng).is_some());
}

#[test]
fn room_tags_give_each_pair_of_rooms_its_doorway_once() {
    let root = leaf(0, 0, 2000, 1000);
    let left = leaf(0, 0, 800, 1000);
    let right = leaf(800, 0, 1200, 1000);
    let tags = room_tags(&vec![left, right], &root);
    assert_eq!(tags.len(), 2);
    assert_eq!(tags[0].center, Point { x: 400, y: 500 });
    assert_eq!(tags[1].center, Point { x: 1400, y: 500 });
    assert_eq!(tags[0].doors, vec![Point { x: 800, y: 500 }]);
    assert!(tags[1].doors.is_empty());
    assert!(tags[0].is_left_edge && !tags[0].is_right_edge);
    assert!(!tags[1].is_left_edge && tags[1].is_right_edge);
    assert!(tags[0].is_top_edge && tags[0].is_bottom_edge);
}

#[test]
fn generated_neighbours_are_joined_by_doorways() {
    let mut rng = StdRng::seed_from_u64(9);
    let tags = generate(2560 * UNIT, 1440 * UNIT, MIN_LEAF_SIZE, MAX_LEAF_SIZE, &mut rng).unwrap();
    assert!(tags.len() >= 6);
    let doors: usize = tags.iter().map(|t| t.doors.len()).sum();
    assert!(doors >= tags.len() - 1);
    assert!(tags[tags.len() - 1].doors.is_empty());
}

#[test]
fn the_halves_of_a_cut_room_follow_it_side_by_side() {
    for seed in 0..50u64 {
        let mut rng = StdRng::seed_from_u64(seed);
        let root = leaf(-1280 * UNIT, -720 * UNIT, 2560 * UNIT, 1440 * UNIT);
        let nodes = partition(root, MIN_LEAF_SIZE, MAX_LEAF_SIZE, &mut rng);
        let mut next = 1;
        for node in nodes.iter() {
            if !node.child_split {
                assert!(node.width <= MAX_LEAF_SIZE && node.height <= MAX_LEAF_SIZE || blocked(node, MIN_LEAF_SIZE));
                continue;
            }
            assert!(node.width > MAX_LEAF_SIZE || node.height > MAX_LEAF_SIZE);
            let (first, second) = (nodes[next], nodes[next + 1]);
            next += 2;
            assert_eq!((first.x, first.y), (node.x, node.y));
            if first.height == node.height {
                assert_eq!((second.x, second.y), (node.x + first.width, node.y));
                assert_eq!(first.width + second.width, node.width);
                assert_eq!(second.height, node.height);
                assert!(first.width >= MIN_LEAF_SIZE && second.width >= MIN_LEAF_SIZE);
            } else {
                assert_eq!((second.x, second.y), (node.x, node.y + first.height));
                assert_eq!(first.height + second.height, node.height);
                assert_eq!((first.width, second.width), (node.width, node.width));
                assert!(first.height >= MIN_LEAF_SIZE && second.height >= MIN_LEAF_SIZE);
            }
        }
        assert_eq!(next, nodes.len());
    }
}
