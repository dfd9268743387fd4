use shape_battle::collision::collide;
use shape_battle::units::{Point, UNIT, WORLD_LIMIT};
use shape_battle::vector::{integer_sqrt, step_towards, SPEED_LIMIT};

fn at(x: i64, y: i64) -> Point {
    Point { x, y }
}

#[test]
fn point_new_keeps_to_the_world() {
    assert_eq!(Point::new(3, -4), Some(at(3, -4)));
    assert_eq!(Point::new(WORLD_LIMIT, -WORLD_LIMIT), Some(at(WORLD_LIMIT, -WORLD_LIMIT)));
    assert_eq!(Point::new(WORLD_LIMIT + 1, 0), None);
    assert_eq!(Point::new(0, -WORLD_LIMIT - 1), None);
    assert_eq!(UNIT, 1000);
}

#[test]
fn integer_sqrt_rounds_down() {
    assert_eq!(integer_sqrt(0), 0);
    assert_eq!(integer_sqrt(1), 1);
    assert_eq!(integer_sqrt(3), 1);
    assert_eq!(integer_sqrt(4), 2);
    assert_eq!(integer_sqrt(15), 3);
    assert_eq!(integer_sqrt(16), 4);
    assert_eq!(integer_sqrt(17), 4);
    assert_eq!(integer_sqrt(999_999_999_999), 999_999);
    assert_eq!(integer_sqrt(1_000_000_000_000), 1_000_000);
    assert_eq!(integer_sqrt(i64::MAX as u64), 3_037_000_499);
}

#[test]
fn integer_sqrt_brackets_its_argument() {
    let mut n: u64 = 1;
    while n < (i64::MAX as u64) / 3 {
        let r = integer_sqrt(n) as u128;
        assert!(r * r <= n as u128 && (n as u128) < (r + 1) * (r + 1));
        n = n * 3 + 1;
    }
}

#[test]
fn a_step_along_an_axis_is_speed_times_time() {
    assert_eq!(step_towards(at(0, 0), at(100_000, 0), 20, 16), (320, 0));
    assert_eq!(step_towards(at(0, 0), at(-100_000, 0), 20, 16), (-320, 0));
    assert_eq!(step_towards(at(5, 7), at(5, 9_000), 3, 1000), (0, 3000));
    assert_eq!(step_towards(at(5, 7), at(5, -9_000), 3, 1000), (0, -3000));
}

#[test]
fn a_step_along_a_diagonal_is_shared_between_the_axes() {
    assert_eq!(step_towards(at(0, 0), at(3_000, 4_000), 10, 100), (600, 800));
    assert_eq!(step_towards(at(0, 0), at(-3_000, -4_000), 10, 100), (-600, -800));
    assert_eq!(step_towards(at(1_000, 1_000), at(4_000, -3_000), 10, 100), (600, -800));
}

#[test]
fn a_step_rounds_towards_zero() {
    // The length of (1000, 1000) rounds down to 1414, so each coordinate of a
    // step of 100 is 100 * 1000 / 1414, rounded down to 70.
    assert_eq!(step_towards(at(0, 0), at(1_000, 1_000), 1, 100), (70, 70));
    assert_eq!(step_towards(at(0, 0), at(-1_000, -1_000), 1, 100), (-70, -70));
    assert_eq!(step_towards(at(0, 0), at(1_000, -1_000), 1, 100), (70, -70));
}

#[test]
fn no_step_without_direction_speed_or_time() {
    assert_eq!(step_towards(at(7, 7), at(7, 7), 20, 16), (0, 0));
    assert_eq!(step_towards(at(0, 0), at(100, 0), 0, 16), (0, 0));
    assert_eq!(step_towards(at(0, 0), at(100, 0), 20, 0), (0, 0));
}

#[test]
fn a_step_at_the_limits_does_not_overflow() {
    let far = step_towards(
        at(-WORLD_LIMIT, -WORLD_LIMIT),
        at(WORLD_LIMIT, WORLD_LIMIT),
        SPEED_LIMIT,
        u32::MAX,
    );
    // The length of the diagonal is 2828427124 sub-units.
    let expected = (SPEED_LIMIT as i128 * u32::MAX as i128 * 2_000_000_000 / 2_828_427_124) as i64;
    assert_eq!(far, (expected, expected));
}

#[test]
fn boxes_that_touch_do_not_overlap() {
    assert!(collide(at(0, 0), 5, at(9, 0), 5));
    assert!(!collide(at(0, 0), 5, at(10, 0), 5));
    assert!(collide(at(0, 0), 5, at(-9, 9), 5));
    assert!(!collide(at(0, 0), 5, at(-9, 10), 5));
    assert!(collide(at(0, 0), 1, at(0, 0), 1));
    assert!(!collide(at(0, 0), 0, at(0, 0), 0));
    assert!(collide(at(0, 0), 8, at(10, -3), 3));
    assert!(!collide(at(0, 0), 7, at(10, -3), 3));
}

#[test]
fn overlap_is_the_same_from_either_box() {
    let points = [at(0, 0), at(9, 0), at(10, 0), at(-3, 12), at(7, 7)];
    let halves = [0, 3, 5, 8];
    for a in points.iter() {
        for b in points.iter() {
            for ha in halves.iter() {
                for hb in halves.iter() {
                    assert_eq!(collide(*a, *ha, *b, *hb), collide(*b, *hb, *a, *ha));
                }
            }
        }
    }
}
