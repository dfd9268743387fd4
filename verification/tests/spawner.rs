use rand::rngs::StdRng;
use rand::SeedableRng;
use shape_battle::enemy::Enemy;
use shape_battle::enemy_spawner::{
    new_enemy, spawn_enemy, update_spawning, EnemySpawner, WindowSize, ENEMY_DAMAGE, ENEMY_SPEED,
};
use shape_battle::units::{Point, UNIT, WORLD_LIMIT};

fn window() -> WindowSize {
    WindowSize { width: 1280 * UNIT, height: 720 * UNIT }
}

#[test]
fn a_window_must_fit_the_world() {
    assert_eq!(WindowSize::new(1280, 720), Some(WindowSize { width: 1280, height: 720 }));
    assert_eq!(WindowSize::new(0, 0), Some(WindowSize { width: 0, height: 0 }));
    assert_eq!(WindowSize::new(-1, 720), None);
    assert_eq!(WindowSize::new(1280, 2 * WORLD_LIMIT + 1), None);
}

#[test]
fn the_timer_runs_down_and_is_set_back() {
    let mut spawner = EnemySpawner { cooldown: 1000, timer: 500 };
    assert!(!spawner.tick(100));
    assert_eq!(spawner, EnemySpawner { cooldown: 1000, timer: 400 });
    assert!(!spawner.tick(399));
    assert_eq!(spawner.timer, 1);
    assert!(spawner.tick(1));
    assert_eq!(spawner, EnemySpawner { cooldown: 1000, timer: 1000 });
    assert!(spawner.tick(5000));
    assert_eq!(spawner.timer, 1000);
    assert!(!spawner.tick(0));
}

#[test]
fn a_spawner_without_cooldown_fires_every_tick() {
    let mut spawner = EnemySpawner { cooldown: 0, timer: 0 };
    for _ in 0..5 {
        assert!(spawner.tick(16));
        assert_eq!(spawner.timer, 0);
    }
    let mut lowest = EnemySpawner { cooldown: 7, timer: i64::MIN };
    assert!(lowest.tick(u32::MAX));
    assert_eq!(lowest.timer, 7);
}

#[test]
fn a_new_enemy_has_health_by_its_sides_and_a_radius_by_its_scale() {
    let enemy = new_enemy(Point { x: 5, y: -6 }, 4, 2 * UNIT);
    assert_eq!(
        enemy,
        Enemy { position: Point { x: 5, y: -6 }, health: 100, speed: 20, collision_damage: 1, radius: 10 * UNIT }
    );
    assert_eq!(new_enemy(Point { x: 0, y: 0 }, 3, UNIT).health, 75);
    assert_eq!(new_enemy(Point { x: 0, y: 0 }, 7, UNIT).health, 175);
    assert_eq!(new_enemy(Point { x: 0, y: 0 }, 3, UNIT).radius, 5 * UNIT);
    assert_eq!(new_enemy(Point { x: 0, y: 0 }, 3, 3 * UNIT).radius, 15 * UNIT);
    assert_eq!((ENEMY_SPEED, ENEMY_DAMAGE), (20, 1));
}

#[test]
fn spawned_enemies_are_drawn_from_their_ranges() {
    let mut rng = StdRng::seed_from_u64(21);
    let mut healths = Vec::new();
    let mut xs = Vec::new();
    let mut ys = Vec::new();
    let mut radii = Vec::new();
    for _ in 0..500 {
        let enemy = spawn_enemy(window(), &mut rng);
        assert!(enemy.health % 25 == 0 && enemy.health >= 75 && enemy.health <= 175);
        assert!(enemy.position.x >= -640 * UNIT && enemy.position.x <= 640 * UNIT);
        assert!(enemy.position.y >= -360 * UNIT && enemy.position.y <= 360 * UNIT);
        assert!(enemy.radius >= 5 * UNIT && enemy.radius <= 15 * UNIT);
        assert_eq!(enemy.radius % 5, 0);
        assert_eq!((enemy.speed, enemy.collision_damage), (20, 1));
        healths.push(enemy.health);
        xs.push(enemy.position.x);
        ys.push(enemy.position.y);
        radii.push(enemy.radius);
    }
    for health in [75, 100, 125, 150, 175] {
        assert!(healths.contains(&health));
    }
    assert!(xs.iter().any(|x| *x < -320 * UNIT) && xs.iter().any(|x| *x > 320 * UNIT));
    assert!(ys.iter().any(|y| *y < -180 * UNIT) && ys.iter().any(|y| *y > 180 * UNIT));
    assert!(xs.iter().any(|x| x.abs() > 360 * UNIT));
    assert!(radii.iter().any(|r| *r < 7 * UNIT) && radii.iter().any(|r| *r > 13 * UNIT));
}

#[test]
fn an_empty_window_spawns_at_the_origin() {
    let mut rng = StdRng::seed_from_u64(21);
    let enemy = spawn_enemy(WindowSize { width: 1, height: 0 }, &mut rng);
    assert_eq!(enemy.position, Point { x: 0, y: 0 });
}

#[test]
fn each_spawner_that_runs_out_adds_an_enemy() {
    let mut rng = StdRng::seed_from_u64(3);
    let mut spawners = vec![
        EnemySpawner { cooldown: 1000, timer: 10 },
        EnemySpawner { cooldown: 2000, timer: 500 },
        EnemySpawner { cooldown: 3000, timer: 16 },
    ];
    let resident = Enemy { position: Point { x: 1, y: 2 }, health: 3, speed: 4, collision_damage: 5, radius: 6 };
    let mut enemies = vec![resident];
    update_spawning(&mut spawners, Some(window()), &mut enemies, 16, &mut rng);
    assert_eq!(
        spawners,
        vec![
            EnemySpawner { cooldown: 1000, timer: 1000 },
            EnemySpawner { cooldown: 2000, timer: 484 },
            EnemySpawner { cooldown: 3000, timer: 3000 },
        ]
    );
    assert_eq!(enemies.len(), 3);
    assert_eq!(enemies[0], resident);
    assert!(enemies[1].health >= 75 && enemies[2].health >= 75);
}

#[test]
fn one_spawner_spawns_once_per_cooldown() {
    let mut rng = StdRng::seed_from_u64(3);
    let mut spawners = vec![EnemySpawner { cooldown: 1000, timer: 1000 }];
    let mut enemies = Vec::new();
    for _ in 0..625 {
        update_spawning(&mut spawners, Some(window()), &mut enemies, 16, &mut rng);
    }
    // 63 ticks of 16 ms run a timer of 1000 ms out: 625 ticks hold 9 spawns.
    assert_eq!(enemies.len(), 9);
}

#[test]
fn without_a_window_nothing_spawns_and_no_timer_runs() {
    let mut rng = StdRng::seed_from_u64(3);
    let mut spawners = vec![EnemySpawner { cooldown: 1000, timer: 10 }];
    let mut enemies = Vec::new();
    update_spawning(&mut spawners, None, &mut enemies, 16, &mut rng);
    assert_eq!(spawners, vec![EnemySpawner { cooldown: 1000, timer: 10 }]);
    assert!(enemies.is_empty());
}
