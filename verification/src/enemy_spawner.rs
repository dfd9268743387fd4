//! The spawner: a cooldown timer that puts a new enemy at a random place in
//! the window each time it runs out.
use vstd::prelude::*;
use rand::rngs::StdRng;
use crate::units::{clamped, clamped_sub, Point, UNIT, WORLD_LIMIT};
use crate::enemy::Enemy;
use crate::random::draw_in_range;

verus! {

/// Health of a new enemy for each side of its polygon.
pub const HEALTH_PER_SIDE: i64 = 25;

/// Fewest and most sides of a new enemy's polygon.
pub const MIN_SIDES: i64 = 3;

pub const MAX_SIDES: i64 = 7;

/// Speed of a new enemy, in world units per second.
pub const ENEMY_SPEED: i64 = 20;

/// Damage that a new enemy deals on contact.
pub const ENEMY_DAMAGE: i64 = 1;

/// Smallest and largest scale of a new enemy, in sub-units.
pub const MIN_SCALE: i64 = UNIT;

pub const MAX_SCALE: i64 = 3 * UNIT;

/// How many times its scale the half-extent of an enemy's box is.
pub const RADIUS_PER_SCALE: i64 = 5;

/// A spawner: the time between two spawns and the time left until the next,
/// both in milliseconds.
#[derive(Clone, Copy, Debug, PartialEq, Eq, Structural)]
pub struct EnemySpawner {
    pub cooldown: i64,
    pub timer: i64,
}

/// The size of the visible window, in sub-units. The window is centred on the
/// origin.
#[derive(Clone, Copy, Debug, PartialEq, Eq, Structural)]
pub struct WindowSize {
    pub width: i64,
    pub height: i64,
}

impl WindowSize {
    /// The window lies inside the world.
    pub open spec fn wf(self) -> bool {
        0 <= self.width <= 2 * WORLD_LIMIT && 0 <= self.height <= 2 * WORLD_LIMIT
    }

    /// Whether `p` lies inside the window.
    pub open spec fn contains(self, p: Point) -> bool {
        &&& -(self.width / 2) <= p.x <= self.width / 2
        &&& -(self.height / 2) <= p.y <= self.height / 2
    }

    /// A window of the given size, or `None` if a side is negative or the
    /// window reaches outside the world.
    pub fn new(width: i64, height: i64) -> (window: Option<WindowSize>)
        ensures
            window == (if (WindowSize { width, height }).wf() {
                Some(WindowSize { width, height })
            } else {
                None
            }),
    {
        if 0 <= width && width <= 2 * WORLD_LIMIT && 0 <= height && height <= 2 * WORLD_LIMIT {
            Some(WindowSize { width, height })
        } else {
            None
        }
    }
}

impl EnemySpawner {
    /// Whether the timer runs out within `delta_ms` milliseconds.
    pub open spec fn fires(self, delta_ms: int) -> bool {
        clamped(self.timer - delta_ms) <= 0
    }

    /// The spawner `delta_ms` milliseconds later: the timer has run down by
    /// that much, and has been set back to the cooldown if it ran out.
    pub open spec fn ticked(self, delta_ms: int) -> EnemySpawner {
        EnemySpawner {
            cooldown: self.cooldown,
            timer: if self.fires(delta_ms) {
                self.cooldown
            } else {
                clamped(self.timer - delta_ms) as i64
            },
        }
    }

    /// Lets `delta_ms` milliseconds pass, and says whether an enemy is due.
    pub fn tick(&mut self, delta_ms: u32) -> (due: bool)
        ensures
            due == old(self).fires(delta_ms as int),
            *final(self) == old(self).ticked(delta_ms as int),
    {
        self.timer = clamped_sub(self.timer, delta_ms as i64);
        if self.timer <= 0 {
            self.timer = self.cooldown;
            true
        } else {
            false
        }
    }
}

/// The enemy that is spawned at `position` with a polygon of `sides` sides
/// and a scale of `scale` sub-units.
pub open spec fn spawned(position: Point, sides: int, scale: int) -> Enemy {
    Enemy {
        position,
        health: (HEALTH_PER_SIDE * sides) as i64,
        speed: ENEMY_SPEED,
        collision_damage: ENEMY_DAMAGE,
        radius: (scale * RADIUS_PER_SCALE) as i64,
    }
}

/// Whether `enemy` is one that the spawner can put into `window`: it stands
/// inside the window, and was made with a number of sides and a scale from
/// the ranges that these are drawn from.
pub open spec fn can_spawn(enemy: Enemy, window: WindowSize) -> bool {
    exists|sides: int, scale: int|
        MIN_SIDES <= sides <= MAX_SIDES && MIN_SCALE <= scale <= MAX_SCALE && window.contains(
            enemy.position,
        ) && enemy == #[trigger] spawned(enemy.position, sides, scale)
}

/// Makes the enemy for a given place, number of sides and scale.
pub fn new_enemy(position: Point, sides: i64, scale: i64) -> (enemy: Enemy)
    requires
        MIN_SIDES <= sides <= MAX_SIDES,
        MIN_SCALE <= scale <= MAX_SCALE,
    ensures
        enemy == spawned(position, sides as int, scale as int),
        position.wf() ==> enemy.wf(),
{
    Enemy {
        position,
        health: HEALTH_PER_SIDE * sides,
        speed: ENEMY_SPEED,
        collision_damage: ENEMY_DAMAGE,
        radius: scale * RADIUS_PER_SCALE,
    }
}

/// Draws a new enemy: the number of sides, then the place in the window,
/// then the scale, each uniformly.
pub fn spawn_enemy(window: WindowSize, rng: &mut StdRng) -> (enemy: Enemy)
    requires
        window.wf(),
    ensures
        can_spawn(enemy, window),
        enemy.wf(),
{
    let side = draw_in_range(rng, MIN_SIDES, MAX_SIDES);
    let x = draw_in_range(rng, -(window.width / 2), window.width / 2);
    let y = draw_in_range(rng, -(window.height / 2), window.height / 2);
    let scale = draw_in_range(rng, MIN_SCALE, MAX_SCALE);
    let enemy = new_enemy(Point { x, y }, side, scale);
    assert(enemy == spawned(enemy.position, side as int, scale as int));
    enemy
}

/// Whether `after` is `before` with the timers run down by `delta_ms`.
pub open spec fn spawners_ticked(after: Seq<EnemySpawner>, before: Seq<EnemySpawner>, delta_ms: int) -> bool {
    after.len() == before.len() && forall|i: int|
        0 <= i < before.len() ==> #[trigger] after[i] == before[i].ticked(delta_ms)
}

/// Whether `after` is `before` followed by the enemies that the spawners
/// whose timers ran out have put into `window`, one each.
pub open spec fn is_spawn_of(
    after: Seq<Enemy>,
    before: Seq<Enemy>,
    spawners: Seq<EnemySpawner>,
    window: WindowSize,
    delta_ms: int,
) -> bool {
    let due = spawners.filter(|s: EnemySpawner| s.fires(delta_ms));
    &&& after.len() == before.len() + due.len()
    &&& forall|k: int| 0 <= k < before.len() ==> #[trigger] after[k] == before[k]
    &&& forall|k: int|
        before.len() <= k < after.len() ==> can_spawn(#[trigger] after[k], window) && after[k].wf()
}

/// Runs every spawner for `delta_ms` milliseconds and adds an enemy to the
/// population for each one whose timer ran out. Without a window there is
/// nowhere to spawn, and nothing changes.
pub fn update_spawning(
    spawners: &mut Vec<EnemySpawner>,
    window: Option<WindowSize>,
    enemies: &mut Vec<Enemy>,
    delta_ms: u32,
    rng: &mut StdRng,
)
    requires
        window matches Some(w) ==> w.wf(),
    ensures
        window is None ==> final(spawners)@ == old(spawners)@ && final(enemies)@ == old(enemies)@,
        window matches Some(w) ==> spawners_ticked(
            final(spawners)@,
            old(spawners)@,
            delta_ms as int,
        ) && is_spawn_of(final(enemies)@, old(enemies)@, old(spawners)@, w, delta_ms as int),
{
    let primary = match window {
        Some(primary) => primary,
        None => {
            return;
        },
    };
    let ghost due = |s: EnemySpawner| s.fires(delta_ms as int);
    let ghost timers = spawners@;
    let ghost before = enemies@;
    let mut i: usize = 0;
    proof {
        assert(timers.take(0) =~= Seq::<EnemySpawner>::empty());
        Seq::<EnemySpawner>::empty().lemma_filter_len(due);
    }
    while i < spawners.len()
        invariant
            i <= timers.len(),
            spawners@.len() == timers.len(),
            primary.wf(),
            due == (|s: EnemySpawner| s.fires(delta_ms as int)),
            forall|k: int| 0 <= k < i ==> #[trigger] spawners@[k] == timers[k].ticked(delta_ms as int),
            forall|k: int| i <= k < timers.len() ==> #[trigger] spawners@[k] == timers[k],
            enemies@.len() == before.len() + timers.take(i as int).filter(due).len(),
            forall|k: int| 0 <= k < before.len() ==> #[trigger] enemies@[k] == before[k],
            forall|k: int|
                before.len() <= k < enemies@.len() ==> can_spawn(#[trigger] enemies@[k], primary)
                    && enemies@[k].wf(),
        decreases timers.len() - i,
    {
        let mut spawner = spawners[i];
        proof {
            assert(timers.take(i + 1) =~= timers.take(i as int).push(timers[i as int]));
            timers.take(i as int).lemma_filter_push(timers[i as int], due);
        }
        let fired = spawner.tick(delta_ms);
        spawners.set(i, spawner);
        if fired {
            let enemy = spawn_enemy(primary, rng);
            enemies.push(enemy);
        }
        i += 1;
    }
    proof {
        assert(timers.take(timers.len() as int) =~= timers);
    }
}

} // verus!
