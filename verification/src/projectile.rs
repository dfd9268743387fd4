//! Projectiles: what the player fires, how it flies, and what it hits.
use vstd::prelude::*;
use crate::units::{clamped, clamped_sub, in_world, Point, UNIT, WORLD_LIMIT};
use crate::enemy::Enemy;
use crate::vector::{closer_than, within, SPEED_LIMIT};

verus! {

/// Speed of a projectile, in world units per second.
pub const PROJECTILE_SPEED: i64 = 200;

/// How long a projectile flies, in milliseconds.
pub const PROJECTILE_LIFETIME: i64 = 4000;

/// Distance within which a projectile hits an enemy, in sub-units.
pub const HIT_RADIUS: i64 = 10 * UNIT;

/// Health that an enemy loses to a hit.
pub const PROJECTILE_DAMAGE: i64 = 25;

/// The way a projectile flies.
#[derive(Clone, Copy, Debug, PartialEq, Eq, Structural)]
pub enum Direction {
    Still,
    Up,
    Down,
    Left,
    Right,
}

/// A projectile in flight: where it is, the milliseconds it has left, its
/// speed and its direction.
#[derive(Clone, Copy, Debug, PartialEq, Eq, Structural)]
pub struct Projectile {
    pub position: Point,
    pub lifetime: i64,
    pub speed: i64,
    pub direction: Direction,
}

/// The state of the four arrow keys.
#[derive(Clone, Copy, Debug, PartialEq, Eq, Structural)]
pub struct ArrowKeys {
    pub up: bool,
    pub down: bool,
    pub left: bool,
    pub right: bool,
}

impl ArrowKeys {
    /// Whether any of the four is set.
    pub open spec fn any(self) -> bool {
        self.up || self.down || self.left || self.right
    }

    /// The direction asked for: of the keys held, right counts before left,
    /// left before down, and down before up.
    pub open spec fn direction(self) -> Direction {
        if self.right {
            Direction::Right
        } else if self.left {
            Direction::Left
        } else if self.down {
            Direction::Down
        } else if self.up {
            Direction::Up
        } else {
            Direction::Still
        }
    }
}

impl Projectile {
    /// The projectile is inside the world and its speed within the limit.
    pub open spec fn wf(self) -> bool {
        self.position.wf() && 0 <= self.speed <= SPEED_LIMIT
    }

    /// Whether the projectile's time runs out within `delta_ms` milliseconds.
    pub open spec fn expires(self, delta_ms: int) -> bool {
        clamped(self.lifetime - delta_ms) <= 0
    }

    /// The projectile `delta_ms` milliseconds later: it has flown on in its
    /// direction, as far as the edge of the world.
    pub open spec fn advanced(self, delta_ms: int) -> Projectile {
        let way = self.speed * delta_ms;
        Projectile {
            position: match self.direction {
                Direction::Still => self.position,
                Direction::Up => Point { x: self.position.x, y: to_world(self.position.y + way) as i64 },
                Direction::Down => Point {
                    x: self.position.x,
                    y: to_world(self.position.y - way) as i64,
                },
                Direction::Left => Point {
                    x: to_world(self.position.x - way) as i64,
                    y: self.position.y,
                },
                Direction::Right => Point {
                    x: to_world(self.position.x + way) as i64,
                    y: self.position.y,
                },
            },
            lifetime: clamped(self.lifetime - delta_ms) as i64,
            speed: self.speed,
            direction: self.direction,
        }
    }
}

impl Projectile {
    /// Tests whether the projectile's time runs out within `delta_ms`
    /// milliseconds.
    pub fn has_expired(&self, delta_ms: u32) -> (expired: bool)
        ensures
            expired == self.expires(delta_ms as int),
    {
        clamped_sub(self.lifetime, delta_ms as i64) <= 0
    }
}

/// `v` held to the coordinates of the world.
pub open spec fn to_world(v: int) -> int {
    if v < -WORLD_LIMIT {
        -(WORLD_LIMIT as int)
    } else if v > WORLD_LIMIT {
        WORLD_LIMIT as int
    } else {
        v
    }
}

/// Fires a projectile from the player's place if an arrow key has just been
/// pressed, in the direction of the arrow keys that are held.
pub fn create_projectile(just_pressed: ArrowKeys, pressed: ArrowKeys, player: Point) -> (fired:
    Option<Projectile>)
    ensures
        fired == (if just_pressed.any() {
            Some(
                Projectile {
                    position: player,
                    lifetime: PROJECTILE_LIFETIME,
                    speed: PROJECTILE_SPEED,
                    direction: pressed.direction(),
                },
            )
        } else {
            None
        }),
{
    if !(just_pressed.up || just_pressed.down || just_pressed.left || just_pressed.right) {
        return None;
    }
    let mut dir = Direction::Still;
    if pressed.up {
        dir = Direction::Up;
    }
    if pressed.down {
        dir = Direction::Down;
    }
    if pressed.left {
        dir = Direction::Left;
    }
    if pressed.right {
        dir = Direction::Right;
    }
    Some(Projectile { position: player, lifetime: PROJECTILE_LIFETIME, speed: PROJECTILE_SPEED, direction: dir })
}

/// Moves a coordinate by `way`, as far as the edge of the world.
fn fly(from: i64, way: i64) -> (to: i64)
    requires
        in_world(from as int),
        -(1_000_000 * 0xffff_ffff) <= way <= 1_000_000 * 0xffff_ffff,
    ensures
        to == to_world(from + way),
        in_world(to as int),
{
    let to = from + way;
    if to < -WORLD_LIMIT {
        -WORLD_LIMIT
    } else if to > WORLD_LIMIT {
        WORLD_LIMIT
    } else {
        to
    }
}

/// Whether every projectile of the list is well formed.
pub open spec fn projectiles_wf(projectiles: Seq<Projectile>) -> bool {
    forall|i: int| 0 <= i < projectiles.len() ==> (#[trigger] projectiles[i]).wf()
}

/// Lets every projectile fly on for `delta_ms` milliseconds, and removes
/// those whose time has run out.
pub fn projectile_lifetime(projectiles: &mut Vec<Projectile>, delta_ms: u32)
    requires
        projectiles_wf(old(projectiles)@),
    ensures
        final(projectiles)@ == old(projectiles)@.filter(
            |p: Projectile| !p.expires(delta_ms as int),
        ).map_values(|p: Projectile| p.advanced(delta_ms as int)),
        projectiles_wf(final(projectiles)@),
{
    let ghost all = projectiles@;
    let ghost flies = |p: Projectile| !p.expires(delta_ms as int);
    let ghost later = |p: Projectile| p.advanced(delta_ms as int);
    let mut kept: Vec<Projectile> = Vec::new();
    let mut i: usize = 0;
    proof {
        assert(all.take(0) =~= Seq::<Projectile>::empty());
        Seq::<Projectile>::empty().lemma_filter_len(flies);
        assert(all.take(0).filter(flies).map_values(later) =~= Seq::<Projectile>::empty());
    }
    while i < projectiles.len()
        invariant
            i <= all.len(),
            projectiles@ == all,
            projectiles_wf(all),
            flies == (|p: Projectile| !p.expires(delta_ms as int)),
            later == (|p: Projectile| p.advanced(delta_ms as int)),
            kept@ == all.take(i as int).filter(flies).map_values(later),
            projectiles_wf(kept@),
        decreases all.len() - i,
    {
        let p = projectiles[i];
        proof {
            assert(all[i as int].wf());
            assert(all.take(i + 1) =~= all.take(i as int).push(all[i as int]));
            all.take(i as int).lemma_filter_push(all[i as int], flies);
            assert(all.take(i as int).filter(flies).push(all[i as int]).map_values(later)
                =~= all.take(i as int).filter(flies).map_values(later).push(later(all[i as int])));
        }
        let lifetime = clamped_sub(p.lifetime, delta_ms as i64);
        assert(0 <= p.speed * delta_ms <= 1_000_000 * 0xffff_ffff) by (nonlinear_arith)
            requires
                0 <= p.speed <= 1_000_000,
                0 <= delta_ms <= 0xffff_ffff,
        ;
        let way = p.speed * (delta_ms as i64);
        let position = match p.direction {
            Direction::Still => p.position,
            Direction::Up => Point { x: p.position.x, y: fly(p.position.y, way) },
            Direction::Down => Point { x: p.position.x, y: fly(p.position.y, -way) },
            Direction::Left => Point { x: fly(p.position.x, -way), y: p.position.y },
            Direction::Right => Point { x: fly(p.position.x, way), y: p.position.y },
        };
        if !p.has_expired(delta_ms) {
            kept.push(Projectile { position, lifetime, speed: p.speed, direction: p.direction });
        }
        i += 1;
    }
    proof {
        assert(all.take(all.len() as int) =~= all);
    }
    *projectiles = kept;
}

/// Whether a projectile at `p` hits an enemy at `enemy`.
pub open spec fn hits(p: Projectile, enemy: Enemy) -> bool {
    within(enemy.position, p.position, HIT_RADIUS as int)
}

/// How many of `projectiles` hit `enemy`.
pub open spec fn hit_count(projectiles: Seq<Projectile>, enemy: Enemy) -> nat {
    projectiles.filter(|p: Projectile| hits(p, enemy)).len()
}

/// Whether a projectile hits any of `enemies`.
pub open spec fn hits_any(p: Projectile, enemies: Seq<Enemy>) -> bool {
    exists|i: int| 0 <= i < enemies.len() && hits(p, #[trigger] enemies[i])
}

/// The enemy after `count` hits.
pub open spec fn wounded(enemy: Enemy, count: nat) -> Enemy {
    Enemy { health: clamped(enemy.health - PROJECTILE_DAMAGE * count) as i64, ..enemy }
}

/// Counts the projectiles that hit `enemy`, marking each of them in `spent`.
fn count_hits(enemy: &Enemy, projectiles: &Vec<Projectile>, spent: &mut Vec<bool>) -> (health: i64)
    requires
        enemy.position.wf(),
        projectiles_wf(projectiles@),
        old(spent)@.len() == projectiles@.len(),
    ensures
        health == wounded(*enemy, hit_count(projectiles@, *enemy)).health,
        final(spent)@.len() == projectiles@.len(),
        forall|j: int|
            0 <= j < projectiles@.len() ==> #[trigger] final(spent)@[j] == (old(spent)@[j] || hits(
                projectiles@[j],
                *enemy,
            )),
{
    let ghost hit = |p: Projectile| hits(p, *enemy);
    let mut health = enemy.health;
    let mut j: usize = 0;
    proof {
        assert(projectiles@.take(0) =~= Seq::<Projectile>::empty());
        Seq::<Projectile>::empty().lemma_filter_len(hit);
    }
    while j < projectiles.len()
        invariant
            j <= projectiles@.len(),
            enemy.position.wf(),
            projectiles_wf(projectiles@),
            spent@.len() == projectiles@.len(),
            hit == (|p: Projectile| hits(p, *enemy)),
            health == clamped(
                enemy.health - PROJECTILE_DAMAGE * projectiles@.take(j as int).filter(hit).len(),
            ),
            forall|k: int|
                0 <= k < j ==> #[trigger] spent@[k] == (old(spent)@[k] || hits(projectiles@[k], *enemy)),
            forall|k: int| j <= k < projectiles@.len() ==> #[trigger] spent@[k] == old(spent)@[k],
        decreases projectiles@.len() - j,
    {
        proof {
            assert(projectiles@[j as int].wf());
            assert(projectiles@.take(j + 1) =~= projectiles@.take(j as int).push(
                projectiles@[j as int],
            ));
            projectiles@.take(j as int).lemma_filter_push(projectiles@[j as int], hit);
        }
        if closer_than(enemy.position, projectiles[j].position, HIT_RADIUS) {
            health = clamped_sub(health, PROJECTILE_DAMAGE);
            spent.set(j, true);
        }
        j += 1;
    }
    proof {
        assert(projectiles@.take(projectiles@.len() as int) =~= projectiles@);
    }
    health
}

/// Lets the projectiles hit. Every enemy loses health for each projectile
/// within the hit radius of it, and a projectile that has hit any enemy is
/// gone; one that lies within reach of several enemies hits them all.
pub fn projectile_collision(enemies: &mut Vec<Enemy>, projectiles: &mut Vec<Projectile>)
    requires
        forall|i: int| 0 <= i < old(enemies)@.len() ==> (#[trigger] old(enemies)@[i]).position.wf(),
        projectiles_wf(old(projectiles)@),
    ensures
        final(enemies)@.len() == old(enemies)@.len(),
        forall|i: int|
            0 <= i < old(enemies)@.len() ==> #[trigger] final(enemies)@[i] == wounded(
                old(enemies)@[i],
                hit_count(old(projectiles)@, old(enemies)@[i]),
            ),
        final(projectiles)@ == old(projectiles)@.filter(
            |p: Projectile| !hits_any(p, old(enemies)@),
        ),
{
    let ghost targets = enemies@;
    let ghost shots = projectiles@;
    let mut spent: Vec<bool> = Vec::new();
    let mut j: usize = 0;
    while j < projectiles.len()
        invariant
            j <= shots.len(),
            projectiles@ == shots,
            spent@.len() == j,
            forall|k: int| 0 <= k < j ==> !#[trigger] spent@[k],
        decreases shots.len() - j,
    {
        spent.push(false);
        j += 1;
    }
    let mut i: usize = 0;
    while i < enemies.len()
        invariant
            i <= targets.len(),
            enemies@.len() == targets.len(),
            projectiles@ == shots,
            projectiles_wf(shots),
            spent@.len() == shots.len(),
            forall|k: int| 0 <= k < targets.len() ==> (#[trigger] targets[k]).position.wf(),
            forall|k: int|
                0 <= k < i ==> #[trigger] enemies@[k] == wounded(
                    targets[k],
                    hit_count(shots, targets[k]),
                ),
            forall|k: int| i <= k < targets.len() ==> #[trigger] enemies@[k] == targets[k],
            forall|k: int|
                0 <= k < shots.len() ==> #[trigger] spent@[k] == hits_any(
                    shots[k],
                    targets.take(i as int),
                ),
        decreases targets.len() - i,
    {
        let enemy = enemies[i];
        assert(targets[i as int].position.wf());
        let ghost marks = spent@;
        let health = count_hits(&enemy, projectiles, &mut spent);
        enemies.set(i, Enemy { health, ..enemy });
        proof {
            assert forall|k: int| 0 <= k < shots.len() implies #[trigger] spent@[k] == hits_any(
                shots[k],
                targets.take(i + 1),
            ) by {
                let earlier = targets.take(i as int);
                let now = targets.take(i + 1);
                assert(marks[k] == hits_any(shots[k], earlier));
                if hits_any(shots[k], earlier) {
                    let e = choose|e: int| 0 <= e < earlier.len() && hits(shots[k], #[trigger] earlier[e]);
                    assert(now[e] == earlier[e]);
                }
                if hits(shots[k], targets[i as int]) {
                    assert(now[i as int] == targets[i as int]);
                }
                if hits_any(shots[k], now) {
                    let e = choose|e: int| 0 <= e < now.len() && hits(shots[k], #[trigger] now[e]);
                    if e < i {
                        assert(earlier[e] == now[e]);
                    }
                }
            }
        }
        i += 1;
    }
    proof {
        assert(targets.take(targets.len() as int) =~= targets);
    }
    let ghost flies = |p: Projectile| !hits_any(p, targets);
    let mut kept: Vec<Projectile> = Vec::new();
    let mut j: usize = 0;
    proof {
        assert(shots.take(0) =~= Seq::<Projectile>::empty());
        Seq::<Projectile>::empty().lemma_filter_len(flies);
    }
    while j < projectiles.len()
        invariant
            j <= shots.len(),
            projectiles@ == shots,
            spent@.len() == shots.len(),
            flies == (|p: Projectile| !hits_any(p, targets)),
            forall|k: int| 0 <= k < shots.len() ==> #[trigger] spent@[k] == hits_any(shots[k], targets),
            kept@ == shots.take(j as int).filter(flies),
        decreases shots.len() - j,
    {
        proof {
            assert(shots.take(j + 1) =~= shots.take(j as int).push(shots[j as int]));
            shots.take(j as int).lemma_filter_push(shots[j as int], flies);
        }
        if !spent[j] {
            kept.push(projectiles[j]);
        }
        j += 1;
    }
    proof {
        assert(shots.take(shots.len() as int) =~= shots);
    }
    *projectiles = kept;
}

} // verus!
