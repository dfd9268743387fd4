//! The enemy population: death and loot, pursuit of the player, contact
//! damage, and crowding.
use vstd::prelude::*;
use rand::rngs::StdRng;
use crate::units::{clamped, clamped_sub, in_world, Point, WORLD_LIMIT};
use crate::collision::{boxes_overlap, collide};
use crate::drops::{DropKind, Drops, DROP_LAYER};
use crate::random::choose_kind;
use crate::player::{can_occupy, move_if_free, moved, walls_wf, Player, PLAYER_RADIUS};
use crate::tilemap::TileCollider;
use crate::vector::{div_toward_zero, step_toward, step_towards, SPEED_LIMIT};

verus! {

/// An enemy: where it stands, its health, its speed in world units per
/// second, the damage it deals on contact, and the half-extent of its box.
#[derive(Clone, Copy, Debug, PartialEq, Eq, Structural)]
pub struct Enemy {
    pub position: Point,
    pub health: i64,
    pub speed: i64,
    pub collision_damage: i64,
    pub radius: i64,
}

impl Enemy {
    /// The enemy stands inside the world, and its speed and size are within
    /// the limits.
    pub open spec fn wf(self) -> bool {
        &&& self.position.wf()
        &&& 0 <= self.speed <= SPEED_LIMIT
        &&& 0 <= self.radius <= WORLD_LIMIT
    }

    /// Tests whether the enemy's health is spent.
    pub fn is_spent(&self) -> (spent: bool)
        ensures
            spent == is_dead(*self),
    {
        self.health <= 0
    }
}

/// Whether every enemy of the list is well formed.
pub open spec fn enemies_wf(enemies: Seq<Enemy>) -> bool {
    forall|i: int| 0 <= i < enemies.len() ==> (#[trigger] enemies[i]).wf()
}

/// Whether an enemy is alive.
pub open spec fn is_alive(enemy: Enemy) -> bool {
    enemy.health > 0
}

/// Whether an enemy is dead.
pub open spec fn is_dead(enemy: Enemy) -> bool {
    enemy.health <= 0
}

/// Whether `after` is `before` followed by one drop for each of `dead`, in
/// order, each lying where its enemy died.
pub open spec fn is_loot_of(after: Seq<Drops>, before: Seq<Drops>, dead: Seq<Enemy>) -> bool {
    &&& after.len() == before.len() + dead.len()
    &&& forall|k: int| 0 <= k < before.len() ==> #[trigger] after[k] == before[k]
    &&& forall|k: int|
        0 <= k < dead.len() ==> {
            &&& (#[trigger] after[before.len() + k]).position == dead[k].position
            &&& after[before.len() + k].layer == DROP_LAYER
        }
}

/// Removes the enemies whose health is spent and leaves one drop, of a kind
/// drawn at random, where each of them stood.
pub fn reap_dead(enemies: &mut Vec<Enemy>, drops: &mut Vec<Drops>, rng: &mut StdRng)
    ensures
        final(enemies)@ == old(enemies)@.filter(|e: Enemy| is_alive(e)),
        is_loot_of(final(drops)@, old(drops)@, old(enemies)@.filter(|e: Enemy| is_dead(e))),
{
    let mut survivors: Vec<Enemy> = Vec::new();
    let mut drop_arr: Vec<DropKind> = Vec::new();
    drop_arr.push(DropKind::Health);
    drop_arr.push(DropKind::Coin);
    drop_arr.push(DropKind::DamageUp);
    let ghost alive = |e: Enemy| is_alive(e);
    let ghost dead = |e: Enemy| is_dead(e);
    let ghost all = enemies@;
    let ghost before = drops@;
    let mut i: usize = 0;
    proof {
        assert(all.take(0) =~= Seq::<Enemy>::empty());
        Seq::<Enemy>::empty().lemma_filter_len(alive);
        Seq::<Enemy>::empty().lemma_filter_len(dead);
    }
    while i < enemies.len()
        invariant
            i <= all.len(),
            enemies@ == all,
            drop_arr@.len() == 3,
            alive == (|e: Enemy| is_alive(e)),
            dead == (|e: Enemy| is_dead(e)),
            survivors@ == all.take(i as int).filter(alive),
            is_loot_of(drops@, before, all.take(i as int).filter(dead)),
        decreases all.len() - i,
    {
        let enemy = enemies[i];
        proof {
            assert(all.take(i + 1) =~= all.take(i as int).push(all[i as int]));
            all.take(i as int).lemma_filter_push(all[i as int], alive);
            all.take(i as int).lemma_filter_push(all[i as int], dead);
        }
        if enemy.is_spent() {
            match choose_kind(rng, &drop_arr) {
                Some(kind) => {
                    drops.push(Drops { position: enemy.position, layer: DROP_LAYER, drop_type: kind });
                },
                None => {},
            }
        } else {
            survivors.push(enemy);
        }
        i += 1;
    }
    proof {
        assert(all.take(all.len() as int) =~= all);
    }
    *enemies = survivors;
}

/// Speed, in world units per second, at which an enemy in contact pushes the
/// player along.
pub const PUSH_SPEED: i64 = 5;

/// Whether an enemy of half-extent `enemy_radius` standing at `target_enemy`
/// is in contact with the player at `target_player`.
pub open spec fn in_contact(target_player: Point, target_enemy: Point, enemy_radius: int) -> bool {
    boxes_overlap(target_player, enemy_radius, target_enemy, PLAYER_RADIUS as int)
}

/// Tests an enemy for contact with the player.
pub fn player_collision(target_player: Point, target_enemy: Point, enemy_radius: i64) -> (hit: bool)
    requires
        target_player.wf(),
        target_enemy.wf(),
        in_world(enemy_radius as int),
    ensures
        hit == in_contact(target_player, target_enemy, enemy_radius as int),
{
    collide(target_player, enemy_radius, target_enemy, PLAYER_RADIUS)
}

/// Tests two enemies for overlap.
pub fn enemy_collision(
    target_enemy: Point,
    target_radius: i64,
    enemy2_pos: Point,
    enemy2_radius: i64,
) -> (hit: bool)
    requires
        target_enemy.wf(),
        enemy2_pos.wf(),
        in_world(target_radius as int),
        in_world(enemy2_radius as int),
    ensures
        hit == boxes_overlap(target_enemy, target_radius as int, enemy2_pos, enemy2_radius as int),
{
    collide(target_enemy, target_radius, enemy2_pos, enemy2_radius)
}

/// The step that enemy `e` wants to take towards the player.
pub open spec fn desired_step(e: Enemy, player: Point, delta_ms: int) -> (int, int) {
    step_toward(e.position, player, e.speed as int, delta_ms)
}

/// Where enemy `e` wants to stand after its step, if that is inside the world.
pub open spec fn desired_target(e: Enemy, player: Point, delta_ms: int) -> Option<Point> {
    let step = desired_step(e, player, delta_ms);
    if in_world(e.position.x + step.0) && in_world(e.position.y + step.1) {
        Some(Point { x: (e.position.x + step.0) as i64, y: (e.position.y + step.1) as i64 })
    } else {
        None
    }
}

/// Whether another enemy is in the way of enemy `i`: it overlaps enemy `i`
/// where that stands now, or where it would stand at `target`.
pub open spec fn crowded(enemies: Seq<Enemy>, i: int, target: Point) -> bool {
    exists|j: int|
        0 <= j < enemies.len() && j != i && in_the_way(enemies[i], target, #[trigger] enemies[j])
}

/// Whether `other` overlaps `e` where `e` stands or at `target`.
pub open spec fn in_the_way(e: Enemy, target: Point, other: Enemy) -> bool {
    boxes_overlap(target, e.radius as int, other.position, other.radius as int) || boxes_overlap(
        e.position,
        e.radius as int,
        other.position,
        other.radius as int,
    )
}

/// One coordinate of the push that the player gets from an enemy's step: the
/// step scaled from the enemy's speed down to the push speed.
pub open spec fn push_component(step: int, speed: int) -> int {
    if speed <= 0 {
        0
    } else {
        div_toward_zero(step * PUSH_SPEED, speed)
    }
}

/// The player after contact with an enemy whose step was `step`: pushed
/// along x and then along y, each as far as the walls allow, and hurt once.
pub open spec fn pushed(player: Player, e: Enemy, step: (int, int), walls: Seq<TileCollider>) -> Player {
    let along_x = moved(player.position, push_component(step.0, e.speed as int), 0, walls);
    let along_y = moved(along_x, 0, push_component(step.1, e.speed as int), walls);
    Player {
        position: along_y,
        speed: player.speed,
        health: clamped(player.health - e.collision_damage) as i64,
    }
}

/// The population and the player after the turn of enemy `i`. An enemy whose
/// step would bring it into contact with the player stays and pushes and
/// hurts the player instead. Otherwise it takes its step, unless another
/// enemy is in the way or the step would leave the world.
pub open spec fn after_turn(
    enemies: Seq<Enemy>,
    player: Player,
    i: int,
    walls: Seq<TileCollider>,
    delta_ms: int,
) -> (Seq<Enemy>, Player) {
    let e = enemies[i];
    match desired_target(e, player.position, delta_ms) {
        None => (enemies, player),
        Some(target) => if in_contact(player.position, target, e.radius as int) {
            (enemies, pushed(player, e, desired_step(e, player.position, delta_ms), walls))
        } else if crowded(enemies, i, target) {
            (enemies, player)
        } else {
            (enemies.update(i, Enemy { position: target, ..e }), player)
        },
    }
}

/// Whether the enemies of `after` are those of `before`, one for one, with
/// nothing changed but their places.
pub open spec fn only_moved(after: Seq<Enemy>, before: Seq<Enemy>) -> bool {
    after.len() == before.len() && forall|i: int|
        0 <= i < before.len() ==> #[trigger] after[i] == (Enemy {
            position: after[i].position,
            ..before[i]
        })
}

/// The population and the player after the turns of the first `n` enemies,
/// taken in order.
pub open spec fn after_turns(
    enemies: Seq<Enemy>,
    player: Player,
    n: nat,
    walls: Seq<TileCollider>,
    delta_ms: int,
) -> (Seq<Enemy>, Player)
    decreases n,
{
    if n == 0 {
        (enemies, player)
    } else {
        let earlier = after_turns(enemies, player, (n - 1) as nat, walls, delta_ms);
        after_turn(earlier.0, earlier.1, n - 1, walls, delta_ms)
    }
}

/// Scales one coordinate of a step down to the push speed.
fn push_amount(step: i64, speed: i64) -> (push: i64)
    requires
        -(1_000_000 * 0xffff_ffff) <= step <= 1_000_000 * 0xffff_ffff,
        0 <= speed,
    ensures
        push == push_component(step as int, speed as int),
{
    if speed == 0 {
        return 0;
    }
    if step >= 0 {
        step * PUSH_SPEED / speed
    } else {
        -((-step) * PUSH_SPEED / speed)
    }
}

/// Tests whether another enemy is in the way of enemy `i`.
fn is_crowded(enemies: &Vec<Enemy>, i: usize, target: Point) -> (hit: bool)
    requires
        i < enemies@.len(),
        enemies_wf(enemies@),
        target.wf(),
    ensures
        hit == crowded(enemies@, i as int, target),
{
    let e = enemies[i];
    assert(enemies@[i as int].wf());
    let mut j: usize = 0;
    while j < enemies.len()
        invariant
            j <= enemies@.len(),
            i < enemies@.len(),
            e == enemies@[i as int],
            e.wf(),
            target.wf(),
            enemies_wf(enemies@),
            forall|k: int| 0 <= k < j && k != i ==> !in_the_way(e, target, #[trigger] enemies@[k]),
        decreases enemies@.len() - j,
    {
        if j != i {
            let other = enemies[j];
            assert(enemies@[j as int].wf());
            if enemy_collision(target, e.radius, other.position, other.radius) || enemy_collision(
                e.position,
                e.radius,
                other.position,
                other.radius,
            ) {
                assert(in_the_way(e, target, enemies@[j as int]));
                return true;
            }
        }
        j += 1;
    }
    false
}

/// Gives enemy `i` its turn.
pub fn enemy_turn(
    enemies: &mut Vec<Enemy>,
    player: &mut Player,
    i: usize,
    walls: &Vec<TileCollider>,
    delta_ms: u32,
)
    requires
        i < old(enemies)@.len(),
        enemies_wf(old(enemies)@),
        old(player).wf(),
        walls_wf(walls@),
    ensures
        (final(enemies)@, *final(player)) == after_turn(
            old(enemies)@,
            *old(player),
            i as int,
            walls@,
            delta_ms as int,
        ),
        only_moved(final(enemies)@, old(enemies)@),
        enemies_wf(final(enemies)@),
        final(player).wf(),
{
    let e = enemies[i];
    assert(enemies@[i as int].wf());
    let step = step_towards(e.position, player.position, e.speed, delta_ms);
    assert(0 <= e.speed * delta_ms <= 1_000_000 * 0xffff_ffff) by (nonlinear_arith)
        requires
            0 <= e.speed <= 1_000_000,
            0 <= delta_ms <= 0xffff_ffff,
    ;
    let x = e.position.x + step.0;
    let y = e.position.y + step.1;
    if !(-WORLD_LIMIT <= x && x <= WORLD_LIMIT && -WORLD_LIMIT <= y && y <= WORLD_LIMIT) {
        return;
    }
    let target = Point { x, y };
    if player_collision(player.position, target, e.radius) {
        let along_x = move_if_free(player.position, push_amount(step.0, e.speed), 0, walls);
        player.position = move_if_free(along_x, 0, push_amount(step.1, e.speed), walls);
        player.health = clamped_sub(player.health, e.collision_damage);
    } else if !is_crowded(enemies, i, target) {
        enemies.set(i, Enemy { position: target, ..e });
    }
}

/// Gives every enemy its turn, in order: each sees where the enemies before
/// it have moved and where they have pushed the player.
pub fn move_enemies(
    enemies: &mut Vec<Enemy>,
    player: &mut Player,
    walls: &Vec<TileCollider>,
    delta_ms: u32,
)
    requires
        enemies_wf(old(enemies)@),
        old(player).wf(),
        walls_wf(walls@),
    ensures
        (final(enemies)@, *final(player)) == after_turns(
            old(enemies)@,
            *old(player),
            old(enemies)@.len(),
            walls@,
            delta_ms as int,
        ),
        only_moved(final(enemies)@, old(enemies)@),
        enemies_wf(final(enemies)@),
        final(player).wf(),
{
    let mut i: usize = 0;
    while i < enemies.len()
        invariant
            i <= enemies@.len(),
            only_moved(enemies@, old(enemies)@),
            enemies_wf(enemies@),
            player.wf(),
            walls_wf(walls@),
            (enemies@, *player) == after_turns(
                old(enemies)@,
                *old(player),
                i as nat,
                walls@,
                delta_ms as int,
            ),
        decreases enemies@.len() - i,
    {
        enemy_turn(enemies, player, i, walls, delta_ms);
        i += 1;
    }
}

/// Whether the tick has what it needs: a player, a population and a place
/// for drops.
pub open spec fn tick_ready(
    enemies: Option<Vec<Enemy>>,
    player: Option<Player>,
    drops: Option<Vec<Drops>>,
) -> bool {
    enemies is Some && player is Some && drops is Some
}

/// One tick of the enemy population. First the dead are removed and leave
/// their drops; then every survivor takes its turn. While the player, the
/// population or the place for drops is missing, the tick does nothing.
pub fn enemy_lifetime(
    enemies: &mut Option<Vec<Enemy>>,
    player: &mut Option<Player>,
    drops: &mut Option<Vec<Drops>>,
    walls: &Vec<TileCollider>,
    delta_ms: u32,
    rng: &mut StdRng,
)
    requires
        *old(enemies) is Some ==> enemies_wf((*old(enemies))->0@),
        *old(player) is Some ==> (*old(player))->0.wf(),
        walls_wf(walls@),
    ensures
        !tick_ready(*old(enemies), *old(player), *old(drops)) ==> *final(enemies) == *old(enemies)
            && *final(player) == *old(player) && *final(drops) == *old(drops),
        tick_ready(*old(enemies), *old(player), *old(drops)) ==> {
            let alive = (*old(enemies))->0@.filter(|e: Enemy| is_alive(e));
            let dead = (*old(enemies))->0@.filter(|e: Enemy| is_dead(e));
            &&& tick_ready(*final(enemies), *final(player), *final(drops))
            &&& is_loot_of((*final(drops))->0@, (*old(drops))->0@, dead)
            &&& ((*final(enemies))->0@, (*final(player))->0) == after_turns(
                alive,
                (*old(player))->0,
                alive.len(),
                walls@,
                delta_ms as int,
            )
            &&& only_moved((*final(enemies))->0@, alive)
            &&& forall|i: int|
                0 <= i < (*final(enemies))->0@.len() ==> is_alive(#[trigger] (*final(enemies))->0@[i])
            &&& enemies_wf((*final(enemies))->0@)
            &&& (*final(player))->0.wf()
        },
{
    if enemies.is_none() || player.is_none() || drops.is_none() {
        return;
    }
    let mut population = enemies.take().unwrap();
    let mut target = player.take().unwrap();
    let mut loot = drops.take().unwrap();
    let ghost all = population@;
    reap_dead(&mut population, &mut loot, rng);
    let ghost survivors = population@;
    proof {
        let alive = |e: Enemy| is_alive(e);
        assert forall|i: int| 0 <= i < survivors.len() implies (#[trigger] survivors[i]).wf()
            && is_alive(survivors[i]) by {
            all.lemma_filter_pred(alive, i);
            assert(survivors.contains(survivors[i]));
            all.lemma_filter_contains_rev(alive, survivors[i]);
        }
    }
    move_enemies(&mut population, &mut target, walls, delta_ms);
    proof {
        assert forall|i: int| 0 <= i < population@.len() implies is_alive(#[trigger] population@[i]) by {
            assert(is_alive(survivors[i]));
        }
    }
    *enemies = Some(population);
    *player = Some(target);
    *drops = Some(loot);
}

} // verus!
