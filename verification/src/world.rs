//! The state of a game session and the order in which its systems run.
use vstd::prelude::*;
use rand::rngs::StdRng;
use crate::Money;
use crate::drops::{drops_lifetime, drops_wf, picked, remaining, DropKind, Drops, COIN_VALUE, HEAL_AMOUNT};
use crate::enemy::{
    after_turns, enemies_wf, enemy_lifetime, is_alive, is_dead, is_loot_of, tick_ready, Enemy,
};
use crate::enemy_spawner::{is_spawn_of, spawners_ticked, update_spawning, EnemySpawner, WindowSize};
use crate::player::{character_movement, walked, walls_wf, MoveInput, Player};
use crate::tilemap::TileCollider;
use crate::units::clamped;

verus! {

/// Everything that the systems read and change. The player, the population
/// and the place for drops may be missing while a level is being set up or
/// torn down; a system that needs one of them does nothing until it is there.
pub struct World {
    pub player: Option<Player>,
    pub enemies: Option<Vec<Enemy>>,
    pub drops: Option<Vec<Drops>>,
    pub walls: Vec<TileCollider>,
    pub spawners: Vec<EnemySpawner>,
    pub window: Option<WindowSize>,
    pub money: Money,
}

/// Whether two lists that may be missing are both missing or hold the same.
pub open spec fn same_list<T>(a: Option<Vec<T>>, b: Option<Vec<T>>) -> bool {
    match (a, b) {
        (Some(x), Some(y)) => x@ == y@,
        (None, None) => true,
        _ => false,
    }
}

impl World {
    /// Everything that is there lies inside the world.
    pub open spec fn wf(self) -> bool {
        &&& self.player matches Some(p) ==> p.wf()
        &&& self.enemies matches Some(e) ==> enemies_wf(e@)
        &&& self.drops matches Some(d) ==> drops_wf(d@)
        &&& walls_wf(self.walls@)
        &&& self.window matches Some(w) ==> w.wf()
    }

    /// Whether `self` is `before` after the spawners have run for `delta_ms`
    /// milliseconds.
    pub open spec fn is_spawned_from(self, before: World, delta_ms: int) -> bool {
        &&& self.player == before.player
        &&& same_list(self.drops, before.drops)
        &&& self.walls@ == before.walls@
        &&& self.window == before.window
        &&& self.money == before.money
        &&& self.enemies is Some == before.enemies is Some
        &&& match (before.enemies, before.window) {
            (Some(population), Some(w)) => spawners_ticked(self.spawners@, before.spawners@, delta_ms)
                && is_spawn_of(self.enemies->0@, population@, before.spawners@, w, delta_ms),
            _ => self.spawners@ == before.spawners@ && same_list(self.enemies, before.enemies),
        }
    }

    /// Whether `self` is `before` after the player has walked as `input`
    /// asks for `delta_ms` milliseconds.
    pub open spec fn is_walked_from(self, before: World, input: MoveInput, delta_ms: int) -> bool {
        &&& same_list(self.enemies, before.enemies)
        &&& same_list(self.drops, before.drops)
        &&& self.walls@ == before.walls@
        &&& self.spawners@ == before.spawners@
        &&& self.window == before.window
        &&& self.money == before.money
        &&& match before.player {
            Some(p) => self.player == Some(
                Player { position: walked(p, input, delta_ms, before.walls@), ..p },
            ),
            None => self.player is None,
        }
    }

    /// Whether `self` is `before` after one tick of the enemy population.
    pub open spec fn is_fought_from(self, before: World, delta_ms: int) -> bool {
        &&& self.walls@ == before.walls@
        &&& self.spawners@ == before.spawners@
        &&& self.window == before.window
        &&& self.money == before.money
        &&& if tick_ready(before.enemies, before.player, before.drops) {
            let alive = before.enemies->0@.filter(|e: Enemy| is_alive(e));
            let dead = before.enemies->0@.filter(|e: Enemy| is_dead(e));
            &&& tick_ready(self.enemies, self.player, self.drops)
            &&& is_loot_of(self.drops->0@, before.drops->0@, dead)
            &&& (self.enemies->0@, self.player->0) == after_turns(
                alive,
                before.player->0,
                alive.len(),
                before.walls@,
                delta_ms,
            )
        } else {
            same_list(self.enemies, before.enemies) && self.player == before.player && same_list(self.drops, before.drops)
        }
    }

    /// Whether `self` is `before` after the player has picked up what lies
    /// within reach.
    pub open spec fn is_collected_from(self, before: World) -> bool {
        &&& same_list(self.enemies, before.enemies)
        &&& self.walls@ == before.walls@
        &&& self.spawners@ == before.spawners@
        &&& self.window == before.window
        &&& match (before.player, before.drops) {
            (Some(p), Some(d)) => {
                &&& self.drops is Some
                &&& self.drops->0@ == remaining(d@, p.position)
                &&& self.money.0 == clamped(
                    before.money.0 + COIN_VALUE * picked(d@, p.position, DropKind::Coin),
                )
                &&& self.player == Some(
                    Player {
                        health: clamped(
                            p.health + HEAL_AMOUNT * picked(d@, p.position, DropKind::Health),
                        ) as i64,
                        ..p
                    },
                )
            },
            _ => self.player == before.player && same_list(self.drops, before.drops) && self.money
                == before.money,
        }
    }

    /// Runs the spawners. Without a population to add to, or a window to
    /// spawn in, nothing happens.
    pub fn spawn(&mut self, delta_ms: u32, rng: &mut StdRng)
        requires
            old(self).wf(),
        ensures
            final(self).is_spawned_from(*old(self), delta_ms as int),
            final(self).wf(),
    {
        if self.enemies.is_none() {
            return;
        }
        let mut population = self.enemies.take().unwrap();
        let ghost before = population@;
        update_spawning(&mut self.spawners, self.window, &mut population, delta_ms, rng);
        assert(enemies_wf(population@)) by {
            assert forall|k: int| 0 <= k < population@.len() implies (#[trigger] population@[k]).wf() by {
                if k < before.len() {
                    assert(population@[k] == before[k]);
                }
            }
        }
        self.enemies = Some(population);
    }

    /// Moves the player as the held keys ask. Without a player nothing
    /// happens.
    pub fn walk(&mut self, input: MoveInput, delta_ms: u32)
        requires
            old(self).wf(),
        ensures
            final(self).is_walked_from(*old(self), input, delta_ms as int),
            final(self).wf(),
    {
        if self.player.is_none() {
            return;
        }
        let mut player = self.player.take().unwrap();
        character_movement(&mut player, input, delta_ms, &self.walls);
        self.player = Some(player);
    }

    /// Runs one tick of the enemy population.
    pub fn fight(&mut self, delta_ms: u32, rng: &mut StdRng)
        requires
            old(self).wf(),
        ensures
            final(self).is_fought_from(*old(self), delta_ms as int),
            final(self).wf(),
    {
        enemy_lifetime(
            &mut self.enemies,
            &mut self.player,
            &mut self.drops,
            &self.walls,
            delta_ms,
            rng,
        );
        proof {
            if tick_ready(old(self).enemies, old(self).player, old(self).drops) {
                let all = old(self).enemies->0@;
                let before = old(self).drops->0@;
                let after = self.drops->0@;
                let dead = all.filter(|e: Enemy| is_dead(e));
                assert forall|k: int| 0 <= k < after.len() implies (#[trigger] after[k]).position.wf() by {
                    if k < before.len() {
                        assert(after[k] == before[k]);
                    } else {
                        let d = k - before.len();
                        assert(after[before.len() + d].position == dead[d].position);
                        assert(dead.contains(dead[d]));
                        all.lemma_filter_contains_rev(|e: Enemy| is_dead(e), dead[d]);
                    }
                }
            }
        }
    }

    /// Lets the player pick up what lies within reach. Without a player or
    /// a place for drops nothing happens.
    pub fn collect(&mut self)
        requires
            old(self).wf(),
        ensures
            final(self).is_collected_from(*old(self)),
            final(self).wf(),
    {
        if self.player.is_none() || self.drops.is_none() {
            return;
        }
        let mut player = self.player.take().unwrap();
        let mut drops = self.drops.take().unwrap();
        drops_lifetime(&mut drops, &mut player, &mut self.money);
        self.player = Some(player);
        self.drops = Some(drops);
    }
    /// Whether `self` can be what `before` becomes in one tick: the spawners
    /// run first, then the player walks, then the enemies take their tick,
    /// and last the player picks up what lies within reach.
    pub open spec fn is_ticked_from(self, before: World, input: MoveInput, delta_ms: int) -> bool {
        exists|spawned: World, walked: World, fought: World|
            {
                &&& #[trigger] spawned.is_spawned_from(before, delta_ms)
                &&& #[trigger] walked.is_walked_from(spawned, input, delta_ms)
                &&& #[trigger] fought.is_fought_from(walked, delta_ms)
                &&& self.is_collected_from(fought)
            }
    }

    /// Advances the session by one tick of `delta_ms` milliseconds, running
    /// the systems in their fixed order.
    pub fn tick(&mut self, input: MoveInput, delta_ms: u32, rng: &mut StdRng)
        requires
            old(self).wf(),
        ensures
            final(self).is_ticked_from(*old(self), input, delta_ms as int),
            final(self).wf(),
    {
        self.spawn(delta_ms, rng);
        let ghost spawned = *self;
        self.walk(input, delta_ms);
        let ghost walked = *self;
        self.fight(delta_ms, rng);
        let ghost fought = *self;
        self.collect();
        assert(spawned.is_spawned_from(*old(self), delta_ms as int));
        assert(walked.is_walked_from(spawned, input, delta_ms as int));
        assert(fought.is_fought_from(walked, delta_ms as int));
    }
}

} // verus!
