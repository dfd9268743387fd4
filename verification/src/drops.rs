//! Loot: what dead enemies leave behind and what the player gains from it.
use vstd::prelude::*;
use crate::units::{clamped, clamped_add, Point, UNIT};
use crate::vector::{closer_than, within};
use crate::player::Player;
use crate::Money;

verus! {

/// Depth of the layer that drops lie on, behind everything that moves.
pub const DROP_LAYER: i64 = -1;

/// What a drop is.
#[derive(Clone, Copy, Debug, PartialEq, Eq, Structural)]
pub enum DropKind {
    Health,
    Coin,
    DamageUp,
}

impl DropKind {
    /// The name of the kind, which is also the name of its picture.
    pub open spec fn spec_name(self) -> Seq<char> {
        match self {
            DropKind::Health => "health"@,
            DropKind::Coin => "coin"@,
            DropKind::DamageUp => "damage_up"@,
        }
    }

    /// The name of the kind.
    pub fn name(self) -> (name: &'static str)
        ensures
            name@ == self.spec_name(),
    {
        match self {
            DropKind::Health => "health",
            DropKind::Coin => "coin",
            DropKind::DamageUp => "damage_up",
        }
    }
}

/// A pickup lying in the world.
#[derive(Clone, Copy, Debug, PartialEq, Eq, Structural)]
pub struct Drops {
    pub position: Point,
    pub layer: i64,
    pub drop_type: DropKind,
}

/// Distance within which the player picks a drop up, in sub-units.
pub const PICKUP_RADIUS: i64 = 10 * UNIT;

/// Money that a coin is worth.
pub const COIN_VALUE: i64 = 10;

/// Health that a health drop restores.
pub const HEAL_AMOUNT: i64 = 10;

/// Whether every drop lies inside the world.
pub open spec fn drops_wf(drops: Seq<Drops>) -> bool {
    forall|i: int| 0 <= i < drops.len() ==> (#[trigger] drops[i]).position.wf()
}

/// Whether `drop` lies closer to `player` than the pickup radius.
pub open spec fn in_reach(drop: Drops, player: Point) -> bool {
    within(drop.position, player, PICKUP_RADIUS as int)
}

/// The drops that stay where they are with the player at `player`.
pub open spec fn remaining(drops: Seq<Drops>, player: Point) -> Seq<Drops> {
    drops.filter(|d: Drops| !in_reach(d, player))
}

/// How many drops of kind `kind` the player picks up at `player`.
pub open spec fn picked(drops: Seq<Drops>, player: Point, kind: DropKind) -> nat {
    drops.filter(|d: Drops| in_reach(d, player) && d.drop_type == kind).len()
}

/// Tests whether a drop is within the player's reach.
pub fn within_reach(drop: &Drops, player: Point) -> (near: bool)
    requires
        drop.position.wf(),
        player.wf(),
    ensures
        near == in_reach(*drop, player),
{
    closer_than(drop.position, player, PICKUP_RADIUS)
}

/// Picks up every drop within the player's reach: a coin adds to the money, a
/// health drop heals, any other kind does nothing. A drop that is picked up is
/// gone at once, whatever its kind.
pub fn drops_lifetime(drops: &mut Vec<Drops>, player: &mut Player, money: &mut Money)
    requires
        drops_wf(old(drops)@),
        old(player).position.wf(),
    ensures
        final(drops)@ == remaining(old(drops)@, old(player).position),
        final(money).0 == clamped(
            old(money).0 + COIN_VALUE * picked(old(drops)@, old(player).position, DropKind::Coin),
        ),
        final(player).health == clamped(
            old(player).health + HEAL_AMOUNT * picked(
                old(drops)@,
                old(player).position,
                DropKind::Health,
            ),
        ),
        final(player).position == old(player).position,
        final(player).speed == old(player).speed,
        drops_wf(final(drops)@),
{
    let ghost all = drops@;
    let ghost at = player.position;
    let ghost stays = |d: Drops| !in_reach(d, at);
    let ghost coin = |d: Drops| in_reach(d, at) && d.drop_type == DropKind::Coin;
    let ghost heal = |d: Drops| in_reach(d, at) && d.drop_type == DropKind::Health;
    let ghost money_before = money.0;
    let ghost health_before = player.health;
    let mut left: Vec<Drops> = Vec::new();
    let mut i: usize = 0;
    proof {
        assert(all.take(0) =~= Seq::<Drops>::empty());
        Seq::<Drops>::empty().lemma_filter_len(stays);
        Seq::<Drops>::empty().lemma_filter_len(coin);
        Seq::<Drops>::empty().lemma_filter_len(heal);
    }
    while i < drops.len()
        invariant
            i <= all.len(),
            drops@ == all,
            drops_wf(all),
            player.position == at,
            at.wf(),
            player.speed == old(player).speed,
            stays == (|d: Drops| !in_reach(d, at)),
            coin == (|d: Drops| in_reach(d, at) && d.drop_type == DropKind::Coin),
            heal == (|d: Drops| in_reach(d, at) && d.drop_type == DropKind::Health),
            left@ == all.take(i as int).filter(stays),
            drops_wf(left@),
            money.0 == clamped(money_before + COIN_VALUE * all.take(i as int).filter(coin).len()),
            player.health == clamped(
                health_before + HEAL_AMOUNT * all.take(i as int).filter(heal).len(),
            ),
        decreases all.len() - i,
    {
        let drop = drops[i];
        proof {
            assert(all[i as int].position.wf());
            assert(all.take(i + 1) =~= all.take(i as int).push(all[i as int]));
            all.take(i as int).lemma_filter_push(all[i as int], stays);
            all.take(i as int).lemma_filter_push(all[i as int], coin);
            all.take(i as int).lemma_filter_push(all[i as int], heal);
        }
        if within_reach(&drop, player.position) {
            match drop.drop_type {
                DropKind::Coin => {
                    money.0 = clamped_add(money.0, COIN_VALUE);
                },
                DropKind::Health => {
                    player.health = clamped_add(player.health, HEAL_AMOUNT);
                },
                DropKind::DamageUp => {},
            }
        } else {
            left.push(drop);
        }
        i += 1;
    }
    proof {
        assert(all.take(all.len() as int) =~= all);
    }
    *drops = left;
}

/// A list filtered by a test that all of it passes is left as it is.
proof fn lemma_filter_all<A>(s: Seq<A>, pred: spec_fn(A) -> bool)
    requires
        forall|i: int| 0 <= i < s.len() ==> pred(#[trigger] s[i]),
    ensures
        s.filter(pred) == s,
    decreases s.len(),
{
    if s.len() == 0 {
        s.lemma_filter_len(pred);
        assert(s.filter(pred) =~= s);
    } else {
        lemma_filter_all(s.drop_last(), pred);
        assert(s.drop_last().push(s.last()) =~= s);
        s.drop_last().lemma_filter_push(s.last(), pred);
    }
}

/// A list filtered by a test that none of it passes is empty.
proof fn lemma_filter_none<A>(s: Seq<A>, pred: spec_fn(A) -> bool)
    requires
        forall|i: int| 0 <= i < s.len() ==> !pred(#[trigger] s[i]),
    ensures
        s.filter(pred).len() == 0,
    decreases s.len(),
{
    if s.len() == 0 {
        s.lemma_filter_len(pred);
    } else {
        lemma_filter_none(s.drop_last(), pred);
        assert(s.drop_last().push(s.last()) =~= s);
        s.drop_last().lemma_filter_push(s.last(), pred);
    }
}

/// A drop is picked up only once: after a pickup with the player at `player`,
/// a second pickup at the same place finds nothing within reach, so it removes
/// no drop and has no effect of any kind.
pub proof fn lemma_pickup_idempotent(drops: Seq<Drops>, player: Point, kind: DropKind)
    ensures
        remaining(remaining(drops, player), player) == remaining(drops, player),
        picked(remaining(drops, player), player, kind) == 0,
{
    let stays = |d: Drops| !in_reach(d, player);
    let taken = |d: Drops| in_reach(d, player) && d.drop_type == kind;
    let left = remaining(drops, player);
    assert forall|i: int| 0 <= i < left.len() implies stays(#[trigger] left[i]) by {
        drops.lemma_filter_pred(stays, i);
    }
    lemma_filter_all(left, stays);
    lemma_filter_none(left, taken);
}

} // verus!
