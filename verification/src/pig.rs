//! Pigs: bought for money, sold for more once they have grown.
use vstd::prelude::*;
use crate::units::{clamped, clamped_add, clamped_sub, Point};
use crate::Money;

verus! {

/// What a pig costs.
pub const PIG_COST: i64 = 10;

/// What a grown pig sells for.
pub const PIG_PRICE: i64 = 15;

/// How long a pig takes to grow, in milliseconds.
pub const PIG_LIFETIME: i64 = 2000;

/// A pig: where it stands and the milliseconds it needs to grow.
#[derive(Clone, Copy, Debug, PartialEq, Eq, Structural)]
pub struct Pig {
    pub position: Point,
    pub lifetime: i64,
}

impl Pig {
    /// Whether the pig is grown within `delta_ms` milliseconds.
    pub open spec fn grown(self, delta_ms: int) -> bool {
        clamped(self.lifetime - delta_ms) <= 0
    }

    /// The pig `delta_ms` milliseconds later.
    pub open spec fn aged(self, delta_ms: int) -> Pig {
        Pig { position: self.position, lifetime: clamped(self.lifetime - delta_ms) as i64 }
    }
}

impl Pig {
    /// Tests whether the pig is grown within `delta_ms` milliseconds.
    pub fn is_grown(&self, delta_ms: u32) -> (grown: bool)
        ensures
            grown == self.grown(delta_ms as int),
    {
        clamped_sub(self.lifetime, delta_ms as i64) <= 0
    }
}

/// Whether a pig is bought: the key has been pressed, the player is there,
/// and the money suffices.
pub open spec fn buys_pig(pressed: bool, player: Option<Point>, money: Money) -> bool {
    pressed && player is Some && money.0 >= PIG_COST
}

/// Buys a pig at the player's place when the key has been pressed and the
/// money suffices. Without a player nothing is bought.
pub fn spawn_pig(pressed: bool, player: Option<Point>, money: &mut Money) -> (pig: Option<Pig>)
    ensures
        buys_pig(pressed, player, *old(money)) ==> final(money).0 == old(money).0 - PIG_COST && pig
            == Some(Pig { position: player->0, lifetime: PIG_LIFETIME }),
        !buys_pig(pressed, player, *old(money)) ==> *final(money) == *old(money) && pig is None,
{
    if !pressed {
        return None;
    }
    match player {
        Some(position) => {
            if money.0 >= PIG_COST {
                money.0 = money.0 - PIG_COST;
                Some(Pig { position, lifetime: PIG_LIFETIME })
            } else {
                None
            }
        },
        None => None,
    }
}

/// Lets the pigs grow for `delta_ms` milliseconds and sells those that are
/// grown.
pub fn pig_lifetime(pigs: &mut Vec<Pig>, money: &mut Money, delta_ms: u32)
    ensures
        final(pigs)@ == old(pigs)@.filter(|p: Pig| !p.grown(delta_ms as int)).map_values(
            |p: Pig| p.aged(delta_ms as int),
        ),
        final(money).0 == clamped(
            old(money).0 + PIG_PRICE * old(pigs)@.filter(|p: Pig| p.grown(delta_ms as int)).len(),
        ),
{
    let ghost all = pigs@;
    let ghost grows = |p: Pig| !p.grown(delta_ms as int);
    let ghost sold = |p: Pig| p.grown(delta_ms as int);
    let ghost later = |p: Pig| p.aged(delta_ms as int);
    let ghost before = money.0;
    let mut kept: Vec<Pig> = Vec::new();
    let mut i: usize = 0;
    proof {
        assert(all.take(0) =~= Seq::<Pig>::empty());
        Seq::<Pig>::empty().lemma_filter_len(grows);
        Seq::<Pig>::empty().lemma_filter_len(sold);
        assert(all.take(0).filter(grows).map_values(later) =~= Seq::<Pig>::empty());
    }
    while i < pigs.len()
        invariant
            i <= all.len(),
            pigs@ == all,
            grows == (|p: Pig| !p.grown(delta_ms as int)),
            sold == (|p: Pig| p.grown(delta_ms as int)),
            later == (|p: Pig| p.aged(delta_ms as int)),
            kept@ == all.take(i as int).filter(grows).map_values(later),
            money.0 == clamped(before + PIG_PRICE * all.take(i as int).filter(sold).len()),
        decreases all.len() - i,
    {
        let pig = pigs[i];
        proof {
            assert(all.take(i + 1) =~= all.take(i as int).push(all[i as int]));
            all.take(i as int).lemma_filter_push(all[i as int], grows);
            all.take(i as int).lemma_filter_push(all[i as int], sold);
            assert(all.take(i as int).filter(grows).push(all[i as int]).map_values(later)
                =~= all.take(i as int).filter(grows).map_values(later).push(later(all[i as int])));
        }
        if pig.is_grown(delta_ms) {
            money.0 = clamped_add(money.0, PIG_PRICE);
        } else {
            kept.push(Pig { position: pig.position, lifetime: clamped_sub(pig.lifetime, delta_ms as i64) });
        }
        i += 1;
    }
    proof {
        assert(all.take(all.len() as int) =~= all);
    }
    *pigs = kept;
}

} // verus!
