//! Deterministic game logic for a top-down arena shooter: binary-space-partition
//! room generation, doorway and wall layout, enemy population dynamics, spawning,
//! wall-gated movement and loot pickup.
//!
//! All geometry is integer fixed point: one world unit is [`units::UNIT`] sub-units,
//! and time is measured in milliseconds.
pub mod units;
pub mod random;
pub mod map_gen;
pub mod doorways;
pub mod vector;
pub mod collision;
pub mod tilemap;
pub mod wall;
pub mod player;
pub mod drops;
pub mod enemy;
pub mod enemy_spawner;
pub mod projectile;
pub mod pig;
pub mod world;

use vstd::prelude::*;

verus! {

/// The player's money.
#[derive(Clone, Copy, Debug, PartialEq, Eq, Structural)]
pub struct Money(pub i64);

} // verus!
