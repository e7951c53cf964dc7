//! Component records. An entity's behaviour arises purely from which of
//! these records are associated with it in the [`crate::world::World`]
//! sparse stores.

use vstd::prelude::*;
use crate::world::Entity;

verus! {

/// A tile coordinate. Must always reference an in-bounds tile of the
/// session's map.
#[derive(Clone, Copy, PartialEq, Eq, Structural, Debug)]
pub struct Position {
    pub x: i32,
    pub y: i32,
}

/// An 8-bit-per-channel colour.
#[derive(Clone, Copy, PartialEq, Eq, Structural, Debug)]
pub struct Rgb {
    pub r: u8,
    pub g: u8,
    pub b: u8,
}

/// Presentation data; `render_order` breaks ties when several renderables
/// share a tile (0 is drawn last, on top).
#[derive(Clone, Copy, PartialEq, Eq, Structural, Debug)]
pub struct Renderable {
    pub glyph: u8,
    pub foreground: Rgb,
    pub background: Rgb,
    pub render_order: i32,
}

/// Tag: the designated player-controlled entity.
#[derive(Clone, Copy, PartialEq, Eq, Structural, Debug)]
pub struct Player {}

/// Tag: a leftward drifter; no system of the simulation pipeline consumes
/// it.
#[derive(Clone, Copy, PartialEq, Eq, Structural, Debug)]
pub struct LeftMover {}

/// Tag: an AI-driven hostile entity.
#[derive(Clone, Copy, PartialEq, Eq, Structural, Debug)]
pub struct Monster {}

/// A display name.
#[derive(Clone, Debug)]
pub struct Name {
    pub name: String,
}

/// Tag: the occupied tile is impassable for movement and pathing.
#[derive(Clone, Copy, PartialEq, Eq, Structural, Debug)]
pub struct BlocksTile {}

/// Per-entity field-of-view cache. `dirty` requests a recompute; the
/// visibility pass clears it.
pub struct ViewShed {
    pub visible_tiles: Vec<Position>,
    pub range: i32,
    pub dirty: bool,
}

/// Hit points and melee statistics. An entity is dead when
/// `current_hp < 1`.
#[derive(Clone, Copy, PartialEq, Eq, Structural, Debug)]
pub struct CombatStats {
    pub max_hp: i32,
    pub current_hp: i32,
    pub defense: i32,
    pub power: i32,
}

impl CombatStats {
    /// Fresh statistics at full health.
    pub fn new(hp: i32, defense: i32, power: i32) -> (r: CombatStats)
        ensures
            r == (CombatStats { max_hp: hp, current_hp: hp, defense, power }),
    {
        CombatStats { max_hp: hp, current_hp: hp, defense, power }
    }
}

/// One-turn melee intent, consumed and cleared by the melee phase.
#[derive(Clone, Copy, PartialEq, Eq, Structural, Debug)]
pub struct WantsToMelee {
    pub target: Entity,
}

/// Pending damage accumulator: hits append here during a turn and the
/// damage phase applies the whole sum at once.
#[derive(Clone, Debug)]
pub struct SufferDamage {
    pub amount: Vec<i32>,
}

impl SufferDamage {
    /// Appends a hit to the victim's accumulator, creating the record when
    /// the victim has none yet.
    pub fn new_damage(store: &mut Vec<Option<SufferDamage>>, victim: Entity, amount: i32)
        requires
            victim < old(store)@.len(),
        ensures
            final(store)@.len() == old(store)@.len(),
            final(store)@[victim as int] is Some,
            final(store)@[victim as int]->Some_0.amount@ == match old(store)@[victim as int] {
                Some(s) => s.amount@.push(amount),
                None => seq![amount],
            },
            forall|j: int|
                0 <= j < old(store)@.len() && j != victim ==> final(store)@[j] == old(store)@[j],
    {
        let slot = &mut store[victim];
        match slot {
            Some(suffering) => {
                suffering.amount.push(amount);
            },
            None => {
                let mut amounts: Vec<i32> = Vec::new();
                amounts.push(amount);
                *slot = Some(SufferDamage { amount: amounts });
            },
        }
    }
}

/// Tag: can be picked up and carried.
#[derive(Clone, Copy, PartialEq, Eq, Structural, Debug)]
pub struct Item {}

/// Tag: destroyed after one use.
#[derive(Clone, Copy, PartialEq, Eq, Structural, Debug)]
pub struct Consumable {}

/// Using the item restores hit points, clamped at `max_hp`.
#[derive(Clone, Copy, PartialEq, Eq, Structural, Debug)]
pub struct ProvidesHealing {
    pub heal_amount: i32,
}

/// Using the item feeds damage into the shared accumulator.
#[derive(Clone, Copy, PartialEq, Eq, Structural, Debug)]
pub struct InflictsDamage {
    pub damage: i32,
}

/// The item affects every occupant within a radius of the target tile.
#[derive(Clone, Copy, PartialEq, Eq, Structural, Debug)]
pub struct AreaOfEffect {
    pub radius: i32,
}

/// The afflicted entity loses its turns while the counter runs down.
#[derive(Clone, Copy, PartialEq, Eq, Structural, Debug)]
pub struct Confusion {
    pub turns: i32,
}

/// The item is aimed at a tile within this range.
#[derive(Clone, Copy, PartialEq, Eq, Structural, Debug)]
pub struct Ranged {
    pub range: i32,
}

/// The entity is carried rather than on the floor.
#[derive(Clone, Copy, PartialEq, Eq, Structural, Debug)]
pub struct InBackPack {
    pub owner: Entity,
}

/// One-turn intent: pick an item up off the floor.
#[derive(Clone, Copy, PartialEq, Eq, Structural, Debug)]
pub struct WantsToPickupItem {
    pub collected_by: Entity,
    pub item: Entity,
}

/// One-turn intent: use an item, optionally aimed at a tile.
#[derive(Clone, Copy, PartialEq, Eq, Structural, Debug)]
pub struct WantsToUseItem {
    pub item: Entity,
    pub target: Option<Position>,
}

/// One-turn intent: drop a carried item here.
#[derive(Clone, Copy, PartialEq, Eq, Structural, Debug)]
pub struct WantsToDropItem {
    pub item: Entity,
}

} // verus!
