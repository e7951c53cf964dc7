//! Entity handles and the per-kind sparse component stores. An entity is a
//! stable index; each component kind lives in its own parallel store, and a
//! "join" is an intersection scan over the relevant stores. Entities never
//! share data except through these handles.

use vstd::prelude::*;
use crate::components::AreaOfEffect;
use crate::components::BlocksTile;
use crate::components::CombatStats;
use crate::components::Confusion;
use crate::components::Consumable;
use crate::components::InBackPack;
use crate::components::InflictsDamage;
use crate::components::Item;
use crate::components::LeftMover;
use crate::components::Monster;
use crate::components::Name;
use crate::components::Player;
use crate::components::Position;
use crate::components::ProvidesHealing;
use crate::components::Ranged;
use crate::components::Renderable;
use crate::components::SufferDamage;
use crate::components::ViewShed;
use crate::components::WantsToDropItem;
use crate::components::WantsToMelee;
use crate::components::WantsToPickupItem;
use crate::components::WantsToUseItem;

verus! {

/// An entity handle: an index into the per-kind component stores.
pub type Entity = usize;

/// The entity registry and every sparse component store, one slot per
/// entity handle. Deleting an entity clears its slot in every store.
pub struct World {
    pub alive: Vec<bool>,
    pub positions: Vec<Option<Position>>,
    pub renderables: Vec<Option<Renderable>>,
    pub players: Vec<Option<Player>>,
    pub left_movers: Vec<Option<LeftMover>>,
    pub monsters: Vec<Option<Monster>>,
    pub names: Vec<Option<Name>>,
    pub blocks_tile: Vec<Option<BlocksTile>>,
    pub viewsheds: Vec<Option<ViewShed>>,
    pub combat_stats: Vec<Option<CombatStats>>,
    pub wants_melee: Vec<Option<WantsToMelee>>,
    pub suffer_damage: Vec<Option<SufferDamage>>,
    pub items: Vec<Option<Item>>,
    pub consumables: Vec<Option<Consumable>>,
    pub provides_healing: Vec<Option<ProvidesHealing>>,
    pub inflicts_damage: Vec<Option<InflictsDamage>>,
    pub area_effects: Vec<Option<AreaOfEffect>>,
    pub confusions: Vec<Option<Confusion>>,
    pub ranged: Vec<Option<Ranged>>,
    pub backpacks: Vec<Option<InBackPack>>,
    pub wants_pickup: Vec<Option<WantsToPickupItem>>,
    pub wants_use: Vec<Option<WantsToUseItem>>,
    pub wants_drop: Vec<Option<WantsToDropItem>>,
}

impl World {
    /// Number of entity slots ever created.
    pub open spec fn num_entities(self) -> int {
        self.alive@.len() as int
    }

    /// Every store holds exactly one slot per entity.
    pub open spec fn wf(self) -> bool {
        &&& self.positions@.len() == self.num_entities()
        &&& self.renderables@.len() == self.num_entities()
        &&& self.players@.len() == self.num_entities()
        &&& self.left_movers@.len() == self.num_entities()
        &&& self.monsters@.len() == self.num_entities()
        &&& self.names@.len() == self.num_entities()
        &&& self.blocks_tile@.len() == self.num_entities()
        &&& self.viewsheds@.len() == self.num_entities()
        &&& self.combat_stats@.len() == self.num_entities()
        &&& self.wants_melee@.len() == self.num_entities()
        &&& self.suffer_damage@.len() == self.num_entities()
        &&& self.items@.len() == self.num_entities()
        &&& self.consumables@.len() == self.num_entities()
        &&& self.provides_healing@.len() == self.num_entities()
        &&& self.inflicts_damage@.len() == self.num_entities()
        &&& self.area_effects@.len() == self.num_entities()
        &&& self.confusions@.len() == self.num_entities()
        &&& self.ranged@.len() == self.num_entities()
        &&& self.backpacks@.len() == self.num_entities()
        &&& self.wants_pickup@.len() == self.num_entities()
        &&& self.wants_use@.len() == self.num_entities()
        &&& self.wants_drop@.len() == self.num_entities()
    }

    pub open spec fn is_alive(self, e: int) -> bool {
        0 <= e < self.num_entities() && self.alive@[e]
    }

    /// Entity `e` carries no component in any store.
    pub open spec fn is_bare(self, e: int) -> bool {
        &&& self.positions@[e] is None
        &&& self.renderables@[e] is None
        &&& self.players@[e] is None
        &&& self.left_movers@[e] is None
        &&& self.monsters@[e] is None
        &&& self.names@[e] is None
        &&& self.blocks_tile@[e] is None
        &&& self.viewsheds@[e] is None
        &&& self.combat_stats@[e] is None
        &&& self.wants_melee@[e] is None
        &&& self.suffer_damage@[e] is None
        &&& self.items@[e] is None
        &&& self.consumables@[e] is None
        &&& self.provides_healing@[e] is None
        &&& self.inflicts_damage@[e] is None
        &&& self.area_effects@[e] is None
        &&& self.confusions@[e] is None
        &&& self.ranged@[e] is None
        &&& self.backpacks@[e] is None
        &&& self.wants_pickup@[e] is None
        &&& self.wants_use@[e] is None
        &&& self.wants_drop@[e] is None
    }

    /// The slots of entity `e` are equal in `a` and `b`.
    pub open spec fn same_entity(a: World, b: World, e: int) -> bool {
        &&& b.alive@[e] == a.alive@[e]
        &&& b.positions@[e] == a.positions@[e]
        &&& b.renderables@[e] == a.renderables@[e]
        &&& b.players@[e] == a.players@[e]
        &&& b.left_movers@[e] == a.left_movers@[e]
        &&& b.monsters@[e] == a.monsters@[e]
        &&& b.names@[e] == a.names@[e]
        &&& b.blocks_tile@[e] == a.blocks_tile@[e]
        &&& b.viewsheds@[e] == a.viewsheds@[e]
        &&& b.combat_stats@[e] == a.combat_stats@[e]
        &&& b.wants_melee@[e] == a.wants_melee@[e]
        &&& b.suffer_damage@[e] == a.suffer_damage@[e]
        &&& b.items@[e] == a.items@[e]
        &&& b.consumables@[e] == a.consumables@[e]
        &&& b.provides_healing@[e] == a.provides_healing@[e]
        &&& b.inflicts_damage@[e] == a.inflicts_damage@[e]
        &&& b.area_effects@[e] == a.area_effects@[e]
        &&& b.confusions@[e] == a.confusions@[e]
        &&& b.ranged@[e] == a.ranged@[e]
        &&& b.backpacks@[e] == a.backpacks@[e]
        &&& b.wants_pickup@[e] == a.wants_pickup@[e]
        &&& b.wants_use@[e] == a.wants_use@[e]
        &&& b.wants_drop@[e] == a.wants_drop@[e]
    }

    /// An empty world with no entities.
    pub fn new() -> (w: World)
        ensures
            w.wf(),
            w.num_entities() == 0,
    {
        World {
            alive: Vec::new(),
            positions: Vec::new(),
            renderables: Vec::new(),
            players: Vec::new(),
            left_movers: Vec::new(),
            monsters: Vec::new(),
            names: Vec::new(),
            blocks_tile: Vec::new(),
            viewsheds: Vec::new(),
            combat_stats: Vec::new(),
            wants_melee: Vec::new(),
            suffer_damage: Vec::new(),
            items: Vec::new(),
            consumables: Vec::new(),
            provides_healing: Vec::new(),
            inflicts_damage: Vec::new(),
            area_effects: Vec::new(),
            confusions: Vec::new(),
            ranged: Vec::new(),
            backpacks: Vec::new(),
            wants_pickup: Vec::new(),
            wants_use: Vec::new(),
            wants_drop: Vec::new(),
        }
    }

    /// Creates a fresh live entity carrying no components yet.
    pub fn create_entity(&mut self) -> (e: Entity)
        requires
            old(self).wf(),
            old(self).num_entities() < usize::MAX,
        ensures
            final(self).wf(),
            e == old(self).num_entities(),
            final(self).num_entities() == old(self).num_entities() + 1,
            final(self).is_alive(e as int),
            final(self).is_bare(e as int),
            forall|j: int|
                0 <= j < old(self).num_entities() ==> World::same_entity(
                    *old(self),
                    *final(self),
                    j,
                ),
    {
        let e = self.alive.len();
        self.alive.push(true);
        self.positions.push(None);
        self.renderables.push(None);
        self.players.push(None);
        self.left_movers.push(None);
        self.monsters.push(None);
        self.names.push(None);
        self.blocks_tile.push(None);
        self.viewsheds.push(None);
        self.combat_stats.push(None);
        self.wants_melee.push(None);
        self.suffer_damage.push(None);
        self.items.push(None);
        self.consumables.push(None);
        self.provides_healing.push(None);
        self.inflicts_damage.push(None);
        self.area_effects.push(None);
        self.confusions.push(None);
        self.ranged.push(None);
        self.backpacks.push(None);
        self.wants_pickup.push(None);
        self.wants_use.push(None);
        self.wants_drop.push(None);
        e
    }

    /// Destroys an entity: it leaves the live set and every component store.
    pub fn delete_entity(&mut self, e: Entity)
        requires
            old(self).wf(),
            e < old(self).num_entities(),
        ensures
            final(self).wf(),
            final(self).num_entities() == old(self).num_entities(),
            !final(self).is_alive(e as int),
            final(self).is_bare(e as int),
            forall|j: int|
                0 <= j < old(self).num_entities() && j != e ==> World::same_entity(
                    *old(self),
                    *final(self),
                    j,
                ),
    {
        self.alive[e] = false;
        self.positions[e] = None;
        self.renderables[e] = None;
        self.players[e] = None;
        self.left_movers[e] = None;
        self.monsters[e] = None;
        self.names[e] = None;
        self.blocks_tile[e] = None;
        self.viewsheds[e] = None;
        self.combat_stats[e] = None;
        self.wants_melee[e] = None;
        self.suffer_damage[e] = None;
        self.items[e] = None;
        self.consumables[e] = None;
        self.provides_healing[e] = None;
        self.inflicts_damage[e] = None;
        self.area_effects[e] = None;
        self.confusions[e] = None;
        self.ranged[e] = None;
        self.backpacks[e] = None;
        self.wants_pickup[e] = None;
        self.wants_use[e] = None;
        self.wants_drop[e] = None;
    }
}

} // verus!
