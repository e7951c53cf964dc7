//! Item use and item drop. Use-item intents funnel healing and damage
//! into the same statistics and damage-accumulator pipeline as melee
//! (healing raises hit points at most to the maximum, damage only appends
//! to accumulators), optionally over an area of effect, and consumables
//! are deleted after one use. Drop intents put a carried item back on the
//! floor. All intents are consumed.

use vstd::prelude::*;
use crate::components::CombatStats;
use crate::components::Confusion;
use crate::components::Position;
use crate::components::SufferDamage;
use crate::fov::field_of_view;
use crate::fov::fov_visible;
use crate::grid_map::GridMap;
use crate::melee_combat_system::pending_of;
use crate::world::Entity;
use crate::world::World;

verus! {

/// Healing records never drain: every heal amount is non-negative.
pub open spec fn healing_nonnegative(w: World) -> bool {
    forall|j: int|
        0 <= j < w.num_entities() && (#[trigger] w.provides_healing@[j]) is Some ==> 0
            <= w.provides_healing@[j]->Some_0.heal_amount
}

/// Every area-of-effect radius is modest enough for the field-of-view
/// arithmetic.
pub open spec fn radii_ok(w: World) -> bool {
    forall|j: int|
        0 <= j < w.num_entities() && (#[trigger] w.area_effects@[j]) is Some ==> 0
            <= w.area_effects@[j]->Some_0.radius <= 0x10_0000
}

/// Every aimed use-intent targets an in-bounds tile of `m`.
pub open spec fn use_targets_in_bounds(w: World, m: GridMap) -> bool {
    forall|j: int|
        0 <= j < w.num_entities() && (#[trigger] w.wants_use@[j]) is Some
            && w.wants_use@[j]->Some_0.target is Some ==> m.spec_in_bounds(
            w.wants_use@[j]->Some_0.target->Some_0.x as int,
            w.wants_use@[j]->Some_0.target->Some_0.y as int,
        )
}

/// The hit points of `e` evolved only by clamped healing: auxiliary
/// statistics are untouched and the new value sits between the old one
/// (or the maximum, whichever is lower) and the maximum.
pub open spec fn stats_healed_only(w_old: World, w_new: World, e: int) -> bool {
    ||| w_new.combat_stats@[e] == w_old.combat_stats@[e]
    ||| {
        let s0 = w_old.combat_stats@[e]->Some_0;
        let s1 = w_new.combat_stats@[e]->Some_0;
        &&& w_old.combat_stats@[e] is Some
        &&& w_new.combat_stats@[e] is Some
        &&& s1.max_hp == s0.max_hp
        &&& s1.defense == s0.defense
        &&& s1.power == s0.power
        &&& s1.current_hp <= s0.max_hp
        &&& (s1.current_hp >= s0.current_hp || s1.current_hp >= s0.max_hp)
    }
}

/// No use intent is pending anywhere.
pub open spec fn no_use_intents(w: World) -> bool {
    forall|j: int| 0 <= j < w.num_entities() ==> (#[trigger] w.wants_use@[j]) is None
}

/// Entity `u` holds the one and only pending use intent.
pub open spec fn sole_use_intent(w: World, u: int) -> bool {
    &&& 0 <= u < w.num_entities()
    &&& w.wants_use@[u] is Some
    &&& forall|j: int|
        0 <= j < w.num_entities() && j != u ==> (#[trigger] w.wants_use@[j]) is None
}

/// The item of the use intent held by `u`.
pub open spec fn intent_item(w: World, u: int) -> int {
    w.wants_use@[u]->Some_0.item as int
}

/// The aimed tile of the use intent held by `u`.
pub open spec fn intent_aim(w: World, u: int) -> Option<Position> {
    w.wants_use@[u]->Some_0.target
}

/// Entity `t` lies in the affected set of using `item` with aim `aim`: the
/// player itself for an unaimed use; the occupants of the aimed tile for a
/// plain aimed use; the occupants of every interior tile visible from the
/// aimed tile within the blast radius for an area-effect use.
pub open spec fn targeted(
    w: World,
    m: GridMap,
    item: int,
    aim: Option<Position>,
    player: Entity,
    t: Entity,
) -> bool {
    match aim {
        Option::None => t == player,
        Option::Some(pt) => match w.area_effects@[item] {
            Option::None => m.tile_content@[m.idx(pt.x as int, pt.y as int)]@.contains(t),
            Option::Some(area) => exists|a: i32, b: i32|
                #![trigger fov_visible(m, pt.x as int, pt.y as int, area.radius as int, a as int, b as int)]
                fov_visible(m, pt.x as int, pt.y as int, area.radius as int, a as int, b as int)
                    && 0 < a < m.width - 1 && 0 < b < m.height - 1 && m.tile_content@[m.idx(
                    a as int,
                    b as int,
                )]@.contains(t),
        },
    }
}

/// Statistics after drinking a heal of `h`: hit points rise by `h` but
/// never past the maximum; everything else is untouched.
pub open spec fn healed_stats(s: CombatStats, h: int) -> CombatStats {
    CombatStats {
        max_hp: s.max_hp,
        current_hp: (if s.current_hp + h > s.max_hp {
            s.max_hp as int
        } else {
            s.current_hp + h
        }) as i32,
        defense: s.defense,
        power: s.power,
    }
}

/// The item-use phase of the pipeline.
pub struct ItemUseSystem {}

impl ItemUseSystem {
    /// Processes every use-item intent: targets are the user's tile occupants,
    /// or the occupants within an item's blast area; healing is clamped at the
    /// target's maximum, damage goes through the shared accumulator, and a
    /// consumable item is deleted after use. Every surviving entity keeps all
    /// its other components; only consumable items ever disappear; all
    /// use-intents are consumed.
    #[verifier::rlimit(100)]
    pub fn run(world: &mut World, map: &GridMap, player_entity: Entity)
        requires
            old(world).wf(),
            map.wf(),
            (player_entity as int) < old(world).num_entities(),
            healing_nonnegative(*old(world)),
            radii_ok(*old(world)),
            use_targets_in_bounds(*old(world), *map),
        ensures
            final(world).wf(),
            final(world).num_entities() == old(world).num_entities(),
            forall|j: int|
                0 <= j < old(world).num_entities() ==> (#[trigger] final(world).wants_use@[j]) is None,
            forall|j: int|
                #![trigger final(world).alive@[j]]
                0 <= j < old(world).num_entities() && final(world).is_alive(j) ==> old(world).is_alive(j),
            forall|j: int|
                #![trigger final(world).alive@[j]]
                0 <= j < old(world).num_entities() && old(world).is_alive(j) && !final(world).is_alive(j) ==> old(world).consumables@[j] is Some,
            forall|j: int|
                #![trigger final(world).alive@[j]]
                0 <= j < old(world).num_entities() && final(world).is_alive(j) ==> final(world).positions@[j] == old(world).positions@[j] && final(world).renderables@[j] == old(world).renderables@[j] && final(world).players@[j] == old(world).players@[j] && final(world).left_movers@[j] == old(world).left_movers@[j] && final(world).monsters@[j] == old(world).monsters@[j] && final(world).names@[j] == old(world).names@[j] && final(world).blocks_tile@[j] == old(world).blocks_tile@[j] && final(world).viewsheds@[j] == old(world).viewsheds@[j] && final(world).items@[j] == old(world).items@[j] && final(world).consumables@[j] == old(world).consumables@[j] && final(world).provides_healing@[j]
                    == old(world).provides_healing@[j] && final(world).inflicts_damage@[j] == old(world).inflicts_damage@[j] && final(world).area_effects@[j] == old(world).area_effects@[j]
                    && final(world).ranged@[j] == old(world).ranged@[j] && final(world).backpacks@[j]
                    == old(world).backpacks@[j] && final(world).wants_melee@[j] == old(world).wants_melee@[j] && final(world).wants_pickup@[j] == old(world).wants_pickup@[j]
                    && final(world).wants_drop@[j] == old(world).wants_drop@[j],
            forall|j: int|
                0 <= j < old(world).num_entities() ==> (stats_healed_only(*old(world), *final(world), j)
                    || (#[trigger] final(world).combat_stats@[j]) is None),
            forall|j: int|
                0 <= j < old(world).num_entities() ==> ((#[trigger] final(world).positions@[j]) == old(world).positions@[j] || final(world).positions@[j] is None),
            forall|j: int|
                0 <= j < old(world).num_entities() ==> ((#[trigger] final(world).viewsheds@[j]) == old(world).viewsheds@[j] || final(world).viewsheds@[j] is None),
            forall|j: int|
                0 <= j < old(world).num_entities() ==> ((#[trigger] final(world).players@[j]) == old(world).players@[j] || final(world).players@[j] is None),
            forall|j: int|
                0 <= j < old(world).num_entities() ==> ((#[trigger] final(world).provides_healing@[j])
                    == old(world).provides_healing@[j] || final(world).provides_healing@[j] is None),
            forall|j: int|
                0 <= j < old(world).num_entities() ==> ((#[trigger] final(world).area_effects@[j])
                    == old(world).area_effects@[j] || final(world).area_effects@[j] is None),
            forall|j: int|
                0 <= j < old(world).num_entities() ==> ((#[trigger] final(world).wants_pickup@[j])
                    == old(world).wants_pickup@[j] || final(world).wants_pickup@[j] is None),
            forall|j: int|
                0 <= j < old(world).num_entities() ==> ((#[trigger] final(world).wants_drop@[j])
                    == old(world).wants_drop@[j] || final(world).wants_drop@[j] is None),
            forall|j: int|
                0 <= j < old(world).num_entities() ==> ((#[trigger] final(world).wants_melee@[j])
                    == old(world).wants_melee@[j] || final(world).wants_melee@[j] is None),
            forall|j: int|
                #![trigger final(world).alive@[j]]
                0 <= j < old(world).num_entities() && final(world).is_alive(j) ==> pending_of(
                    *old(world),
                    j,
                ).is_prefix_of(pending_of(*final(world), j)),
            forall|j: int|
                #![trigger final(world).alive@[j]]
                0 <= j < old(world).num_entities() && final(world).is_alive(j) ==> (final(world).confusions@[j] == old(world).confusions@[j] || final(world).confusions@[j] is Some),
            // nothing pending: nothing changes
            no_use_intents(*old(world)) ==> final(world).alive@ == old(world).alive@ && final(world).positions@ == old(world).positions@ && final(world).renderables@ == old(world).renderables@ && final(world).players@ == old(world).players@ && final(world).left_movers@ == old(world).left_movers@ && final(world).monsters@ == old(world).monsters@ && final(world).names@ == old(world).names@ && final(world).blocks_tile@ == old(world).blocks_tile@ && final(world).viewsheds@ == old(world).viewsheds@ && final(world).combat_stats@ == old(world).combat_stats@ && final(world).wants_melee@ == old(world).wants_melee@ && final(world).suffer_damage@ == old(world).suffer_damage@ && final(world).items@ == old(world).items@ && final(world).consumables@ == old(world).consumables@ && final(world).provides_healing@ == old(world).provides_healing@ && final(world).inflicts_damage@ == old(world).inflicts_damage@ && final(world).area_effects@ == old(world).area_effects@ && final(world).confusions@ == old(world).confusions@ && final(world).ranged@ == old(world).ranged@ && final(world).backpacks@ == old(world).backpacks@ && final(world).wants_pickup@ == old(world).wants_pickup@ && final(world).wants_drop@ == old(world).wants_drop@ && final(world).wants_use@ == old(world).wants_use@,
            // a single intent's consumable item is destroyed by its use
            forall|u: int|
                #[trigger] sole_use_intent(*old(world), u) && 0 <= intent_item(*old(world), u)
                    < old(world).num_entities() && old(world).consumables@[intent_item(
                    *old(world),
                    u,
                )] is Some ==> !final(world).is_alive(intent_item(*old(world), u)),
            // a single intent touches nothing outside its target set
            forall|u: int, t: int|
                #![trigger sole_use_intent(*old(world), u), old(world).combat_stats@[t]]
                sole_use_intent(*old(world), u) && 0 <= t < old(world).num_entities()
                    && !targeted(
                    *old(world),
                    *map,
                    intent_item(*old(world), u),
                    intent_aim(*old(world), u),
                    player_entity,
                    t as Entity,
                ) && t != intent_item(*old(world), u) ==> final(world).combat_stats@[t] == old(
                    world,
                ).combat_stats@[t],
            forall|u: int, t: int|
                #![trigger sole_use_intent(*old(world), u), old(world).suffer_damage@[t]]
                sole_use_intent(*old(world), u) && 0 <= t < old(world).num_entities()
                    && !targeted(
                    *old(world),
                    *map,
                    intent_item(*old(world), u),
                    intent_aim(*old(world), u),
                    player_entity,
                    t as Entity,
                ) && t != intent_item(*old(world), u) ==> final(world).suffer_damage@[t] == old(
                    world,
                ).suffer_damage@[t],
            forall|u: int, t: int|
                #![trigger sole_use_intent(*old(world), u), old(world).confusions@[t]]
                sole_use_intent(*old(world), u) && 0 <= t < old(world).num_entities()
                    && !targeted(
                    *old(world),
                    *map,
                    intent_item(*old(world), u),
                    intent_aim(*old(world), u),
                    player_entity,
                    t as Entity,
                ) && t != intent_item(*old(world), u) ==> final(world).confusions@[t] == old(
                    world,
                ).confusions@[t],
            // a single unaimed use hits exactly the player, with exact effects
            forall|u: int|
                #[trigger] sole_use_intent(*old(world), u) && intent_aim(*old(world), u) is None
                    && 0 <= intent_item(*old(world), u) < old(world).num_entities()
                    && intent_item(*old(world), u) != player_entity ==> ({
                    let item = intent_item(*old(world), u);
                    let pe = player_entity as int;
                    &&& (old(world).provides_healing@[item] is Some && old(world).combat_stats@[pe] is Some ==> final(world).combat_stats@[pe] == Some(
                        healed_stats(
                            old(world).combat_stats@[pe]->Some_0,
                            old(world).provides_healing@[item]->Some_0.heal_amount as int,
                        ),
                    ))
                    &&& (old(world).provides_healing@[item] is None ==> final(world).combat_stats@[pe] == old(world).combat_stats@[pe])
                    &&& (old(world).inflicts_damage@[item] is Some ==> pending_of(
                        *final(world),
                        pe,
                    ) == pending_of(*old(world), pe).push(
                        old(world).inflicts_damage@[item]->Some_0.damage,
                    ))
                    &&& (old(world).inflicts_damage@[item] is None ==> final(world).suffer_damage@[pe] == old(world).suffer_damage@[pe])
                    &&& (old(world).confusions@[item] is Some ==> final(world).confusions@[pe]
                        == Some(
                        Confusion { turns: old(world).confusions@[item]->Some_0.turns },
                    ))
                    &&& (old(world).confusions@[item] is None ==> final(world).confusions@[pe]
                        == old(world).confusions@[pe])
                }),
    {
        let n = world.alive.len();
        let mut e: usize = 0;
        while e < n
            invariant
                world.wf(),
                map.wf(),
                n == old(world).num_entities(),
                n == world.num_entities(),
                e <= n,
                (player_entity as int) < n,
                healing_nonnegative(*old(world)),
                radii_ok(*old(world)),
                use_targets_in_bounds(*old(world), *map),
                forall|j: int|
                    0 <= j < n ==> (#[trigger] world.wants_use@[j]) == old(world).wants_use@[j]
                        || world.wants_use@[j] is None,
                forall|j: int|
                    0 <= j < n ==> (#[trigger] world.area_effects@[j]) == old(world).area_effects@[j]
                        || world.area_effects@[j] is None,
                forall|j: int|
                    0 <= j < n ==> (#[trigger] world.provides_healing@[j]) == old(world).provides_healing@[j] || world.provides_healing@[j] is None,
                forall|j: int|
                    0 <= j < n ==> (#[trigger] world.consumables@[j]) == old(world).consumables@[j]
                        || world.consumables@[j] is None,
                forall|j: int|
                    0 <= j < n ==> (#[trigger] world.positions@[j]) == old(world).positions@[j]
                        || world.positions@[j] is None,
                forall|j: int|
                    0 <= j < n ==> (#[trigger] world.viewsheds@[j]) == old(world).viewsheds@[j]
                        || world.viewsheds@[j] is None,
                forall|j: int|
                    0 <= j < n ==> (#[trigger] world.players@[j]) == old(world).players@[j]
                        || world.players@[j] is None,
                forall|j: int|
                    0 <= j < n ==> (#[trigger] world.wants_pickup@[j]) == old(world).wants_pickup@[j]
                        || world.wants_pickup@[j] is None,
                forall|j: int|
                    0 <= j < n ==> (#[trigger] world.wants_drop@[j]) == old(world).wants_drop@[j]
                        || world.wants_drop@[j] is None,
                forall|j: int|
                    0 <= j < n ==> (#[trigger] world.wants_melee@[j]) == old(
                        world,
                    ).wants_melee@[j] || world.wants_melee@[j] is None,
                forall|j: int|
                    0 <= j < n ==> (stats_healed_only(*old(world), *world, j) || (
                    #[trigger] world.combat_stats@[j]) is None),
                forall|j: int| #![trigger world.alive@[j]] 0 <= j < n && world.is_alive(j) ==> old(world).is_alive(j),
                forall|j: int|
                    #![trigger world.alive@[j]]
                    0 <= j < n && old(world).is_alive(j) && !world.is_alive(j) ==> old(world).consumables@[j] is Some,
                forall|j: int|
                    #![trigger world.alive@[j]]
                    0 <= j < n && world.is_alive(j) ==> world.positions@[j] == old(world).positions@[j] && world.renderables@[j] == old(world).renderables@[j]
                        && world.players@[j] == old(world).players@[j] && world.left_movers@[j] == old(world).left_movers@[j] && world.monsters@[j] == old(world).monsters@[j]
                        && world.names@[j] == old(world).names@[j] && world.blocks_tile@[j] == old(world).blocks_tile@[j] && world.viewsheds@[j] == old(world).viewsheds@[j]
                        && world.items@[j] == old(world).items@[j] && world.consumables@[j] == old(world).consumables@[j] && world.provides_healing@[j] == old(world).provides_healing@[j]
                        && world.inflicts_damage@[j] == old(world).inflicts_damage@[j]
                        && world.area_effects@[j] == old(world).area_effects@[j] && world.ranged@[j]
                        == old(world).ranged@[j] && world.backpacks@[j] == old(world).backpacks@[j]
                        && world.wants_melee@[j] == old(world).wants_melee@[j]
                        && world.wants_pickup@[j] == old(world).wants_pickup@[j]
                        && world.wants_drop@[j] == old(world).wants_drop@[j],
                forall|j: int|
                    #![trigger world.alive@[j]]
                    0 <= j < n && world.is_alive(j) ==> pending_of(*old(world), j).is_prefix_of(
                        pending_of(*world, j),
                    ),
                forall|j: int|
                    0 <= j < n && #[trigger] world.is_alive(j) ==> (world.confusions@[j] == old(world).confusions@[j] || world.confusions@[j] is Some),
                no_use_intents(*old(world)) ==> world.alive@ == old(world).alive@ &&
                    world.positions@ == old(world).positions@ &&
                    world.renderables@ == old(world).renderables@ &&
                    world.players@ == old(world).players@ &&
                    world.left_movers@ == old(world).left_movers@ &&
                    world.monsters@ == old(world).monsters@ &&
                    world.names@ == old(world).names@ &&
                    world.blocks_tile@ == old(world).blocks_tile@ &&
                    world.viewsheds@ == old(world).viewsheds@ &&
                    world.combat_stats@ == old(world).combat_stats@ &&
                    world.wants_melee@ == old(world).wants_melee@ &&
                    world.suffer_damage@ == old(world).suffer_damage@ &&
                    world.items@ == old(world).items@ &&
                    world.consumables@ == old(world).consumables@ &&
                    world.provides_healing@ == old(world).provides_healing@ &&
                    world.inflicts_damage@ == old(world).inflicts_damage@ &&
                    world.area_effects@ == old(world).area_effects@ &&
                    world.confusions@ == old(world).confusions@ &&
                    world.ranged@ == old(world).ranged@ &&
                    world.backpacks@ == old(world).backpacks@ &&
                    world.wants_pickup@ == old(world).wants_pickup@ &&
                    world.wants_drop@ == old(world).wants_drop@ &&
                    world.wants_use@ == old(world).wants_use@,
                forall|u2: int|
                    #[trigger] sole_use_intent(*old(world), u2) && e <= u2 ==> world.alive@ == old(world).alive@ &&
                        world.positions@ == old(world).positions@ &&
                        world.renderables@ == old(world).renderables@ &&
                        world.players@ == old(world).players@ &&
                        world.left_movers@ == old(world).left_movers@ &&
                        world.monsters@ == old(world).monsters@ &&
                        world.names@ == old(world).names@ &&
                        world.blocks_tile@ == old(world).blocks_tile@ &&
                        world.viewsheds@ == old(world).viewsheds@ &&
                        world.combat_stats@ == old(world).combat_stats@ &&
                        world.wants_melee@ == old(world).wants_melee@ &&
                        world.suffer_damage@ == old(world).suffer_damage@ &&
                        world.items@ == old(world).items@ &&
                        world.consumables@ == old(world).consumables@ &&
                        world.provides_healing@ == old(world).provides_healing@ &&
                        world.inflicts_damage@ == old(world).inflicts_damage@ &&
                        world.area_effects@ == old(world).area_effects@ &&
                        world.confusions@ == old(world).confusions@ &&
                        world.ranged@ == old(world).ranged@ &&
                        world.backpacks@ == old(world).backpacks@ &&
                        world.wants_pickup@ == old(world).wants_pickup@ &&
                        world.wants_drop@ == old(world).wants_drop@ &&
                        world.wants_use@ == old(world).wants_use@,
                forall|u2: int|
                    #[trigger] sole_use_intent(*old(world), u2) && u2 < e && 0 <= intent_item(
                        *old(world),
                        u2,
                    ) < n && old(world).consumables@[intent_item(*old(world), u2)] is Some
                        ==> !world.is_alive(intent_item(*old(world), u2)),
                forall|u2: int, t: int|
                    #![trigger sole_use_intent(*old(world), u2), old(world).combat_stats@[t]]
                    sole_use_intent(*old(world), u2) && 0 <= t < n && !targeted(
                        *old(world),
                        *map,
                        intent_item(*old(world), u2),
                        intent_aim(*old(world), u2),
                        player_entity,
                        t as Entity,
                    ) && t != intent_item(*old(world), u2) ==> world.combat_stats@[t] == old(
                        world,
                    ).combat_stats@[t],
                forall|u2: int, t: int|
                    #![trigger sole_use_intent(*old(world), u2), old(world).suffer_damage@[t]]
                    sole_use_intent(*old(world), u2) && 0 <= t < n && !targeted(
                        *old(world),
                        *map,
                        intent_item(*old(world), u2),
                        intent_aim(*old(world), u2),
                        player_entity,
                        t as Entity,
                    ) && t != intent_item(*old(world), u2) ==> world.suffer_damage@[t] == old(
                        world,
                    ).suffer_damage@[t],
                forall|u2: int, t: int|
                    #![trigger sole_use_intent(*old(world), u2), old(world).confusions@[t]]
                    sole_use_intent(*old(world), u2) && 0 <= t < n && !targeted(
                        *old(world),
                        *map,
                        intent_item(*old(world), u2),
                        intent_aim(*old(world), u2),
                        player_entity,
                        t as Entity,
                    ) && t != intent_item(*old(world), u2) ==> world.confusions@[t] == old(
                        world,
                    ).confusions@[t],
                forall|u2: int|
                    #[trigger] sole_use_intent(*old(world), u2) && u2 < e && intent_aim(
                        *old(world),
                        u2,
                    ) is None && 0 <= intent_item(*old(world), u2) < n && intent_item(
                        *old(world),
                        u2,
                    ) != player_entity ==> ({
                        let item = intent_item(*old(world), u2);
                        let pe = player_entity as int;
                        &&& (old(world).provides_healing@[item] is Some && old(world).combat_stats@[pe] is Some ==> world.combat_stats@[pe] == Some(
                            healed_stats(
                                old(world).combat_stats@[pe]->Some_0,
                                old(world).provides_healing@[item]->Some_0.heal_amount as int,
                            ),
                        ))
                        &&& (old(world).provides_healing@[item] is None ==> world.combat_stats@[pe]
                            == old(world).combat_stats@[pe])
                        &&& (old(world).inflicts_damage@[item] is Some ==> pending_of(*world, pe)
                            == pending_of(*old(world), pe).push(
                            old(world).inflicts_damage@[item]->Some_0.damage,
                        ))
                        &&& (old(world).inflicts_damage@[item] is None ==> world.suffer_damage@[pe]
                            == old(world).suffer_damage@[pe])
                        &&& (old(world).confusions@[item] is Some ==> world.confusions@[pe]
                            == Some(
                            Confusion { turns: old(world).confusions@[item]->Some_0.turns },
                        ))
                        &&& (old(world).confusions@[item] is None ==> world.confusions@[pe] == old(world).confusions@[pe])
                    }),
            decreases n - e,
        {
            let ghost w_top = *world;
            let mut has = false;
            let mut item: usize = 0;
            let mut aim: Option<Position> = None;
            match &world.wants_use[e] {
                Some(intent) => {
                    has = true;
                    item = intent.item;
                    aim = intent.target;
                },
                None => {},
            }
            if has && item < n {
                let ghost sole_here = sole_use_intent(*old(world), e as int);
                proof {
                    assert(world.wants_use@[e as int] == old(world).wants_use@[e as int]
                        || world.wants_use@[e as int] is None);
                    assert(old(world).wants_use@[e as int] is Some);
                    assert forall|u2: int|
                        #[trigger] sole_use_intent(*old(world), u2) implies u2 == e by {}
                    if sole_here {
                        assert(world.wants_use@[e as int] == old(world).wants_use@[e as int]);
                        assert(item as int == intent_item(*old(world), e as int));
                        assert(aim == intent_aim(*old(world), e as int));
                    }
                }
                // TARGETING
                let mut targets: Vec<Entity> = Vec::new();
                match aim {
                    None => {
                        targets.push(player_entity);
                        proof {
                            assert(targets@ =~= seq![player_entity]);
                        }
                    },
                    Some(target_pos) => {
                        proof {
                            assert(world.wants_use@[e as int] == old(world).wants_use@[e as int]
                                || world.wants_use@[e as int] is None);
                            assert(map.spec_in_bounds(target_pos.x as int, target_pos.y as int));
                        }
                        let mut radius: i32 = 0;
                        let mut has_aoe = false;
                        match &world.area_effects[item] {
                            Some(area) => {
                                has_aoe = true;
                                radius = area.radius;
                            },
                            None => {},
                        }
                        if has_aoe {
                            proof {
                                assert(world.area_effects@[item as int] == old(world).area_effects@[item as int]);
                                assert(0 <= radius <= 0x10_0000);
                                assert(old(world).area_effects@[item as int] is Some && old(world).area_effects@[item as int]->Some_0.radius == radius);
                            }
                            let blast = field_of_view(map, target_pos.x, target_pos.y, radius);
                            let mut b: usize = 0;
                            while b < blast.len()
                                invariant
                                    map.wf(),
                                    b <= blast@.len(),
                                    sole_here ==> forall|k: int|
                                        0 <= k < targets@.len() ==> targeted(
                                            *old(world),
                                            *map,
                                            item as int,
                                            aim,
                                            player_entity,
                                            #[trigger] targets@[k],
                                        ),
                                    sole_here ==> old(world).area_effects@[item as int] is Some
                                        && old(world).area_effects@[item as int]->Some_0.radius
                                        == radius,
                                    sole_here == sole_use_intent(*old(world), e as int),
                                    aim is Some && aim->Some_0 == target_pos,
                                    forall|k: int|
                                        0 <= k < blast@.len() ==> fov_visible(
                                            *map,
                                            target_pos.x as int,
                                            target_pos.y as int,
                                            radius as int,
                                            (#[trigger] blast@[k]).x as int,
                                            blast@[k].y as int,
                                        ),
                                decreases blast@.len() - b,
                            {
                                let tile_pos = blast[b];
                                if tile_pos.x > 0 && tile_pos.x < map.width - 1 && tile_pos.y > 0
                                    && tile_pos.y < map.height - 1 {
                    let occupants = map.get_tile_content(tile_pos.x, tile_pos.y);
                                    let mut oi: usize = 0;
                                    while oi < occupants.len()
                                        invariant
                                            map.wf(),
                                            oi <= occupants@.len(),
                                            occupants@ == map.tile_content@[map.idx(
                                                tile_pos.x as int,
                                                tile_pos.y as int,
                                            )]@,
                                            map.spec_interior(tile_pos.x as int, tile_pos.y as int),
                                            fov_visible(
                                                *map,
                                                target_pos.x as int,
                                                target_pos.y as int,
                                                radius as int,
                                                tile_pos.x as int,
                                                tile_pos.y as int,
                                            ),
                                            sole_here ==> forall|k: int|
                                                0 <= k < targets@.len() ==> targeted(
                                                    *old(world),
                                                    *map,
                                                    item as int,
                                                    aim,
                                                    player_entity,
                                                    #[trigger] targets@[k],
                                                ),
                                            sole_here ==> old(world).area_effects@[item as int]
                                                is Some && old(world).area_effects@[item as int]->Some_0.radius == radius,
                                            sole_here == sole_use_intent(*old(world), e as int),
                                            aim is Some && aim->Some_0 == target_pos,
                                        decreases occupants@.len() - oi,
                                    {
                                        targets.push(occupants[oi]);
                                        proof {
                                            if sole_here {
                                                assert(map.tile_content@[map.idx(
                                                    tile_pos.x as int,
                                                    tile_pos.y as int,
                                                )]@.contains(occupants@[oi as int]));
                                                assert(targeted(
                                                    *old(world),
                                                    *map,
                                                    item as int,
                                                    aim,
                                                    player_entity,
                                                    occupants@[oi as int],
                                                ));
                                            }
                                        }
                                        oi += 1;
                                    }
                                }
                                b += 1;
                            }
                        } else {
                            proof {
                                if sole_here {
                                    assert(world.area_effects@[item as int] == old(world).area_effects@[item as int]);
                                    assert(old(world).area_effects@[item as int] is None);
                                }
                            }
                            let occupants = map.get_tile_content(target_pos.x, target_pos.y);
                            let mut oi: usize = 0;
                            while oi < occupants.len()
                                invariant
                                    map.wf(),
                                    oi <= occupants@.len(),
                                    occupants@ == map.tile_content@[map.idx(
                                        target_pos.x as int,
                                        target_pos.y as int,
                                    )]@,
                                    sole_here ==> forall|k: int|
                                        0 <= k < targets@.len() ==> targeted(
                                            *old(world),
                                            *map,
                                            item as int,
                                            aim,
                                            player_entity,
                                            #[trigger] targets@[k],
                                        ),
                                    sole_here ==> old(world).area_effects@[item as int] is None,
                                    sole_here == sole_use_intent(*old(world), e as int),
                                    aim is Some && aim->Some_0 == target_pos,
                                decreases occupants@.len() - oi,
                            {
                                targets.push(occupants[oi]);
                                proof {
                                    if sole_here {
                                        assert(map.tile_content@[map.idx(
                                            target_pos.x as int,
                                            target_pos.y as int,
                                        )]@.contains(occupants@[oi as int]));
                                        assert(targeted(
                                            *old(world),
                                            *map,
                                            item as int,
                                            aim,
                                            player_entity,
                                            occupants@[oi as int],
                                        ));
                                    }
                                }
                                oi += 1;
                            }
                        }
                    },
                }
                // EFFECTS: clamped healing, accumulated damage, confusion
                let mut heal: i32 = 0;
                let mut heals = false;
                match &world.provides_healing[item] {
                    Some(h) => {
                        heals = true;
                        heal = h.heal_amount;
                    },
                    None => {},
                }
                proof {
                    if heals {
                        assert(world.provides_healing@[item as int] == old(world).provides_healing@[item as int]);
                        assert(0 <= heal);
                    }
                }
                let mut damage: i32 = 0;
                let mut damages = false;
                match &world.inflicts_damage[item] {
                    Some(d) => {
                        damages = true;
                        damage = d.damage;
                    },
                    None => {},
                }
                let mut confusion_turns: i32 = 0;
                let mut confuses = false;
                match &world.confusions[item] {
                    Some(c) => {
                        confuses = true;
                        confusion_turns = c.turns;
                    },
                    None => {},
                }
                proof {
                    if sole_here {
                        assert(world.provides_healing@[item as int] == old(world).provides_healing@[item as int]);
                        assert(world.inflicts_damage@[item as int] == old(world).inflicts_damage@[item as int]);
                        assert(world.confusions@[item as int] == old(world).confusions@[item as int]);
                    }
                }
                let mut ti: usize = 0;
                while ti < targets.len()
                    invariant
                        world.wf(),
                        n == old(world).num_entities(),
                        n == world.num_entities(),
                        ti <= targets@.len(),
                        heals ==> 0 <= heal,
                        forall|j: int|
                            0 <= j < n ==> (#[trigger] world.wants_use@[j]) == old(world).wants_use@[j] || world.wants_use@[j] is None,
                        forall|j: int|
                            0 <= j < n ==> (#[trigger] world.area_effects@[j]) == old(world).area_effects@[j] || world.area_effects@[j] is None,
                        forall|j: int|
                            0 <= j < n ==> (#[trigger] world.provides_healing@[j]) == old(world).provides_healing@[j] || world.provides_healing@[j] is None,
                        forall|j: int|
                            0 <= j < n ==> (#[trigger] world.consumables@[j]) == old(world).consumables@[j] || world.consumables@[j] is None,
                        forall|j: int|
                            0 <= j < n ==> (#[trigger] world.positions@[j]) == old(world).positions@[j] || world.positions@[j] is None,
                        forall|j: int|
                            0 <= j < n ==> (#[trigger] world.viewsheds@[j]) == old(world).viewsheds@[j] || world.viewsheds@[j] is None,
                        forall|j: int|
                            0 <= j < n ==> (#[trigger] world.players@[j]) == old(world).players@[j]
                                || world.players@[j] is None,
                        forall|j: int|
                            0 <= j < n ==> (#[trigger] world.wants_pickup@[j]) == old(world).wants_pickup@[j] || world.wants_pickup@[j] is None,
                        forall|j: int|
                            0 <= j < n ==> (#[trigger] world.wants_drop@[j]) == old(world).wants_drop@[j] || world.wants_drop@[j] is None,
                        forall|j: int|
                            0 <= j < n ==> (#[trigger] world.wants_melee@[j]) == old(
                                world,
                            ).wants_melee@[j] || world.wants_melee@[j] is None,
                        forall|j: int|
                            0 <= j < n ==> (stats_healed_only(*old(world), *world, j) || (
                            #[trigger] world.combat_stats@[j]) is None),
                        forall|j: int|
                            #![trigger world.alive@[j]]
                            0 <= j < n && world.is_alive(j) ==> old(world).is_alive(j),
                        forall|j: int|
                            #![trigger world.alive@[j]]
                            0 <= j < n && old(world).is_alive(j) && !world.is_alive(j) ==> old(world).consumables@[j] is Some,
                        forall|j: int|
                            #![trigger world.alive@[j]]
                            0 <= j < n && world.is_alive(j) ==> world.positions@[j] == old(world).positions@[j] && world.renderables@[j] == old(world).renderables@[j]
                                && world.players@[j] == old(world).players@[j] && world.left_movers@[j]
                                == old(world).left_movers@[j] && world.monsters@[j] == old(world).monsters@[j] && world.names@[j] == old(world).names@[j]
                                && world.blocks_tile@[j] == old(world).blocks_tile@[j]
                                && world.viewsheds@[j] == old(world).viewsheds@[j] && world.items@[j]
                                == old(world).items@[j] && world.consumables@[j] == old(world).consumables@[j] && world.provides_healing@[j] == old(world).provides_healing@[j] && world.inflicts_damage@[j] == old(world).inflicts_damage@[j] && world.area_effects@[j] == old(world).area_effects@[j] && world.ranged@[j] == old(world).ranged@[j]
                                && world.backpacks@[j] == old(world).backpacks@[j]
                                && world.wants_melee@[j] == old(world).wants_melee@[j]
                                && world.wants_pickup@[j] == old(world).wants_pickup@[j]
                                && world.wants_drop@[j] == old(world).wants_drop@[j],
                        forall|j: int|
                            #![trigger world.alive@[j]]
                            0 <= j < n && world.is_alive(j) ==> pending_of(*old(world), j).is_prefix_of(
                                pending_of(*world, j),
                            ),
                        forall|j: int|
                            #![trigger world.alive@[j]]
                            0 <= j < n && world.is_alive(j) ==> (world.confusions@[j] == old(world).confusions@[j] || world.confusions@[j] is Some),
                        (player_entity as int) < n,
                        sole_here == sole_use_intent(*old(world), e as int),
                        sole_here ==> item as int == intent_item(*old(world), e as int) && aim
                            == intent_aim(*old(world), e as int),
                        sole_here ==> world.alive@ == old(world).alive@ && world.consumables@
                            == old(world).consumables@ && world.wants_use@ == old(world).wants_use@ && world.positions@ == old(world).positions@
                            && world.viewsheds@ == old(world).viewsheds@ && world.players@ == old(world).players@ && world.provides_healing@ == old(world).provides_healing@
                            && world.inflicts_damage@ == old(world).inflicts_damage@
                            && world.area_effects@ == old(world).area_effects@,
                        sole_here ==> (heals <==> old(world).provides_healing@[item as int]
                            is Some) && (heals ==> heal == old(world).provides_healing@[item as int]->Some_0.heal_amount) && (damages <==> old(world).inflicts_damage@[item as int] is Some) && (damages ==> damage == old(world).inflicts_damage@[item as int]->Some_0.damage) && (confuses <==> old(world).confusions@[item as int] is Some) && (confuses ==> confusion_turns
                            == old(world).confusions@[item as int]->Some_0.turns),
                        sole_here ==> forall|k: int|
                            0 <= k < targets@.len() ==> targeted(
                                *old(world),
                                *map,
                                item as int,
                                aim,
                                player_entity,
                                #[trigger] targets@[k],
                            ),
                        sole_here ==> forall|t2: int|
                            #![trigger world.combat_stats@[t2]]
                            0 <= t2 < n && !targeted(
                                *old(world),
                                *map,
                                item as int,
                                aim,
                                player_entity,
                                t2 as Entity,
                            ) && t2 != item ==> world.combat_stats@[t2] == old(world).combat_stats@[t2],
                        sole_here ==> forall|t2: int|
                            #![trigger world.suffer_damage@[t2]]
                            0 <= t2 < n && !targeted(
                                *old(world),
                                *map,
                                item as int,
                                aim,
                                player_entity,
                                t2 as Entity,
                            ) && t2 != item ==> world.suffer_damage@[t2] == old(world).suffer_damage@[t2],
                        sole_here ==> forall|t2: int|
                            #![trigger world.confusions@[t2]]
                            0 <= t2 < n && !targeted(
                                *old(world),
                                *map,
                                item as int,
                                aim,
                                player_entity,
                                t2 as Entity,
                            ) && t2 != item ==> world.confusions@[t2] == old(world).confusions@[t2],
                        (sole_here && aim is None) ==> targets@ == seq![player_entity],
                        (sole_here && aim is None && item != player_entity) ==> ({
                            let pe = player_entity as int;
                            if ti == 0 {
                                world.combat_stats@[pe] == old(world).combat_stats@[pe]
                                    && world.suffer_damage@[pe] == old(world).suffer_damage@[pe]
                                    && world.confusions@[pe] == old(world).confusions@[pe]
                            } else {
                                &&& (heals && old(world).combat_stats@[pe] is Some
                                    ==> world.combat_stats@[pe] == Some(
                                    healed_stats(
                                        old(world).combat_stats@[pe]->Some_0,
                                        heal as int,
                                    ),
                                ))
                                &&& (!heals ==> world.combat_stats@[pe] == old(world).combat_stats@[pe])
                                &&& (damages ==> pending_of(*world, pe) == pending_of(
                                    *old(world),
                                    pe,
                                ).push(damage))
                                &&& (!damages ==> world.suffer_damage@[pe] == old(world).suffer_damage@[pe])
                                &&& (confuses ==> world.confusions@[pe] == Some(
                                    Confusion { turns: confusion_turns },
                                ))
                                &&& (!confuses ==> world.confusions@[pe] == old(world).confusions@[pe])
                            }
                        }),
                    decreases targets@.len() - ti,
                {
                    let ghost w_round = *world;
                    let t = targets[ti];
                    proof {
                        if sole_here {
                            assert(targeted(
                                *old(world),
                                *map,
                                item as int,
                                aim,
                                player_entity,
                                targets@[ti as int],
                            ));
                        }
                    }
                    if t < n {
                        if heals {
                            let ghost w_heal = *world;
                            let mut cur: Option<crate::components::CombatStats> = None;
                            match &world.combat_stats[t] {
                                Some(s) => {
                                    cur = Some(*s);
                                },
                                None => {},
                            }
                            match cur {
                                Some(s) => {
                                    let healed64: i64 = (s.current_hp as i64) + (heal as i64);
                                    let new_hp: i32 = if healed64 > (s.max_hp as i64) {
                                        s.max_hp
                                    } else {
                                        healed64 as i32
                                    };
                                    world.combat_stats[t] = Some(
                                        crate::components::CombatStats {
                                            max_hp: s.max_hp,
                                            current_hp: new_hp,
                                            defense: s.defense,
                                            power: s.power,
                                        },
                                    );
                                    proof {
                                        assert forall|j: int|
                                            0 <= j < n implies (stats_healed_only(
                                            *old(world),
                                            *world,
                                            j,
                                        ) || (#[trigger] world.combat_stats@[j]) is None) by {
                                            assert(stats_healed_only(*old(world), w_heal, j)
                                                || w_heal.combat_stats@[j] is None);
                                            if j != t {
                                                assert(world.combat_stats@[j]
                                                    == w_heal.combat_stats@[j]);
                                            }
                                        }
                                        assert forall|j: int|
                                            #![trigger world.alive@[j]]
                                            0 <= j < n && world.is_alive(j) implies pending_of(
                                            *old(world),
                                            j,
                                        ).is_prefix_of(pending_of(*world, j)) by {
                                            assert(w_heal.is_alive(j));
                                            assert(pending_of(*old(world), j).is_prefix_of(
                                                pending_of(w_heal, j),
                                            ));
                                            assert(pending_of(*world, j) == pending_of(w_heal, j));
                                        }
                                    }
                                },
                                None => {},
                            }
                        }
                        if damages {
                            let ghost w_dmg = *world;
                            SufferDamage::new_damage(&mut world.suffer_damage, t, damage);
                            proof {
                                assert forall|j: int|
                                    #![trigger world.alive@[j]]
                                    0 <= j < n && world.is_alive(j) implies pending_of(
                                    *old(world),
                                    j,
                                ).is_prefix_of(pending_of(*world, j)) by {
                                    assert(w_dmg.is_alive(j));
                                    assert(pending_of(*old(world), j).is_prefix_of(
                                        pending_of(w_dmg, j),
                                    ));
                                    if j == t {
                                        assert(pending_of(*world, j) == pending_of(w_dmg, j).push(
                                            damage,
                                        ));
                                    } else {
                                        assert(pending_of(*world, j) == pending_of(w_dmg, j));
                                    }
                                }
                                assert forall|j: int|
                                    0 <= j < n implies (stats_healed_only(*old(world), *world, j) || (
                                    #[trigger] world.combat_stats@[j]) is None) by {
                                    assert(stats_healed_only(*old(world), w_dmg, j)
                                        || w_dmg.combat_stats@[j] is None);
                                    assert(world.combat_stats@[j] == w_dmg.combat_stats@[j]);
                                }
                            }
                        }
                        if confuses {
                            let ghost w_conf = *world;
                            world.confusions[t] = Some(Confusion { turns: confusion_turns });
                            proof {
                                assert forall|j: int|
                                    #![trigger world.alive@[j]]
                                    0 <= j < n && world.is_alive(j) implies (
                                world.confusions@[j] == old(world).confusions@[j]
                                    || world.confusions@[j] is Some) && pending_of(
                                    *old(world),
                                    j,
                                ).is_prefix_of(pending_of(*world, j)) by {
                                    assert(w_conf.is_alive(j));
                                    assert(pending_of(*old(world), j).is_prefix_of(
                                        pending_of(w_conf, j),
                                    ));
                                    assert(pending_of(*world, j) == pending_of(w_conf, j));
                                    if j != t {
                                        assert(world.confusions@[j] == w_conf.confusions@[j]);
                                        assert(w_conf.confusions@[j] == old(world).confusions@[j]
                                            || w_conf.confusions@[j] is Some);
                                    }
                                }
                                assert forall|j: int|
                                    0 <= j < n implies (stats_healed_only(*old(world), *world, j) || (
                                    #[trigger] world.combat_stats@[j]) is None) by {
                                    assert(stats_healed_only(*old(world), w_conf, j)
                                        || w_conf.combat_stats@[j] is None);
                                    assert(world.combat_stats@[j] == w_conf.combat_stats@[j]);
                                }
                            }
                        }
                    }
                    proof {
                        if sole_here {
                            assert forall|t2: int|
                                #![trigger world.combat_stats@[t2]]
                                0 <= t2 < n && !targeted(
                                    *old(world),
                                    *map,
                                    item as int,
                                    aim,
                                    player_entity,
                                    t2 as Entity,
                                ) && t2 != item implies world.combat_stats@[t2] == old(
                                world,
                            ).combat_stats@[t2] by {
                                if t2 == t as int && (t as int) < n {
                                    assert((t2 as Entity) == t);
                                    assert(targeted(
                                        *old(world),
                                        *map,
                                        item as int,
                                        aim,
                                        player_entity,
                                        t,
                                    ));
                                }
                                assert(world.combat_stats@[t2] == w_round.combat_stats@[t2]);
                            }
                            assert forall|t2: int|
                                #![trigger world.suffer_damage@[t2]]
                                0 <= t2 < n && !targeted(
                                    *old(world),
                                    *map,
                                    item as int,
                                    aim,
                                    player_entity,
                                    t2 as Entity,
                                ) && t2 != item implies world.suffer_damage@[t2] == old(
                                world,
                            ).suffer_damage@[t2] by {
                                if t2 == t as int && (t as int) < n {
                                    assert((t2 as Entity) == t);
                                    assert(targeted(
                                        *old(world),
                                        *map,
                                        item as int,
                                        aim,
                                        player_entity,
                                        t,
                                    ));
                                }
                                assert(world.suffer_damage@[t2] == w_round.suffer_damage@[t2]);
                            }
                            assert forall|t2: int|
                                #![trigger world.confusions@[t2]]
                                0 <= t2 < n && !targeted(
                                    *old(world),
                                    *map,
                                    item as int,
                                    aim,
                                    player_entity,
                                    t2 as Entity,
                                ) && t2 != item implies world.confusions@[t2] == old(
                                world,
                            ).confusions@[t2] by {
                                if t2 == t as int && (t as int) < n {
                                    assert((t2 as Entity) == t);
                                    assert(targeted(
                                        *old(world),
                                        *map,
                                        item as int,
                                        aim,
                                        player_entity,
                                        t,
                                    ));
                                }
                                assert(world.confusions@[t2] == w_round.confusions@[t2]);
                            }
                            if aim.is_none() && item != player_entity {
                                let pe = player_entity as int;
                                assert(ti == 0);
                                assert(t == player_entity);
                                assert(t < n);
                                if heals && old(world).combat_stats@[pe] is Some {
                                    assert(world.combat_stats@[pe] == Some(
                                        healed_stats(
                                            old(world).combat_stats@[pe]->Some_0,
                                            heal as int,
                                        ),
                                    ));
                                }
                                if !heals {
                                    assert(world.combat_stats@[pe] == old(world).combat_stats@[pe]);
                                }
                                if damages {
                                    assert(pending_of(*world, pe) == pending_of(
                                        *old(world),
                                        pe,
                                    ).push(damage));
                                }
                                if !damages {
                                    assert(world.suffer_damage@[pe] == old(world).suffer_damage@[pe]);
                                }
                                if confuses {
                                    assert(world.confusions@[pe] == Some(
                                        Confusion { turns: confusion_turns },
                                    ));
                                }
                                if !confuses {
                                    assert(world.confusions@[pe] == old(world).confusions@[pe]);
                                }
                            }
                        }
                    }
                    ti += 1;
                }
                // CLEANUP: a consumable is destroyed by its use
                let ghost w_afterfx = *world;
                let consumed = world.consumables[item].is_some();
                if consumed {
                    let ghost w_del = *world;
                    proof {
                        assert(world.consumables@[item as int] == old(world).consumables@[item as int]);
                    }
                    world.delete_entity(item);
                    proof {
                        assert forall|j: int|
                            0 <= j < n implies ((#[trigger] world.wants_use@[j]) == old(world).wants_use@[j] || world.wants_use@[j] is None) by {
                            if j != item {
                                assert(World::same_entity(w_del, *world, j));
                            }
                        }
                        assert forall|j: int|
                            0 <= j < n implies ((#[trigger] world.area_effects@[j]) == old(world).area_effects@[j] || world.area_effects@[j] is None) by {
                            if j != item {
                                assert(World::same_entity(w_del, *world, j));
                            }
                        }
                        assert forall|j: int|
                            0 <= j < n implies ((#[trigger] world.provides_healing@[j]) == old(world).provides_healing@[j] || world.provides_healing@[j] is None) by {
                            if j != item {
                                assert(World::same_entity(w_del, *world, j));
                            }
                        }
                        assert forall|j: int|
                            0 <= j < n implies ((#[trigger] world.consumables@[j]) == old(world).consumables@[j] || world.consumables@[j] is None) by {
                            if j != item {
                                assert(World::same_entity(w_del, *world, j));
                            }
                        }
                        assert forall|j: int|
                            0 <= j < n implies ((#[trigger] world.positions@[j]) == old(world).positions@[j] || world.positions@[j] is None) by {
                            if j != item {
                                assert(World::same_entity(w_del, *world, j));
                            }
                        }
                        assert forall|j: int|
                            0 <= j < n implies ((#[trigger] world.viewsheds@[j]) == old(world).viewsheds@[j] || world.viewsheds@[j] is None) by {
                            if j != item {
                                assert(World::same_entity(w_del, *world, j));
                            }
                        }
                        assert forall|j: int|
                            0 <= j < n implies ((#[trigger] world.players@[j]) == old(world).players@[j] || world.players@[j] is None) by {
                            if j != item {
                                assert(World::same_entity(w_del, *world, j));
                            }
                        }
                        assert forall|j: int|
                            0 <= j < n implies ((#[trigger] world.wants_pickup@[j]) == old(world).wants_pickup@[j] || world.wants_pickup@[j] is None) by {
                            if j != item {
                                assert(World::same_entity(w_del, *world, j));
                            }
                        }
                        assert forall|j: int|
                            0 <= j < n implies ((#[trigger] world.wants_drop@[j]) == old(world).wants_drop@[j] || world.wants_drop@[j] is None) by {
                            if j != item {
                                assert(World::same_entity(w_del, *world, j));
                            }
                        }
                        assert forall|j: int|
                            0 <= j < n implies ((#[trigger] world.wants_melee@[j]) == old(
                            world,
                        ).wants_melee@[j] || world.wants_melee@[j] is None) by {
                            if j != item {
                                assert(World::same_entity(w_del, *world, j));
                            }
                        }
                        assert forall|j: int|
                            0 <= j < n implies (stats_healed_only(*old(world), *world, j) || (
                            #[trigger] world.combat_stats@[j]) is None) by {
                            if j != item {
                                assert(World::same_entity(w_del, *world, j));
                                assert(stats_healed_only(*old(world), w_del, j)
                                    || w_del.combat_stats@[j] is None);
                            }
                        }
                        assert forall|j: int|
                            #![trigger world.alive@[j]]
                            0 <= j < n && world.is_alive(j) implies pending_of(
                            *old(world),
                            j,
                        ).is_prefix_of(pending_of(*world, j)) && (
                        world.confusions@[j] == old(world).confusions@[j] || world.confusions@[j]
                            is Some) && old(world).is_alive(j) && world.positions@[j] == old(world).positions@[j] && world.renderables@[j] == old(world).renderables@[j]
                            && world.players@[j] == old(world).players@[j] && world.left_movers@[j]
                            == old(world).left_movers@[j] && world.monsters@[j] == old(world).monsters@[j] && world.names@[j] == old(world).names@[j]
                            && world.blocks_tile@[j] == old(world).blocks_tile@[j]
                            && world.viewsheds@[j] == old(world).viewsheds@[j] && world.items@[j]
                            == old(world).items@[j] && world.consumables@[j] == old(world).consumables@[j] && world.provides_healing@[j] == old(world).provides_healing@[j] && world.inflicts_damage@[j] == old(world).inflicts_damage@[j] && world.area_effects@[j] == old(world).area_effects@[j]
                            && world.ranged@[j] == old(world).ranged@[j] && world.backpacks@[j] == old(world).backpacks@[j] && world.wants_melee@[j] == old(world).wants_melee@[j]
                            && world.wants_pickup@[j] == old(world).wants_pickup@[j]
                            && world.wants_drop@[j] == old(world).wants_drop@[j] by {
                            assert(j != item);
                            assert(World::same_entity(w_del, *world, j));
                            assert(w_del.is_alive(j));
                            assert(pending_of(*old(world), j).is_prefix_of(pending_of(w_del, j)));
                            assert(pending_of(*world, j) == pending_of(w_del, j));
                        }
                        assert forall|j: int|
                            #![trigger world.alive@[j]]
                            0 <= j < n && old(world).is_alive(j) && !world.is_alive(
                                j,
                            ) implies old(world).consumables@[j] is Some by {
                            if j != item {
                                assert(World::same_entity(w_del, *world, j));
                            } else {
                                if w_del.is_alive(j) {
                                    assert(w_del.consumables@[j] == old(world).consumables@[j]);
                                }
                            }
                        }
                    }
                }
                proof {
                    if sole_here {
                        if old(world).consumables@[item as int] is Some {
                            assert(consumed);
                            assert(!world.is_alive(item as int));
                        }
                        assert forall|t2: int|
                            #![trigger world.combat_stats@[t2]]
                            0 <= t2 < n && !targeted(
                                *old(world),
                                *map,
                                item as int,
                                aim,
                                player_entity,
                                t2 as Entity,
                            ) && t2 != item implies world.combat_stats@[t2] == old(
                            world,
                        ).combat_stats@[t2] by {
                            assert(w_afterfx.combat_stats@[t2] == old(world).combat_stats@[t2]);
                            if consumed {
                                assert(World::same_entity(w_afterfx, *world, t2));
                            }
                            assert(world.combat_stats@[t2] == w_afterfx.combat_stats@[t2]);
                        }
                        assert forall|t2: int|
                            #![trigger world.suffer_damage@[t2]]
                            0 <= t2 < n && !targeted(
                                *old(world),
                                *map,
                                item as int,
                                aim,
                                player_entity,
                                t2 as Entity,
                            ) && t2 != item implies world.suffer_damage@[t2] == old(
                            world,
                        ).suffer_damage@[t2] by {
                            assert(w_afterfx.suffer_damage@[t2] == old(world).suffer_damage@[t2]);
                            if consumed {
                                assert(World::same_entity(w_afterfx, *world, t2));
                            }
                            assert(world.suffer_damage@[t2] == w_afterfx.suffer_damage@[t2]);
                        }
                        assert forall|t2: int|
                            #![trigger world.confusions@[t2]]
                            0 <= t2 < n && !targeted(
                                *old(world),
                                *map,
                                item as int,
                                aim,
                                player_entity,
                                t2 as Entity,
                            ) && t2 != item implies world.confusions@[t2] == old(
                            world,
                        ).confusions@[t2] by {
                            assert(w_afterfx.confusions@[t2] == old(world).confusions@[t2]);
                            if consumed {
                                assert(World::same_entity(w_afterfx, *world, t2));
                            }
                            assert(world.confusions@[t2] == w_afterfx.confusions@[t2]);
                        }
                        if aim.is_none() && item != player_entity {
                            let pe = player_entity as int;
                            if consumed {
                                assert(World::same_entity(w_afterfx, *world, pe));
                            }
                            assert(world.combat_stats@[pe] == w_afterfx.combat_stats@[pe]);
                            assert(world.suffer_damage@[pe] == w_afterfx.suffer_damage@[pe]);
                            assert(world.confusions@[pe] == w_afterfx.confusions@[pe]);
                            assert(pending_of(*world, pe) == pending_of(w_afterfx, pe));
                        }
                        // restate over the intent record itself
                        assert forall|u2: int, t: int|
                            #![trigger sole_use_intent(*old(world), u2), old(world).combat_stats@[t]]
                            sole_use_intent(*old(world), u2) && 0 <= t < n && !targeted(
                                *old(world),
                                *map,
                                intent_item(*old(world), u2),
                                intent_aim(*old(world), u2),
                                player_entity,
                                t as Entity,
                            ) && t != intent_item(*old(world), u2) implies world.combat_stats@[t] == old(
                            world,
                        ).combat_stats@[t] by {
                            assert(u2 == e);
                            assert(!targeted(
                                *old(world),
                                *map,
                                item as int,
                                aim,
                                player_entity,
                                t as Entity,
                            ));
                        }
                        assert forall|u2: int, t: int|
                            #![trigger sole_use_intent(*old(world), u2), old(world).suffer_damage@[t]]
                            sole_use_intent(*old(world), u2) && 0 <= t < n && !targeted(
                                *old(world),
                                *map,
                                intent_item(*old(world), u2),
                                intent_aim(*old(world), u2),
                                player_entity,
                                t as Entity,
                            ) && t != intent_item(*old(world), u2) implies world.suffer_damage@[t] == old(
                            world,
                        ).suffer_damage@[t] by {
                            assert(u2 == e);
                            assert(!targeted(
                                *old(world),
                                *map,
                                item as int,
                                aim,
                                player_entity,
                                t as Entity,
                            ));
                        }
                        assert forall|u2: int, t: int|
                            #![trigger sole_use_intent(*old(world), u2), old(world).confusions@[t]]
                            sole_use_intent(*old(world), u2) && 0 <= t < n && !targeted(
                                *old(world),
                                *map,
                                intent_item(*old(world), u2),
                                intent_aim(*old(world), u2),
                                player_entity,
                                t as Entity,
                            ) && t != intent_item(*old(world), u2) implies world.confusions@[t] == old(
                            world,
                        ).confusions@[t] by {
                            assert(u2 == e);
                            assert(!targeted(
                                *old(world),
                                *map,
                                item as int,
                                aim,
                                player_entity,
                                t as Entity,
                            ));
                        }
                        assert forall|u2: int|
                            #[trigger] sole_use_intent(*old(world), u2) && 0 <= intent_item(
                                *old(world),
                                u2,
                            ) < n && old(world).consumables@[intent_item(*old(world), u2)]
                                is Some implies !world.is_alive(intent_item(*old(world), u2)) by {
                            assert(u2 == e);
                            assert(intent_item(*old(world), u2) == item as int);
                        }
                    }
                    assert forall|u2: int|
                        #[trigger] sole_use_intent(*old(world), u2) && e as int + 1
                            <= u2 implies false by {
                        assert(old(world).wants_use@[e as int] is Some);
                    }
                }
            } else {
                proof {
                    assert forall|u2: int|
                        #[trigger] sole_use_intent(*old(world), u2) && u2 == e implies has && item
                            as int == intent_item(*old(world), u2) && !(item < n) by {
                        assert(world.wants_use@[e as int] == old(world).wants_use@[e as int]);
                    }
                    assert forall|u2: int, t: int|
                        #![trigger sole_use_intent(*old(world), u2), old(world).combat_stats@[t]]
                        sole_use_intent(*old(world), u2) && 0 <= t < n && !targeted(
                            *old(world),
                            *map,
                            intent_item(*old(world), u2),
                            intent_aim(*old(world), u2),
                            player_entity,
                            t as Entity,
                        ) && t != intent_item(*old(world), u2) implies world.combat_stats@[t] == old(
                        world,
                    ).combat_stats@[t] by {
                        if u2 >= e {
                            assert(world.combat_stats@ == old(world).combat_stats@);
                        }
                    }
                    assert forall|u2: int, t: int|
                        #![trigger sole_use_intent(*old(world), u2), old(world).suffer_damage@[t]]
                        sole_use_intent(*old(world), u2) && 0 <= t < n && !targeted(
                            *old(world),
                            *map,
                            intent_item(*old(world), u2),
                            intent_aim(*old(world), u2),
                            player_entity,
                            t as Entity,
                        ) && t != intent_item(*old(world), u2) implies world.suffer_damage@[t] == old(
                        world,
                    ).suffer_damage@[t] by {
                        if u2 >= e {
                            assert(world.suffer_damage@ == old(world).suffer_damage@);
                        }
                    }
                    assert forall|u2: int, t: int|
                        #![trigger sole_use_intent(*old(world), u2), old(world).confusions@[t]]
                        sole_use_intent(*old(world), u2) && 0 <= t < n && !targeted(
                            *old(world),
                            *map,
                            intent_item(*old(world), u2),
                            intent_aim(*old(world), u2),
                            player_entity,
                            t as Entity,
                        ) && t != intent_item(*old(world), u2) implies world.confusions@[t] == old(
                        world,
                    ).confusions@[t] by {
                        if u2 >= e {
                            assert(world.confusions@ == old(world).confusions@);
                        }
                    }
                }
            }
            e += 1;
        }
        // all use-intents were consumed: clear them
        let ghost w_mid = *world;
        let mut k: usize = 0;
        while k < n
            invariant
                world.wf(),
                n == world.num_entities(),
                k <= n,
                world.alive@ == w_mid.alive@,
                world.positions@ == w_mid.positions@,
                world.renderables@ == w_mid.renderables@,
                world.players@ == w_mid.players@,
                world.left_movers@ == w_mid.left_movers@,
                world.monsters@ == w_mid.monsters@,
                world.names@ == w_mid.names@,
                world.blocks_tile@ == w_mid.blocks_tile@,
                world.viewsheds@ == w_mid.viewsheds@,
                world.combat_stats@ == w_mid.combat_stats@,
                world.wants_melee@ == w_mid.wants_melee@,
                world.suffer_damage@ == w_mid.suffer_damage@,
                world.items@ == w_mid.items@,
                world.consumables@ == w_mid.consumables@,
                world.provides_healing@ == w_mid.provides_healing@,
                world.inflicts_damage@ == w_mid.inflicts_damage@,
                world.area_effects@ == w_mid.area_effects@,
                world.confusions@ == w_mid.confusions@,
                world.ranged@ == w_mid.ranged@,
                world.backpacks@ == w_mid.backpacks@,
                world.wants_pickup@ == w_mid.wants_pickup@,
                world.wants_drop@ == w_mid.wants_drop@,
                forall|j: int| 0 <= j < k ==> (#[trigger] world.wants_use@[j]) is None,
            decreases n - k,
        {
            world.wants_use[k] = None;
            k += 1;
        }
        proof {
            assert forall|j: int|
                #![trigger world.alive@[j]]
                0 <= j < n && world.is_alive(j) implies pending_of(*old(world), j).is_prefix_of(
                pending_of(*world, j),
            ) && (world.confusions@[j] == old(world).confusions@[j] || world.confusions@[j] is Some)
                && old(world).is_alive(j) by {
                assert(w_mid.is_alive(j));
                assert(pending_of(*old(world), j).is_prefix_of(pending_of(w_mid, j)));
                assert(pending_of(*world, j) == pending_of(w_mid, j));
            }
            assert forall|j: int|
                0 <= j < n implies (stats_healed_only(*old(world), *world, j) || (
                #[trigger] world.combat_stats@[j]) is None) by {
                assert(stats_healed_only(*old(world), w_mid, j) || w_mid.combat_stats@[j] is None);
                assert(world.combat_stats@[j] == w_mid.combat_stats@[j]);
            }
            assert forall|j: int|
                #![trigger world.alive@[j]]
                0 <= j < n && old(world).is_alive(j) && !world.is_alive(j) implies old(world).consumables@[j] is Some by {
                assert(!w_mid.is_alive(j));
            }
        }
    }
}

/// One of the first `k` collected drops lands item `t`.
pub open spec fn dropped_below(drops: Seq<(usize, Position)>, t: int, k: int) -> bool {
    exists|j: int| 0 <= j < k && (#[trigger] drops[j]).0 == t
}

/// Entity `a` holds a drop intent for item `t` and has a position to drop
/// it at.
pub open spec fn drop_source(w: World, t: int, a: int) -> bool {
    &&& 0 <= a < w.num_entities()
    &&& w.wants_drop@[a] is Some
    &&& w.wants_drop@[a]->Some_0.item == t
    &&& w.positions@[a] is Some
}

/// One of the entities below `k` can drop item `t`.
pub open spec fn drop_requested_below(w: World, t: int, k: int) -> bool {
    exists|a: int|
        0 <= a < k && (#[trigger] w.wants_drop@[a]) is Some && w.wants_drop@[a]->Some_0.item == t
            && w.positions@[a] is Some
}

/// Some entity can drop item `t` in `w`.
pub open spec fn drop_requested(w: World, t: int) -> bool {
    drop_requested_below(w, t, w.num_entities())
}

/// The item-drop phase of the pipeline.
pub struct ItemDropSystem {}

impl ItemDropSystem {
    /// Processes every drop intent in two phases (collect, then apply, so no
    /// store is mutated mid-iteration): each dropped item leaves its carrier's
    /// backpack and lands on the dropper's tile; items nobody dropped are
    /// untouched; all drop intents are cleared. An intent whose holder has no
    /// position is silently skipped.
    pub fn run(world: &mut World)
        requires
            old(world).wf(),
        ensures
            final(world).wf(),
            final(world).num_entities() == old(world).num_entities(),
            final(world).alive@ == old(world).alive@,
            final(world).renderables@ == old(world).renderables@,
            final(world).players@ == old(world).players@,
            final(world).left_movers@ == old(world).left_movers@,
            final(world).monsters@ == old(world).monsters@,
            final(world).names@ == old(world).names@,
            final(world).blocks_tile@ == old(world).blocks_tile@,
            final(world).viewsheds@ == old(world).viewsheds@,
            final(world).combat_stats@ == old(world).combat_stats@,
            final(world).wants_melee@ == old(world).wants_melee@,
            final(world).suffer_damage@ == old(world).suffer_damage@,
            final(world).items@ == old(world).items@,
            final(world).consumables@ == old(world).consumables@,
            final(world).provides_healing@ == old(world).provides_healing@,
            final(world).inflicts_damage@ == old(world).inflicts_damage@,
            final(world).area_effects@ == old(world).area_effects@,
            final(world).confusions@ == old(world).confusions@,
            final(world).ranged@ == old(world).ranged@,
            final(world).wants_use@ == old(world).wants_use@,
            final(world).wants_pickup@ == old(world).wants_pickup@,
            forall|e: int|
                0 <= e < old(world).num_entities() ==> (#[trigger] final(world).wants_drop@[e])
                    is None,
            forall|t: int|
                0 <= t < old(world).num_entities() && !drop_requested(*old(world), t) ==> (
                #[trigger] final(world).positions@[t]) == old(world).positions@[t] && final(world).backpacks@[t] == old(world).backpacks@[t],
            forall|t: int|
                #![trigger final(world).positions@[t]]
                0 <= t < old(world).num_entities() && drop_requested(*old(world), t) ==> final(world).backpacks@[t] is None && exists|a: int|
                    drop_source(*old(world), t, a) && final(world).positions@[t] == old(world).positions@[a],
    {
        let n = world.alive.len();
        // read pass: collect (item, landing tile) pairs
        let mut drops: Vec<(usize, Position)> = Vec::new();
        let mut e: usize = 0;
        while e < n
            invariant
                world.wf(),
                n == world.num_entities(),
                e <= n,
                forall|k: int|
                    0 <= k < drops@.len() ==> {
                        let t = (#[trigger] drops@[k]).0 as int;
                        &&& 0 <= t < n
                        &&& exists|a: int|
                            drop_source(*world, t, a) && Some(drops@[k].1) == world.positions@[a]
                    },
                forall|t: int|
                    0 <= t < n && drop_requested_below(*world, t, e as int) ==> dropped_below(
                        drops@,
                        t,
                        drops@.len() as int,
                    ),
            decreases n - e,
        {
            let ghost drops_prev = drops;
            let mut has = false;
            let mut item: usize = 0;
            match &world.wants_drop[e] {
                Some(intent) => {
                    has = true;
                    item = intent.item;
                },
                None => {},
            }
            if has && item < n {
                let mut pos: Option<Position> = None;
                match &world.positions[e] {
                    Some(p) => {
                        pos = Some(*p);
                    },
                    None => {},
                }
                match pos {
                    Some(p) => {
                        drops.push((item, p));
                        proof {
                            assert(drop_source(*world, item as int, e as int));
                        }
                    },
                    None => {},
                }
            }
            proof {
                assert forall|t: int|
                    0 <= t < n && #[trigger] drop_requested_below(
                    *world,
                    t,
                    e as int + 1,
                ) implies dropped_below(drops@, t, drops@.len() as int) by {
                    if drop_requested_below(*world, t, e as int) {
                        assert(dropped_below(drops_prev@, t, drops_prev@.len() as int));
                        let k0 = choose|k: int|
                            0 <= k < drops_prev@.len() && (#[trigger] drops_prev@[k]).0 == t;
                        assert(drops@[k0].0 == t);
                    } else {
                        let a0 = choose|a: int|
                            0 <= a < e as int + 1 && (#[trigger] world.wants_drop@[a]) is Some
                                && world.wants_drop@[a]->Some_0.item == t && world.positions@[a]
                                is Some;
                        assert(a0 == e);
                        assert(drops@.last().0 == t);
                    }
                }
            }
            e += 1;
        }
        // apply pass
        let ghost w0 = *world;
        let mut i: usize = 0;
        while i < drops.len()
            invariant
                world.wf(),
                n == world.num_entities(),
                *old(world) == w0,
                i <= drops@.len(),
                world.alive@ == w0.alive@,
                world.renderables@ == w0.renderables@,
                world.players@ == w0.players@,
                world.left_movers@ == w0.left_movers@,
                world.monsters@ == w0.monsters@,
                world.names@ == w0.names@,
                world.blocks_tile@ == w0.blocks_tile@,
                world.viewsheds@ == w0.viewsheds@,
                world.combat_stats@ == w0.combat_stats@,
                world.wants_melee@ == w0.wants_melee@,
                world.suffer_damage@ == w0.suffer_damage@,
                world.items@ == w0.items@,
                world.consumables@ == w0.consumables@,
                world.provides_healing@ == w0.provides_healing@,
                world.inflicts_damage@ == w0.inflicts_damage@,
                world.area_effects@ == w0.area_effects@,
                world.confusions@ == w0.confusions@,
                world.ranged@ == w0.ranged@,
                world.wants_use@ == w0.wants_use@,
                world.wants_pickup@ == w0.wants_pickup@,
                world.wants_drop@ == w0.wants_drop@,
                forall|k: int|
                    0 <= k < drops@.len() ==> {
                        let t = (#[trigger] drops@[k]).0 as int;
                        &&& 0 <= t < n
                        &&& exists|a: int|
                            drop_source(w0, t, a) && Some(drops@[k].1) == w0.positions@[a]
                    },
                forall|t: int|
                    0 <= t < n && drop_requested(w0, t) ==> dropped_below(
                        drops@,
                        t,
                        drops@.len() as int,
                    ),
                forall|t: int|
                    0 <= t < n && !dropped_below(drops@, t, i as int) ==> (
                    #[trigger] world.positions@[t]) == w0.positions@[t] && world.backpacks@[t]
                        == w0.backpacks@[t],
                forall|t: int|
                    0 <= t < n && dropped_below(drops@, t, i as int) ==> (
                    #[trigger] world.backpacks@[t]) is None && exists|a: int|
                        drop_source(w0, t, a) && world.positions@[t] == w0.positions@[a],
            decreases drops@.len() - i,
        {
            let ghost w_prev = *world;
            let (item, pos) = drops[i];
            world.positions[item] = Some(pos);
            world.backpacks[item] = None;
            proof {
                assert forall|t: int|
                    0 <= t < n && !dropped_below(drops@, t, i as int + 1) implies (
                #[trigger] world.positions@[t]) == w0.positions@[t] && world.backpacks@[t]
                    == w0.backpacks@[t] by {
                    assert(!dropped_below(drops@, t, i as int));
                    if t == item as int {
                        assert(drops@[i as int].0 == t);
                        assert(dropped_below(drops@, t, i as int + 1));
                        assert(false);
                    }
                    assert(world.positions@[t] == w_prev.positions@[t]);
                    assert(world.backpacks@[t] == w_prev.backpacks@[t]);
                    assert(w_prev.positions@[t] == w0.positions@[t] && w_prev.backpacks@[t]
                        == w0.backpacks@[t]);
                }
                assert forall|t: int|
                    0 <= t < n && #[trigger] dropped_below(drops@, t, i as int + 1) implies (
                world.backpacks@[t]) is None && exists|a: int|
                    drop_source(w0, t, a) && world.positions@[t] == w0.positions@[a] by {
                    if t == item as int {
                        let a1 = choose|a: int|
                            drop_source(w0, t, a) && Some(drops@[i as int].1) == w0.positions@[a];
                        assert(world.positions@[t] == Some(drops@[i as int].1));
                    } else {
                        if dropped_below(drops@, t, i as int) {
                            let a1 = choose|a: int|
                                drop_source(w0, t, a) && w_prev.positions@[t] == w0.positions@[a];
                            assert(world.positions@[t] == w_prev.positions@[t]);
                            assert(world.backpacks@[t] == w_prev.backpacks@[t]);
                        } else {
                            let k1 = choose|k: int|
                                0 <= k < i as int + 1 && (#[trigger] drops@[k]).0 == t;
                            assert(k1 == i as int);
                            assert(false);
                        }
                    }
                }
            }
            i += 1;
        }
        // all drop intents were consumed: clear them
        let ghost w_mid = *world;
        let mut k: usize = 0;
        while k < n
            invariant
                world.wf(),
                n == world.num_entities(),
                k <= n,
                world.alive@ == w_mid.alive@,
                world.positions@ == w_mid.positions@,
                world.renderables@ == w_mid.renderables@,
                world.players@ == w_mid.players@,
                world.left_movers@ == w_mid.left_movers@,
                world.monsters@ == w_mid.monsters@,
                world.names@ == w_mid.names@,
                world.blocks_tile@ == w_mid.blocks_tile@,
                world.viewsheds@ == w_mid.viewsheds@,
                world.combat_stats@ == w_mid.combat_stats@,
                world.wants_melee@ == w_mid.wants_melee@,
                world.suffer_damage@ == w_mid.suffer_damage@,
                world.items@ == w_mid.items@,
                world.consumables@ == w_mid.consumables@,
                world.provides_healing@ == w_mid.provides_healing@,
                world.inflicts_damage@ == w_mid.inflicts_damage@,
                world.area_effects@ == w_mid.area_effects@,
                world.confusions@ == w_mid.confusions@,
                world.ranged@ == w_mid.ranged@,
                world.backpacks@ == w_mid.backpacks@,
                world.positions@ == w_mid.positions@,
                world.wants_use@ == w_mid.wants_use@,
                world.wants_pickup@ == w_mid.wants_pickup@,
                forall|j: int| 0 <= j < k ==> (#[trigger] world.wants_drop@[j]) is None,
            decreases n - k,
        {
            world.wants_drop[k] = None;
            k += 1;
        }
    }
}

} // verus!
