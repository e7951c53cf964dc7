//! Damage resolution and the death sweep. Resolution applies each
//! accumulator's whole pending sum to its owner's hit points in a single
//! subtraction, then clears every accumulator. The sweep then deletes
//! every entity whose hit points fell below one — except the designated
//! player, whose death is only reported.

use vstd::prelude::*;
use crate::components::CombatStats;
use crate::world::Entity;
use crate::world::World;

verus! {

/// The sum of the first `k` pending amounts.
pub open spec fn sum_prefix(s: Seq<i32>, k: int) -> int
    decreases k,
{
    if k <= 0 {
        0
    } else {
        sum_prefix(s, k - 1) + s[k - 1]
    }
}

/// The sum of a whole pending-damage list.
pub open spec fn pending_sum(s: Seq<i32>) -> int {
    sum_prefix(s, s.len() as int)
}

/// An integer clamped into the `i32` range.
pub open spec fn clamp_i32(v: int) -> int {
    if v < i32::MIN {
        i32::MIN as int
    } else if v > i32::MAX {
        i32::MAX as int
    } else {
        v
    }
}

/// The damage-resolution phase of the pipeline.
pub struct DamageSystem {}

impl DamageSystem {
    /// Applies every non-empty damage accumulator to its owner's hit points in
    /// one subtraction (so simultaneous hits of one turn accumulate before any
    /// decrement), then clears all accumulators. Hit points saturate at the
    /// `i32` bounds; within them the decrement is exact.
    pub fn run(world: &mut World)
        requires
            old(world).wf(),
        ensures
            final(world).wf(),
            final(world).num_entities() == old(world).num_entities(),
            final(world).alive@ == old(world).alive@,
            final(world).positions@ == old(world).positions@,
            final(world).renderables@ == old(world).renderables@,
            final(world).players@ == old(world).players@,
            final(world).left_movers@ == old(world).left_movers@,
            final(world).monsters@ == old(world).monsters@,
            final(world).names@ == old(world).names@,
            final(world).blocks_tile@ == old(world).blocks_tile@,
            final(world).viewsheds@ == old(world).viewsheds@,
            final(world).wants_melee@ == old(world).wants_melee@,
            final(world).items@ == old(world).items@,
            final(world).consumables@ == old(world).consumables@,
            final(world).provides_healing@ == old(world).provides_healing@,
            final(world).inflicts_damage@ == old(world).inflicts_damage@,
            final(world).area_effects@ == old(world).area_effects@,
            final(world).confusions@ == old(world).confusions@,
            final(world).ranged@ == old(world).ranged@,
            final(world).backpacks@ == old(world).backpacks@,
            final(world).wants_pickup@ == old(world).wants_pickup@,
            final(world).wants_use@ == old(world).wants_use@,
            final(world).wants_drop@ == old(world).wants_drop@,
            forall|e: int|
                0 <= e < old(world).num_entities() ==> (#[trigger] final(world).suffer_damage@[e])
                    is None,
            forall|e: int|
                0 <= e < old(world).num_entities() && (old(world).combat_stats@[e] is Some && old(
                    world,
                ).suffer_damage@[e] is Some) ==> (#[trigger] final(world).combat_stats@[e]) == Some(
                    CombatStats {
                        current_hp: clamp_i32(
                            old(world).combat_stats@[e]->Some_0.current_hp - pending_sum(
                                old(world).suffer_damage@[e]->Some_0.amount@,
                            ),
                        ) as i32,
                        ..old(world).combat_stats@[e]->Some_0
                    },
                ),
            forall|e: int|
                0 <= e < old(world).num_entities() && !(old(world).combat_stats@[e] is Some && old(
                    world,
                ).suffer_damage@[e] is Some) ==> (#[trigger] final(world).combat_stats@[e]) == old(
                    world,
                ).combat_stats@[e],
    {
        let n = world.alive.len();
        let mut e: usize = 0;
        while e < n
            invariant
                world.wf(),
                n == old(world).num_entities(),
                n == world.num_entities(),
                e <= n,
                world.alive@ == old(world).alive@,
                world.positions@ == old(world).positions@,
                world.renderables@ == old(world).renderables@,
                world.players@ == old(world).players@,
                world.left_movers@ == old(world).left_movers@,
                world.monsters@ == old(world).monsters@,
                world.names@ == old(world).names@,
                world.blocks_tile@ == old(world).blocks_tile@,
                world.viewsheds@ == old(world).viewsheds@,
                world.wants_melee@ == old(world).wants_melee@,
                world.items@ == old(world).items@,
                world.consumables@ == old(world).consumables@,
                world.provides_healing@ == old(world).provides_healing@,
                world.inflicts_damage@ == old(world).inflicts_damage@,
                world.area_effects@ == old(world).area_effects@,
                world.confusions@ == old(world).confusions@,
                world.ranged@ == old(world).ranged@,
                world.backpacks@ == old(world).backpacks@,
                world.wants_pickup@ == old(world).wants_pickup@,
                world.wants_use@ == old(world).wants_use@,
                world.wants_drop@ == old(world).wants_drop@,
                forall|j: int| 0 <= j < e ==> (#[trigger] world.suffer_damage@[j]) is None,
                forall|j: int|
                    e <= j < n ==> (#[trigger] world.suffer_damage@[j]) == old(
                        world,
                    ).suffer_damage@[j],
                forall|j: int|
                    0 <= j < e && (old(world).combat_stats@[j] is Some && old(
                        world,
                    ).suffer_damage@[j] is Some) ==> (#[trigger] world.combat_stats@[j]) == Some(
                        CombatStats {
                            current_hp: clamp_i32(
                                old(world).combat_stats@[j]->Some_0.current_hp - pending_sum(
                                    old(world).suffer_damage@[j]->Some_0.amount@,
                                ),
                            ) as i32,
                            ..old(world).combat_stats@[j]->Some_0
                        },
                    ),
                forall|j: int|
                    (e <= j < n || !(old(world).combat_stats@[j] is Some && old(
                        world,
                    ).suffer_damage@[j] is Some)) && 0 <= j < n ==> (
                    #[trigger] world.combat_stats@[j]) == old(world).combat_stats@[j],
            decreases n - e,
        {
            let has_both = world.combat_stats[e].is_some() && world.suffer_damage[e].is_some();
            if has_both {
                let stats: CombatStats = match &world.combat_stats[e] {
                    Some(s) => *s,
                    None => CombatStats { max_hp: 0, current_hp: 0, defense: 0, power: 0 },
                };
                let mut total: i128 = 0;
                let mut k: usize = 0;
                let amount_len = match &world.suffer_damage[e] {
                    Some(d) => d.amount.len(),
                    None => 0,
                };
                while k < amount_len
                    invariant
                        world.wf(),
                        e < n,
                        n == world.num_entities(),
                        world.suffer_damage@[e as int] is Some,
                        amount_len == world.suffer_damage@[e as int]->Some_0.amount@.len(),
                        k <= amount_len,
                        total == sum_prefix(
                            world.suffer_damage@[e as int]->Some_0.amount@,
                            k as int,
                        ),
                        -(k as int) * 0x8000_0000 <= total <= (k as int) * 0x8000_0000,
                    decreases amount_len - k,
                {
                    let v: i32 = match &world.suffer_damage[e] {
                        Some(d) => d.amount[k],
                        None => 0,
                    };
                    total = total + (v as i128);
                    k += 1;
                }
                let new_hp64: i128 = (stats.current_hp as i128) - total;
                let new_hp: i32 = if new_hp64 < (i32::MIN as i128) {
                    i32::MIN
                } else if new_hp64 > (i32::MAX as i128) {
                    i32::MAX
                } else {
                    new_hp64 as i32
                };
                world.combat_stats[e] = Some(
                    CombatStats {
                        max_hp: stats.max_hp,
                        current_hp: new_hp,
                        defense: stats.defense,
                        power: stats.power,
                    },
                );
            }
            world.suffer_damage[e] = None;
            e += 1;
        }
    }
}

/// An entity is dead when it carries combat statistics with fewer than one
/// hit point.
pub open spec fn is_dead(w: World, e: int) -> bool {
    w.combat_stats@[e] is Some && w.combat_stats@[e]->Some_0.current_hp < 1
}

/// Deletes every dead entity except the designated player, in two phases:
/// the read pass collects the victims, then the removals apply, so no
/// store is mutated mid-iteration. Returns whether the player is dead
/// (reported, never deleted).
pub fn delete_the_dead(world: &mut World, player_entity: Entity) -> (player_died: bool)
    requires
        old(world).wf(),
        (player_entity as int) < old(world).num_entities(),
    ensures
        final(world).wf(),
        final(world).num_entities() == old(world).num_entities(),
        player_died == is_dead(*old(world), player_entity as int),
        forall|e: int|
            0 <= e < old(world).num_entities() ==> (final(world).is_alive(e) <==> (old(
                world,
            ).is_alive(e) && !(is_dead(*old(world), e) && e != player_entity))),
        forall|e: int|
            0 <= e < old(world).num_entities() && !(old(world).is_alive(e) && is_dead(
                *old(world),
                e,
            ) && e != player_entity) ==> World::same_entity(*old(world), *final(world), e),
        forall|e: int|
            0 <= e < old(world).num_entities() && (old(world).is_alive(e) && is_dead(
                *old(world),
                e,
            ) && e != player_entity) ==> final(world).is_bare(e),
{
    let n = world.alive.len();
    let mut dead: Vec<usize> = Vec::new();
    let mut e: usize = 0;
    while e < n
        invariant
            world.wf(),
            n == world.num_entities(),
            e <= n,
            (player_entity as int) < n,
            forall|j: int|
                0 <= j < dead@.len() ==> {
                    let d = (#[trigger] dead@[j]) as int;
                    0 <= d < e && world.is_alive(d) && is_dead(*world, d) && d != player_entity
                },
            forall|d: int|
                0 <= d < e && world.is_alive(d) && is_dead(*world, d) && d != player_entity
                    ==> dead@.contains(d as usize),
        decreases n - e,
    {
        let ghost dead_prev = dead;
        let dying = match &world.combat_stats[e] {
            Some(s) => s.current_hp < 1,
            None => false,
        };
        if dying && e != player_entity && world.alive[e] {
            dead.push(e);
        }
        proof {
            assert forall|d: int|
                0 <= d < e + 1 && world.is_alive(d) && is_dead(*world, d) && d
                    != player_entity implies dead@.contains(d as usize) by {
                if d < e {
                    assert(dead_prev@.contains(d as usize));
                    let j = choose|j: int| 0 <= j < dead_prev@.len() && dead_prev@[j] == d as usize;
                    assert(dead@[j] == d as usize);
                } else {
                    assert(dead@.last() == d as usize);
                }
            }
        }
        e += 1;
    }
    let player_died = match &world.combat_stats[player_entity] {
        Some(s) => s.current_hp < 1,
        None => false,
    };
    let mut k: usize = 0;
    while k < dead.len()
        invariant
            world.wf(),
            n == world.num_entities(),
            n == old(world).num_entities(),
            k <= dead@.len(),
            forall|j: int|
                0 <= j < dead@.len() ==> {
                    let d = (#[trigger] dead@[j]) as int;
                    0 <= d < n && old(world).is_alive(d) && is_dead(*old(world), d) && d
                        != player_entity
                },
            forall|d: int|
                0 <= d < n && old(world).is_alive(d) && is_dead(*old(world), d) && d
                    != player_entity ==> dead@.contains(d as usize),
            forall|e2: int|
                0 <= e2 < n && !(exists|j: int| 0 <= j < k && (#[trigger] dead@[j]) == e2)
                    ==> World::same_entity(*old(world), *world, e2),
            forall|j: int|
                0 <= j < k ==> !world.is_alive((#[trigger] dead@[j]) as int) && world.is_bare(
                    dead@[j] as int,
                ),
        decreases dead@.len() - k,
    {
        let ghost w_prev = *world;
        let victim = dead[k];
        world.delete_entity(victim);
        proof {
            assert forall|j: int|
                0 <= j < k + 1 implies !world.is_alive((#[trigger] dead@[j]) as int)
                && world.is_bare(dead@[j] as int) by {
                if j < k && dead@[j] != victim {
                    assert(World::same_entity(w_prev, *world, dead@[j] as int));
                    assert(!w_prev.is_alive(dead@[j] as int) && w_prev.is_bare(dead@[j] as int));
                }
            }
            assert forall|e2: int|
                0 <= e2 < n && !(exists|j: int| 0 <= j < k + 1 && (#[trigger] dead@[j])
                    == e2) implies World::same_entity(*old(world), *world, e2) by {
                assert(!(exists|j: int| 0 <= j < k && (#[trigger] dead@[j]) == e2));
                assert(e2 != victim);
                assert(World::same_entity(*old(world), w_prev, e2));
                assert(World::same_entity(w_prev, *world, e2));
            }
        }
        k += 1;
    }
    proof {
        assert forall|e2: int|
            0 <= e2 < n && (old(world).is_alive(e2) && is_dead(*old(world), e2) && e2
                != player_entity) implies (!world.is_alive(e2) && world.is_bare(e2)) by {
            assert(dead@.contains(e2 as usize));
            let j = choose|j: int| 0 <= j < dead@.len() && dead@[j] == e2 as usize;
            assert(!world.is_alive(dead@[j] as int));
        }
        assert forall|e2: int|
            0 <= e2 < n implies (world.is_alive(e2) <==> (old(world).is_alive(e2) && !(is_dead(
            *old(world),
            e2,
        ) && e2 != player_entity))) by {
            if old(world).is_alive(e2) && is_dead(*old(world), e2) && e2 != player_entity {
                assert(!world.is_alive(e2));
            } else {
                if exists|j: int| 0 <= j < dead@.len() && (#[trigger] dead@[j]) == e2 {
                    let j = choose|j: int| 0 <= j < dead@.len() && (#[trigger] dead@[j]) == e2;
                    assert(old(world).is_alive(dead@[j] as int) && is_dead(
                        *old(world),
                        dead@[j] as int,
                    ) && dead@[j] != player_entity);
                    assert(false);
                }
                assert(World::same_entity(*old(world), *world, e2));
            }
        }
    }
    player_died
}

} // verus!
