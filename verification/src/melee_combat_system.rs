//! Melee resolution: every living attacker with a pending melee intent
//! lands `max(0, power - defense)` on a living target with combat
//! statistics. Hits only append to the targets' damage accumulators —
//! nothing is applied here — and every intent is cleared at the end of the
//! phase.

use vstd::prelude::*;
use crate::components::SufferDamage;
use crate::world::World;

verus! {

/// Attack and defense values lie within this magnitude, so damage
/// arithmetic stays inside `i32`.
pub const STAT_LIMIT: i32 = 1_000_000_000;

/// Every combat-statistics record in `w` keeps its attack power and
/// defense bounded by [`STAT_LIMIT`]; hit points are unconstrained.
pub open spec fn stats_bounded(w: World) -> bool {
    forall|e: int|
        0 <= e < w.num_entities() && (#[trigger] w.combat_stats@[e]) is Some ==> {
            let s = w.combat_stats@[e]->Some_0;
            -STAT_LIMIT <= s.defense <= STAT_LIMIT && -STAT_LIMIT <= s.power <= STAT_LIMIT
        }
}

/// The damage attacker `a` deals to target `t`: attack power minus target
/// defense, never below zero.
pub open spec fn melee_damage(w: World, a: int, t: int) -> int {
    let power = w.combat_stats@[a]->Some_0.power as int;
    let defense = w.combat_stats@[t]->Some_0.defense as int;
    if power - defense > 0 {
        power - defense
    } else {
        0
    }
}

/// Attacker `a` lands a hit on `t` this phase: it holds an intent against
/// `t`, both sides carry combat statistics and are alive, and the damage
/// is positive (an ineffectual attack mutates nothing).
pub open spec fn melee_hits(w: World, a: int, t: int) -> bool {
    &&& 0 <= a < w.num_entities()
    &&& w.wants_melee@[a] is Some
    &&& w.wants_melee@[a]->Some_0.target == t
    &&& 0 <= t < w.num_entities()
    &&& w.combat_stats@[a] is Some
    &&& w.combat_stats@[a]->Some_0.current_hp >= 1
    &&& w.combat_stats@[t] is Some
    &&& w.combat_stats@[t]->Some_0.current_hp >= 1
    &&& melee_damage(w, a, t) > 0
}

/// The damage amounts appended to `t`'s accumulator by attackers `0..k`,
/// in attacker order.
pub open spec fn melee_blows_up_to(w: World, t: int, k: int) -> Seq<i32>
    decreases k,
{
    if k <= 0 {
        Seq::empty()
    } else if melee_hits(w, k - 1, t) {
        melee_blows_up_to(w, t, k - 1).push(melee_damage(w, k - 1, t) as i32)
    } else {
        melee_blows_up_to(w, t, k - 1)
    }
}

/// The landed blows depend only on the intents and statistics: worlds
/// agreeing on those stores agree on every target's blow list.
pub proof fn lemma_melee_blows_agree(w1: World, w2: World, t: int, k: int)
    requires
        w1.num_entities() == w2.num_entities(),
        w1.wants_melee@ == w2.wants_melee@,
        w1.combat_stats@ == w2.combat_stats@,
    ensures
        melee_blows_up_to(w1, t, k) == melee_blows_up_to(w2, t, k),
    decreases k,
{
    if k > 0 {
        lemma_melee_blows_agree(w1, w2, t, k - 1);
        assert(melee_hits(w1, k - 1, t) == melee_hits(w2, k - 1, t));
        if melee_hits(w1, k - 1, t) {
            assert(melee_damage(w1, k - 1, t) == melee_damage(w2, k - 1, t));
        }
    }
}

/// The pending damage list of `t` in `w`, empty when no record exists.
pub open spec fn pending_of(w: World, t: int) -> Seq<i32> {
    match w.suffer_damage@[t] {
        Some(s) => s.amount@,
        None => Seq::empty(),
    }
}

/// The melee phase of the pipeline.
pub struct MeleeCombatSystem {}

impl MeleeCombatSystem {
    /// Resolves all pending melee intents: each landed hit appends its damage
    /// to the target's accumulator (in attacker order, after all earlier
    /// blows), a target with no prior record and no landed hit gains no
    /// record, and every intent is cleared.
    pub fn run(world: &mut World)
        requires
            old(world).wf(),
            stats_bounded(*old(world)),
        ensures
            final(world).wf(),
            final(world).num_entities() == old(world).num_entities(),
            final(world).alive@ == old(world).alive@,
            final(world).positions@ == old(world).positions@,
            final(world).renderables@ == old(world).renderables@,
            final(world).players@ == old(world).players@,
            final(world).left_movers@ == old(world).left_movers@,
            final(world).monsters@ == old(world).monsters@,
            final(world).names@ == old(world).names@,
            final(world).blocks_tile@ == old(world).blocks_tile@,
            final(world).viewsheds@ == old(world).viewsheds@,
            final(world).combat_stats@ == old(world).combat_stats@,
            final(world).items@ == old(world).items@,
            final(world).consumables@ == old(world).consumables@,
            final(world).provides_healing@ == old(world).provides_healing@,
            final(world).inflicts_damage@ == old(world).inflicts_damage@,
            final(world).area_effects@ == old(world).area_effects@,
            final(world).confusions@ == old(world).confusions@,
            final(world).ranged@ == old(world).ranged@,
            final(world).backpacks@ == old(world).backpacks@,
            final(world).wants_pickup@ == old(world).wants_pickup@,
            final(world).wants_use@ == old(world).wants_use@,
            final(world).wants_drop@ == old(world).wants_drop@,
            forall|e: int|
                0 <= e < old(world).num_entities() ==> (#[trigger] final(world).wants_melee@[e])
                    is None,
            forall|t: int|
                0 <= t < old(world).num_entities() ==> pending_of(*final(world), t) == pending_of(
                    *old(world),
                    t,
                ) + melee_blows_up_to(*old(world), t, old(world).num_entities()),
            forall|t: int|
                0 <= t < old(world).num_entities() ==> ((#[trigger] final(world).suffer_damage@[t])
                    is Some <==> (old(world).suffer_damage@[t] is Some || melee_blows_up_to(
                    *old(world),
                    t,
                    old(world).num_entities(),
                ).len() > 0)),
    {
        let n = world.alive.len();
        let mut a: usize = 0;
        while a < n
            invariant
                world.wf(),
                stats_bounded(*old(world)),
                n == old(world).num_entities(),
                n == world.num_entities(),
                a <= n,
                world.alive@ == old(world).alive@,
                world.positions@ == old(world).positions@,
                world.renderables@ == old(world).renderables@,
                world.players@ == old(world).players@,
                world.left_movers@ == old(world).left_movers@,
                world.monsters@ == old(world).monsters@,
                world.names@ == old(world).names@,
                world.blocks_tile@ == old(world).blocks_tile@,
                world.viewsheds@ == old(world).viewsheds@,
                world.combat_stats@ == old(world).combat_stats@,
                world.wants_melee@ == old(world).wants_melee@,
                world.items@ == old(world).items@,
                world.consumables@ == old(world).consumables@,
                world.provides_healing@ == old(world).provides_healing@,
                world.inflicts_damage@ == old(world).inflicts_damage@,
                world.area_effects@ == old(world).area_effects@,
                world.confusions@ == old(world).confusions@,
                world.ranged@ == old(world).ranged@,
                world.backpacks@ == old(world).backpacks@,
                world.wants_pickup@ == old(world).wants_pickup@,
                world.wants_use@ == old(world).wants_use@,
                world.wants_drop@ == old(world).wants_drop@,
                forall|t: int|
                    0 <= t < n ==> pending_of(*world, t) == pending_of(*old(world), t)
                        + melee_blows_up_to(*old(world), t, a as int),
                forall|t: int|
                    0 <= t < n ==> ((#[trigger] world.suffer_damage@[t]) is Some <==> (old(
                        world,
                    ).suffer_damage@[t] is Some || melee_blows_up_to(*old(world), t, a as int).len()
                        > 0)),
            decreases n - a,
        {
            let ghost w_prev = *world;
            let mut fires = false;
            let mut target: usize = 0;
            match &world.wants_melee[a] {
                Some(intent) => {
                    fires = true;
                    target = intent.target;
                },
                None => {},
            }
            if fires && target < n {
                let attacker_alive = match &world.combat_stats[a] {
                    Some(s) => s.current_hp >= 1,
                    None => false,
                };
                let target_alive = match &world.combat_stats[target] {
                    Some(s) => s.current_hp >= 1,
                    None => false,
                };
                if attacker_alive && target_alive {
                    let power = match &world.combat_stats[a] {
                        Some(s) => s.power,
                        None => 0,
                    };
                    let defense = match &world.combat_stats[target] {
                        Some(s) => s.defense,
                        None => 0,
                    };
                    let damage: i32 = if power - defense > 0 {
                        power - defense
                    } else {
                        0
                    };
                    if damage > 0 {
                        SufferDamage::new_damage(&mut world.suffer_damage, target, damage);
                        proof {
                            assert(melee_hits(*old(world), a as int, target as int));
                            assert forall|t: int|
                                0 <= t < n implies pending_of(*world, t) == pending_of(
                                *old(world),
                                t,
                            ) + melee_blows_up_to(*old(world), t, a as int + 1) by {
                                if t == target {
                                    assert(pending_of(*world, t) == pending_of(w_prev, t).push(
                                        damage,
                                    ));
                                    assert(melee_blows_up_to(*old(world), t, a as int + 1)
                                        == melee_blows_up_to(*old(world), t, a as int).push(
                                        melee_damage(*old(world), a as int, t) as i32,
                                    ));
                                    assert(pending_of(w_prev, t) + melee_blows_up_to(
                                        *old(world),
                                        t,
                                        a as int,
                                    ).push(damage) =~= (pending_of(w_prev, t) + melee_blows_up_to(
                                        *old(world),
                                        t,
                                        a as int,
                                    )).push(damage));
                                } else {
                                    assert(!melee_hits(*old(world), a as int, t));
                                    assert(pending_of(*world, t) == pending_of(w_prev, t));
                                }
                            }
                        }
                    } else {
                        proof {
                            assert forall|t: int|
                                0 <= t < n implies !melee_hits(*old(world), a as int, t) by {}
                        }
                    }
                } else {
                    proof {
                        assert forall|t: int|
                            0 <= t < n implies !melee_hits(*old(world), a as int, t) by {}
                    }
                }
            } else {
                proof {
                    assert forall|t: int|
                        0 <= t < n implies !melee_hits(*old(world), a as int, t) by {}
                }
            }
            a += 1;
        }
        // the intents were all consumed this phase: clear them
        let ghost w_mid = *world;
        let mut e: usize = 0;
        while e < n
            invariant
                world.wf(),
                n == world.num_entities(),
                e <= n,
                world.alive@ == old(world).alive@,
                world.positions@ == old(world).positions@,
                world.renderables@ == old(world).renderables@,
                world.players@ == old(world).players@,
                world.left_movers@ == old(world).left_movers@,
                world.monsters@ == old(world).monsters@,
                world.names@ == old(world).names@,
                world.blocks_tile@ == old(world).blocks_tile@,
                world.viewsheds@ == old(world).viewsheds@,
                world.combat_stats@ == old(world).combat_stats@,
                world.suffer_damage@ == w_mid.suffer_damage@,
                forall|t: int|
                    0 <= t < n ==> pending_of(w_mid, t) == pending_of(*old(world), t)
                        + melee_blows_up_to(*old(world), t, n as int),
                forall|t: int|
                    0 <= t < n ==> ((#[trigger] w_mid.suffer_damage@[t]) is Some <==> (old(
                        world,
                    ).suffer_damage@[t] is Some || melee_blows_up_to(*old(world), t, n as int).len()
                        > 0)),
                world.items@ == old(world).items@,
                world.consumables@ == old(world).consumables@,
                world.provides_healing@ == old(world).provides_healing@,
                world.inflicts_damage@ == old(world).inflicts_damage@,
                world.area_effects@ == old(world).area_effects@,
                world.confusions@ == old(world).confusions@,
                world.ranged@ == old(world).ranged@,
                world.backpacks@ == old(world).backpacks@,
                world.wants_pickup@ == old(world).wants_pickup@,
                world.wants_use@ == old(world).wants_use@,
                world.wants_drop@ == old(world).wants_drop@,
                forall|j: int| 0 <= j < e ==> (#[trigger] world.wants_melee@[j]) is None,
            decreases n - e,
        {
            world.wants_melee[e] = None;
            e += 1;
        }
        proof {
            assert forall|t: int|
                0 <= t < n implies pending_of(*world, t) == pending_of(*old(world), t)
                + melee_blows_up_to(*old(world), t, n as int) by {
                assert(pending_of(*world, t) == pending_of(w_mid, t));
            }
            assert forall|t: int|
                0 <= t < n implies ((#[trigger] world.suffer_damage@[t]) is Some <==> (old(
                world,
            ).suffer_damage@[t] is Some || melee_blows_up_to(*old(world), t, n as int).len() > 0)) by {
                assert(world.suffer_damage@[t] == w_mid.suffer_damage@[t]);
            }
        }
    }
}

} // verus!
