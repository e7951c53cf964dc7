//! Item pickup: each pending pickup intent moves its item off the floor
//! (its position is removed) and into the collector's backpack; all pickup
//! intents are consumed.

use vstd::prelude::*;
use crate::components::InBackPack;
use crate::world::World;

verus! {

/// One of the entities below `k` holds a pickup intent for item `t`.
pub open spec fn pickup_requested_below(w: World, t: int, k: int) -> bool {
    exists|e: int|
        0 <= e < k && (#[trigger] w.wants_pickup@[e]) is Some && w.wants_pickup@[e]->Some_0.item
            == t
}

/// Some entity in `w` holds a pickup intent for item `t`.
pub open spec fn pickup_requested(w: World, t: int) -> bool {
    pickup_requested_below(w, t, w.num_entities())
}

/// `a` requested to pick item `t` up in `w`.
pub open spec fn pickup_by(w: World, t: int, a: int) -> bool {
    &&& 0 <= a < w.num_entities()
    &&& w.wants_pickup@[a] is Some
    &&& w.wants_pickup@[a]->Some_0.item == t
}

/// The item-pickup phase of the pipeline.
pub struct ItemCollectionSystem {}

impl ItemCollectionSystem {
    /// Processes every pickup intent: the picked item loses its floor
    /// position and gains a backpack record owned by one of its collectors;
    /// items nobody picked are untouched; all intents are cleared.
    pub fn run(world: &mut World)
        requires
            old(world).wf(),
        ensures
            final(world).wf(),
            final(world).num_entities() == old(world).num_entities(),
            final(world).alive@ == old(world).alive@,
            final(world).renderables@ == old(world).renderables@,
            final(world).players@ == old(world).players@,
            final(world).left_movers@ == old(world).left_movers@,
            final(world).monsters@ == old(world).monsters@,
            final(world).names@ == old(world).names@,
            final(world).blocks_tile@ == old(world).blocks_tile@,
            final(world).viewsheds@ == old(world).viewsheds@,
            final(world).combat_stats@ == old(world).combat_stats@,
            final(world).wants_melee@ == old(world).wants_melee@,
            final(world).suffer_damage@ == old(world).suffer_damage@,
            final(world).items@ == old(world).items@,
            final(world).consumables@ == old(world).consumables@,
            final(world).provides_healing@ == old(world).provides_healing@,
            final(world).inflicts_damage@ == old(world).inflicts_damage@,
            final(world).area_effects@ == old(world).area_effects@,
            final(world).confusions@ == old(world).confusions@,
            final(world).ranged@ == old(world).ranged@,
            final(world).wants_use@ == old(world).wants_use@,
            final(world).wants_drop@ == old(world).wants_drop@,
            forall|e: int|
                0 <= e < old(world).num_entities() ==> (#[trigger] final(world).wants_pickup@[e])
                    is None,
            forall|t: int|
                0 <= t < old(world).num_entities() && !pickup_requested(*old(world), t) ==> (
                #[trigger] final(world).positions@[t]) == old(world).positions@[t] && final(world).backpacks@[t] == old(world).backpacks@[t],
            forall|t: int|
                0 <= t < old(world).num_entities() && pickup_requested(*old(world), t) ==> (
                #[trigger] final(world).positions@[t]) is None && exists|a: int|
                    pickup_by(*old(world), t, a) && final(world).backpacks@[t] == Some(
                        InBackPack { owner: old(world).wants_pickup@[a]->Some_0.collected_by },
                    ),
    {
        let n = world.alive.len();
        let mut e: usize = 0;
        while e < n
            invariant
                world.wf(),
                n == old(world).num_entities(),
                n == world.num_entities(),
                e <= n,
                world.alive@ == old(world).alive@,
                world.renderables@ == old(world).renderables@,
                world.players@ == old(world).players@,
                world.left_movers@ == old(world).left_movers@,
                world.monsters@ == old(world).monsters@,
                world.names@ == old(world).names@,
                world.blocks_tile@ == old(world).blocks_tile@,
                world.viewsheds@ == old(world).viewsheds@,
                world.combat_stats@ == old(world).combat_stats@,
                world.wants_melee@ == old(world).wants_melee@,
                world.suffer_damage@ == old(world).suffer_damage@,
                world.items@ == old(world).items@,
                world.consumables@ == old(world).consumables@,
                world.provides_healing@ == old(world).provides_healing@,
                world.inflicts_damage@ == old(world).inflicts_damage@,
                world.area_effects@ == old(world).area_effects@,
                world.confusions@ == old(world).confusions@,
                world.ranged@ == old(world).ranged@,
                world.wants_use@ == old(world).wants_use@,
                world.wants_drop@ == old(world).wants_drop@,
                world.wants_pickup@ == old(world).wants_pickup@,
                forall|t: int|
                    0 <= t < n && !pickup_requested_below(*old(world), t, e as int) ==> (
                    #[trigger] world.positions@[t]) == old(world).positions@[t]
                        && world.backpacks@[t] == old(world).backpacks@[t],
                forall|t: int|
                    0 <= t < n && pickup_requested_below(*old(world), t, e as int) ==> (
                    #[trigger] world.positions@[t]) is None && exists|a: int|
                        pickup_by(*old(world), t, a) && world.backpacks@[t] == Some(
                            InBackPack { owner: old(world).wants_pickup@[a]->Some_0.collected_by },
                        ),
            decreases n - e,
        {
            let ghost w_prev = *world;
            let mut has = false;
            let mut item: usize = 0;
            let mut collector: usize = 0;
            match &world.wants_pickup[e] {
                Some(intent) => {
                    has = true;
                    item = intent.item;
                    collector = intent.collected_by;
                },
                None => {},
            }
            if has && item < n {
                world.positions[item] = None;
                world.backpacks[item] = Some(InBackPack { owner: collector });
                proof {
                    assert(pickup_by(*old(world), item as int, e as int));
                }
            }
            proof {
                assert forall|t: int|
                    0 <= t < n && !pickup_requested_below(*old(world), t, e as int + 1) implies (
                #[trigger] world.positions@[t]) == old(world).positions@[t] && world.backpacks@[t]
                    == old(world).backpacks@[t] by {
                    assert(!pickup_requested_below(*old(world), t, e as int));
                    if has && item < n && t == item as int {
                        assert(old(world).wants_pickup@[e as int] is Some && old(
                            world,
                        ).wants_pickup@[e as int]->Some_0.item == t);
                        assert(pickup_requested_below(*old(world), t, e as int + 1));
                        assert(false);
                    }
                    assert(world.positions@[t] == w_prev.positions@[t] && world.backpacks@[t]
                        == w_prev.backpacks@[t]);
                }
                assert forall|t: int|
                    0 <= t < n && pickup_requested_below(*old(world), t, e as int + 1) implies (
                #[trigger] world.positions@[t]) is None && exists|a: int|
                    pickup_by(*old(world), t, a) && world.backpacks@[t] == Some(
                        InBackPack { owner: old(world).wants_pickup@[a]->Some_0.collected_by },
                    ) by {
                    if has && item < n && t == item as int {
                        assert(pickup_by(*old(world), t, e as int));
                        assert(world.backpacks@[t] == Some(
                            InBackPack {
                                owner: old(world).wants_pickup@[e as int]->Some_0.collected_by,
                            },
                        ));
                    } else {
                        if pickup_requested_below(*old(world), t, e as int) {
                            let a0 = choose|a: int|
                                pickup_by(*old(world), t, a) && w_prev.backpacks@[t] == Some(
                                    InBackPack {
                                        owner: old(world).wants_pickup@[a]->Some_0.collected_by,
                                    },
                                );
                            assert(world.backpacks@[t] == w_prev.backpacks@[t]);
                            assert(world.positions@[t] == w_prev.positions@[t]);
                        } else {
                            let a0 = choose|a: int|
                                0 <= a < e as int + 1 && (#[trigger] old(world).wants_pickup@[a])
                                    is Some && old(world).wants_pickup@[a]->Some_0.item == t;
                            assert(a0 == e);
                            assert(false);
                        }
                    }
                }
            }
            e += 1;
        }
        // all pickup intents were consumed: clear them
        let ghost w_mid = *world;
        let mut k: usize = 0;
        while k < n
            invariant
                world.wf(),
                n == world.num_entities(),
                k <= n,
                world.alive@ == w_mid.alive@,
                world.positions@ == w_mid.positions@,
                world.renderables@ == w_mid.renderables@,
                world.players@ == w_mid.players@,
                world.left_movers@ == w_mid.left_movers@,
                world.monsters@ == w_mid.monsters@,
                world.names@ == w_mid.names@,
                world.blocks_tile@ == w_mid.blocks_tile@,
                world.viewsheds@ == w_mid.viewsheds@,
                world.combat_stats@ == w_mid.combat_stats@,
                world.wants_melee@ == w_mid.wants_melee@,
                world.suffer_damage@ == w_mid.suffer_damage@,
                world.items@ == w_mid.items@,
                world.consumables@ == w_mid.consumables@,
                world.provides_healing@ == w_mid.provides_healing@,
                world.inflicts_damage@ == w_mid.inflicts_damage@,
                world.area_effects@ == w_mid.area_effects@,
                world.confusions@ == w_mid.confusions@,
                world.ranged@ == w_mid.ranged@,
                world.backpacks@ == w_mid.backpacks@,
                world.wants_use@ == w_mid.wants_use@,
                world.wants_drop@ == w_mid.wants_drop@,
                forall|j: int| 0 <= j < k ==> (#[trigger] world.wants_pickup@[j]) is None,
            decreases n - k,
        {
            world.wants_pickup[k] = None;
            k += 1;
        }
    }
}

} // verus!
