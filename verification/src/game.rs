//! The turn engine: a session's whole state, the discrete run-state
//! machine, and the fixed-order system pipeline it drives on each
//! simulation turn (visibility, monster AI, map re-index, melee, damage,
//! item handling), with dead entities swept at the end of every tick.

use vstd::prelude::*;
use crate::components::CombatStats;
use crate::components::Position;
use crate::components::WantsToDropItem;
use crate::components::WantsToPickupItem;
use crate::components::WantsToUseItem;
use crate::damage_system::clamp_i32;
use crate::damage_system::pending_sum;
use crate::damage_system::DamageSystem;
use crate::damage_system::delete_the_dead;
use crate::game_log::GameLog;
use crate::grid_map::GridMap;
use crate::gui::MainMenuResult;
use crate::gui::MainMenuSelection;
use crate::gui::MenuInput;
use crate::gui::main_menu;
use crate::inventory_system::healing_nonnegative;
use crate::inventory_system::no_use_intents;
use crate::inventory_system::ItemDropSystem;
use crate::inventory_system::ItemUseSystem;
use crate::inventory_system::radii_ok;
use crate::inventory_system::use_targets_in_bounds;
use crate::item_collection_system::ItemCollectionSystem;
use crate::map_indexing_system::MapIndexingSystem;
use crate::map_indexing_system::positions_in_bounds;
use crate::melee_combat_system::lemma_melee_blows_agree;
use crate::melee_combat_system::melee_blows_up_to;
use crate::melee_combat_system::pending_of;
use crate::melee_combat_system::MeleeCombatSystem;
use crate::melee_combat_system::stats_bounded;
use crate::monster_ai_system::MonsterAI;
use crate::player::try_move_player;
use crate::rng::Rng;
use crate::spawner;
use crate::visibility_system::player_tag_is;
use crate::visibility_system::viewshed_ranges_ok;
use crate::visibility_system::VisibilitySystem;
use crate::world::Entity;
use crate::world::World;

verus! {

/// The states of the turn machine. The simulation states drive the system
/// pipeline; the menu and targeting states are pass-through states owned
/// by the presentation layer.
#[derive(Clone, Copy, PartialEq, Eq, Structural, Debug)]
pub enum RunState {
    AwaitingInput,
    PreRun,
    PlayerTurn,
    MonsterTurn,
    ShowInventory,
    ShowDropItem,
    ShowTargeting { range: i32, item: Entity },
    MainMenu { menu_selection: MainMenuSelection },
    SaveGame,
}

/// A discrete player intent handed in by the input layer.
#[derive(Clone, Copy, PartialEq, Eq, Structural, Debug)]
pub enum PlayerInput {
    Idle,
    Move { dx: i32, dy: i32 },
    PickUp,
    OpenInventory,
    OpenDropMenu,
    MenuCancel,
    MenuSelect { item: Entity },
    Target { x: i32, y: i32 },
    MainMenuKey { key: MenuInput },
    Save,
}

/// One game session: the entity stores, the map, the designated player,
/// the message log and the turn machine's state.
pub struct State {
    pub ecs: World,
    pub map: GridMap,
    pub player_entity: Entity,
    pub player_pos: Position,
    pub run_state: RunState,
    pub log: GameLog,
    pub rng: Rng,
}

impl State {
    /// Session well-formedness: the stores and map are well formed, the
    /// player is a live, positioned, uniquely tagged entity whose cached
    /// position matches its store entry and who carries no consumable tag
    /// (so no sweep or item use can ever delete it), and every record that
    /// feeds the systems' arithmetic is in range.
    pub open spec fn wf(self) -> bool {
        &&& self.ecs.wf()
        &&& self.map.wf()
        &&& (self.player_entity as int) < self.ecs.num_entities()
        &&& self.ecs.is_alive(self.player_entity as int)
        &&& player_tag_is(self.ecs, self.player_entity as int)
        &&& positions_in_bounds(self.ecs, self.map)
        &&& self.ecs.positions@[self.player_entity as int] == Some(self.player_pos)
        &&& self.ecs.consumables@[self.player_entity as int] is None
        &&& self.ecs.monsters@[self.player_entity as int] is None
        &&& self.ecs.items@[self.player_entity as int] is None
        &&& forall|a: int|
            0 <= a < self.ecs.num_entities() && (#[trigger] self.ecs.wants_pickup@[a]) is Some
                ==> self.ecs.wants_pickup@[a]->Some_0.item != self.player_entity
        &&& forall|a: int|
            0 <= a < self.ecs.num_entities() && (#[trigger] self.ecs.wants_drop@[a]) is Some
                ==> self.ecs.wants_drop@[a]->Some_0.item != self.player_entity
        &&& viewshed_ranges_ok(self.ecs)
        &&& stats_bounded(self.ecs)
        &&& healing_nonnegative(self.ecs)
        &&& radii_ok(self.ecs)
        &&& use_targets_in_bounds(self.ecs, self.map)
        &&& self.rng.wf()
    }

    /// Runs the full system pipeline once, in its fixed, load-bearing
    /// order: visibility, monster AI, map re-index, melee, damage
    /// resolution, then item pickup, use and drop. The permanent
    /// `revealed` set of the map only ever grows.
    pub fn run_systems(&mut self)
        requires
            old(self).wf(),
        ensures
            final(self).wf(),
            final(self).run_state == old(self).run_state,
            final(self).player_entity == old(self).player_entity,
            final(self).ecs.num_entities() == old(self).ecs.num_entities(),
            final(self).map.width == old(self).map.width,
            final(self).map.height == old(self).map.height,
            final(self).map.tiles@ == old(self).map.tiles@,
            final(self).map.rooms@ == old(self).map.rooms@,
            forall|i: int|
                0 <= i < old(self).map.area() && old(self).map.revealed_tiles@[i] ==> final(self).map.revealed_tiles@[i],
            // outside the monster turn, with no item use pending, the pass
            // applies exactly the melee arithmetic: every accumulator is
            // drained into hit points in one subtraction
            (old(self).run_state != RunState::MonsterTurn && no_use_intents(old(self).ecs)) ==> ({
                let n0 = old(self).ecs.num_entities();
                &&& final(self).ecs.alive@ == old(self).ecs.alive@
                &&& forall|t: int|
                    0 <= t < n0 ==> (#[trigger] final(self).ecs.suffer_damage@[t]) is None
                &&& forall|t: int|
                    0 <= t < n0 ==> (#[trigger] final(self).ecs.combat_stats@[t]) == (
                    match old(self).ecs.combat_stats@[t] {
                        Option::Some(st) => Some(
                            CombatStats {
                                current_hp: clamp_i32(
                                    st.current_hp - pending_sum(
                                        pending_of(old(self).ecs, t) + melee_blows_up_to(
                                            old(self).ecs,
                                            t,
                                            n0,
                                        ),
                                    ),
                                ) as i32,
                                ..st
                            },
                        ),
                        Option::None => None,
                    })
            }),
            // every one-turn intent was consumed by its phase
            forall|e: int|
                0 <= e < old(self).ecs.num_entities() ==> (#[trigger] final(self).ecs.wants_melee@[e]) is None,
            forall|e: int|
                0 <= e < old(self).ecs.num_entities() ==> (#[trigger] final(self).ecs.wants_pickup@[e]) is None,
            forall|e: int|
                0 <= e < old(self).ecs.num_entities() ==> (#[trigger] final(self).ecs.wants_use@[e]) is None,
            forall|e: int|
                0 <= e < old(self).ecs.num_entities() ==> (#[trigger] final(self).ecs.wants_drop@[e]) is None,
    {
        let pe = self.player_entity;
        let ghost s0 = *self;
        VisibilitySystem::run(&mut self.ecs, &mut self.map, pe);
        proof {
            lemma_same_dims_in_bounds(s0.ecs, s0.map, self.ecs, self.map);
            assert(player_tag_is(self.ecs, pe as int));
            assert(viewshed_ranges_ok(self.ecs)) by {
                assert(self.ecs.viewsheds@.len() == s0.ecs.viewsheds@.len());
                assert forall|e: int|
                    0 <= e < self.ecs.num_entities() && (#[trigger] self.ecs.viewsheds@[e])
                        is Some implies 0 <= self.ecs.viewsheds@[e]->Some_0.range
                    <= 0x10_0000 by {
                    if crate::visibility_system::viewer(s0.ecs, e) {
                        assert(crate::visibility_system::recomputed(s0.ecs, self.ecs, s0.map, e));
                    } else {
                        assert(self.ecs.viewsheds@[e] == s0.ecs.viewsheds@[e]);
                    }
                }
            }
            assert(use_targets_in_bounds(self.ecs, self.map)) by {
                lemma_same_dims_targets(s0.ecs, s0.map, self.ecs, self.map);
            }
        }
        let ghost s1 = *self;
        MonsterAI::run(&mut self.ecs, &mut self.map, self.player_pos, pe, self.run_state);
        proof {
            assert(self.ecs.positions@[pe as int] == s1.ecs.positions@[pe as int]) by {
                if self.ecs.positions@[pe as int] != s1.ecs.positions@[pe as int] {
                    assert(crate::monster_ai_system::ai_actor(s1.ecs, pe as int));
                }
            }
            assert(viewshed_ranges_ok(self.ecs)) by {
                assert forall|e: int|
                    0 <= e < self.ecs.num_entities() && (#[trigger] self.ecs.viewsheds@[e])
                        is Some implies 0 <= self.ecs.viewsheds@[e]->Some_0.range
                    <= 0x10_0000 by {
                    assert(self.ecs.viewsheds@[e] == s1.ecs.viewsheds@[e]
                        || self.ecs.viewsheds@[e]->Some_0.range
                        == s1.ecs.viewsheds@[e]->Some_0.range);
                }
            }
            assert(use_targets_in_bounds(self.ecs, self.map)) by {
                lemma_same_dims_targets(s1.ecs, s1.map, self.ecs, self.map);
            }
        }
        let ghost s2 = *self;
        MapIndexingSystem::run(&self.ecs, &mut self.map);
        proof {
            lemma_same_dims_in_bounds(s2.ecs, s2.map, self.ecs, self.map);
            lemma_same_dims_targets(s2.ecs, s2.map, self.ecs, self.map);
        }
        let ghost s_mel = *self;
        MeleeCombatSystem::run(&mut self.ecs);
        let ghost s_dmg = *self;
        DamageSystem::run(&mut self.ecs);
        let ghost s_pick = *self;
        ItemCollectionSystem::run(&mut self.ecs);
        proof {
            assert(self.ecs.positions@[pe as int] == Some(self.player_pos)) by {
                if crate::item_collection_system::pickup_requested(s_pick.ecs, pe as int) {
                    let a = choose|a: int|
                        0 <= a < s_pick.ecs.num_entities() && (
                        #[trigger] s_pick.ecs.wants_pickup@[a]) is Some && s_pick
                            .ecs.wants_pickup@[a]->Some_0.item == pe as int;
                    assert(false);
                }
            }
        }
        let ghost s3 = *self;
        ItemUseSystem::run(&mut self.ecs, &self.map, pe);
        proof {
            assert(self.ecs.is_alive(pe as int)) by {
                if !self.ecs.is_alive(pe as int) {
                    assert(s3.ecs.consumables@[pe as int] is Some);
                }
            }
            assert(self.ecs.positions@[pe as int] == Some(self.player_pos)) by {
                assert(self.ecs.alive@[pe as int]);
            }
            assert(self.ecs.monsters@[pe as int] is None) by {
                assert(self.ecs.alive@[pe as int]);
            }
            assert(self.ecs.consumables@[pe as int] is None) by {
                assert(self.ecs.alive@[pe as int]);
            }
            assert(player_tag_is(self.ecs, pe as int)) by {
                assert forall|e: int|
                    0 <= e < self.ecs.num_entities() implies ((#[trigger] self.ecs.players@[e])
                    is Some <==> e == pe) by {
                    assert(self.ecs.players@[e] == s3.ecs.players@[e] || self.ecs.players@[e]
                        is None);
                    if e == pe as int {
                        assert(self.ecs.alive@[pe as int]);
                        assert(self.ecs.players@[e] == s3.ecs.players@[e]);
                    }
                }
            }
            assert(self.ecs.items@[pe as int] is None) by {
                assert(self.ecs.alive@[pe as int]);
            }
            assert forall|a: int|
                0 <= a < self.ecs.num_entities() && (#[trigger] self.ecs.wants_pickup@[a])
                    is Some implies self.ecs.wants_pickup@[a]->Some_0.item != pe by {
                assert(s3.ecs.wants_pickup@[a] is Some);
            }
            assert forall|a: int|
                0 <= a < self.ecs.num_entities() && (#[trigger] self.ecs.wants_drop@[a])
                    is Some implies self.ecs.wants_drop@[a]->Some_0.item != pe by {
                assert(s3.ecs.wants_drop@[a] is Some);
            }
            lemma_wf_pieces_after_use(s3.ecs, self.ecs, s3.map, self.map, pe as int);
        }
        let ghost s4 = *self;
        ItemDropSystem::run(&mut self.ecs);
        proof {
            assert(positions_in_bounds(self.ecs, self.map)) by {
                assert forall|e2: int|
                    0 <= e2 < self.ecs.num_entities() && (#[trigger] self.ecs.positions@[e2])
                        is Some implies self.map.spec_in_bounds(
                    self.ecs.positions@[e2]->Some_0.x as int,
                    self.ecs.positions@[e2]->Some_0.y as int,
                ) by {
                    if crate::inventory_system::drop_requested(s4.ecs, e2) {
                        let a = choose|a: int|
                            crate::inventory_system::drop_source(s4.ecs, e2, a) && self
                                .ecs.positions@[e2] == s4.ecs.positions@[a];
                        assert(s4.ecs.positions@[a] is Some);
                    } else {
                        assert(self.ecs.positions@[e2] == s4.ecs.positions@[e2]);
                        assert(s4.ecs.positions@[e2] is Some);
                    }
                }
            }
            assert(use_targets_in_bounds(self.ecs, self.map)) by {
                lemma_same_dims_targets(s4.ecs, s4.map, self.ecs, self.map);
            }
            assert(self.ecs.positions@[pe as int] == Some(self.player_pos)) by {
                if crate::inventory_system::drop_requested(s4.ecs, pe as int) {
                    let a = choose|a: int|
                        0 <= a < s4.ecs.num_entities() && (#[trigger] s4.ecs.wants_drop@[a])
                            is Some && s4.ecs.wants_drop@[a]->Some_0.item == pe as int
                            && s4.ecs.positions@[a] is Some;
                    assert(false);
                } else {
                    assert(self.ecs.positions@[pe as int] == s4.ecs.positions@[pe as int]);
                }
            }
            // the exact-combat composite of the pass, when the monster turn
            // is gated off and no item use is pending
            if old(self).run_state != RunState::MonsterTurn && no_use_intents(old(self).ecs) {
                let n0 = old(self).ecs.num_entities();
                assert(s_mel.ecs.wants_melee@ == old(self).ecs.wants_melee@);
                assert(s_mel.ecs.combat_stats@ == old(self).ecs.combat_stats@);
                assert(s_mel.ecs.suffer_damage@ == old(self).ecs.suffer_damage@);
                assert(s_mel.ecs.alive@ == old(self).ecs.alive@);
                assert(s_mel.ecs.wants_use@ == old(self).ecs.wants_use@);
                assert(no_use_intents(s3.ecs)) by {
                    assert forall|j: int|
                        0 <= j < s3.ecs.num_entities() implies (#[trigger] s3.ecs.wants_use@[j])
                        is None by {
                        assert(s3.ecs.wants_use@[j] == old(self).ecs.wants_use@[j]);
                    }
                }
                assert(self.ecs.alive@ == old(self).ecs.alive@);
                assert forall|t: int|
                    0 <= t < n0 implies (#[trigger] self.ecs.suffer_damage@[t]) is None by {
                    assert(s_pick.ecs.suffer_damage@[t] is None);
                    assert(s3.ecs.suffer_damage@[t] is None);
                    assert(s4.ecs.suffer_damage@[t] is None);
                }
                assert forall|t: int|
                    0 <= t < n0 implies (#[trigger] self.ecs.combat_stats@[t]) == (
                match old(self).ecs.combat_stats@[t] {
                    Option::Some(st) => Some(
                        CombatStats {
                            current_hp: clamp_i32(
                                st.current_hp - pending_sum(
                                    pending_of(old(self).ecs, t) + melee_blows_up_to(
                                        old(self).ecs,
                                        t,
                                        n0,
                                    ),
                                ),
                            ) as i32,
                            ..st
                        },
                    ),
                    Option::None => None,
                }) by {
                    lemma_melee_blows_agree(s_mel.ecs, old(self).ecs, t, n0 as int);
                    assert(pending_of(s_mel.ecs, t) == pending_of(old(self).ecs, t));
                    assert(pending_of(s_dmg.ecs, t) == pending_of(s_mel.ecs, t)
                        + melee_blows_up_to(s_mel.ecs, t, n0 as int));
                    assert(s_dmg.ecs.combat_stats@[t] == old(self).ecs.combat_stats@[t]);
                    if s_dmg.ecs.combat_stats@[t] is Some && s_dmg.ecs.suffer_damage@[t]
                        is Some {
                        assert(s_dmg.ecs.suffer_damage@[t]->Some_0.amount@ == pending_of(
                            s_dmg.ecs,
                            t,
                        ));
                    } else {
                        // no record: no pending damage and no landed blow
                        assert(s_dmg.ecs.suffer_damage@[t] is Some <==> (old(
                            self,
                        ).ecs.suffer_damage@[t] is Some || melee_blows_up_to(
                            old(self).ecs,
                            t,
                            n0,
                        ).len() > 0)) by {
                            assert(s_mel.ecs.suffer_damage@[t] is Some <==> old(
                                self,
                            ).ecs.suffer_damage@[t] is Some);
                            lemma_melee_blows_agree(s_mel.ecs, old(self).ecs, t, n0 as int);
                        }
                        if s_dmg.ecs.combat_stats@[t] is Some {
                            assert(pending_of(old(self).ecs, t) + melee_blows_up_to(
                                old(self).ecs,
                                t,
                                n0,
                            ) =~= Seq::<i32>::empty());
                            assert(pending_sum(Seq::<i32>::empty()) == 0);
                        }
                    }
                    assert(s_pick.ecs.combat_stats@[t] == s3.ecs.combat_stats@[t]);
                    assert(s3.ecs.combat_stats@[t] == s4.ecs.combat_stats@[t]);
                    assert(s4.ecs.combat_stats@[t] == self.ecs.combat_stats@[t]);
                }
            }
        }
    }
}

/// The first floor item (from handle `e` upward) lying on tile `p`.
pub open spec fn spec_first_item_at(w: World, p: Position, e: int) -> Option<Entity>
    decreases w.num_entities() - e,
{
    if e < 0 || e >= w.num_entities() {
        None
    } else if w.items@[e] is Some && w.positions@[e] == Some(p) {
        Some(e as Entity)
    } else {
        spec_first_item_at(w, p, e + 1)
    }
}

/// Finds the first floor item on tile `p`.
fn first_item_at(world: &World, p: Position) -> (r: Option<Entity>)
    requires
        world.wf(),
    ensures
        r == spec_first_item_at(*world, p, 0),
{
    let n = world.alive.len();
    let mut e: usize = 0;
    while e < n
        invariant
            world.wf(),
            n == world.num_entities(),
            e <= n,
            spec_first_item_at(*world, p, 0) == spec_first_item_at(*world, p, e as int),
        decreases n - e,
    {
        let hit = world.items[e].is_some() && match &world.positions[e] {
            Some(q) => *q == p,
            None => false,
        };
        if hit {
            proof {
                assert(spec_first_item_at(*world, p, e as int) == Some(e));
            }
            return Some(e);
        }
        e += 1;
    }
    None
}

/// The turn machine's transition table: where one tick takes the session
/// from each state, for each input. The simulation states advance the turn
/// cycle unconditionally; the menu and targeting states move only on
/// menu inputs; unusable selections leave the state in place.
pub open spec fn tick_next_state(s: State, input: PlayerInput) -> RunState {
    match s.run_state {
        RunState::PreRun => RunState::AwaitingInput,
        RunState::PlayerTurn => RunState::MonsterTurn,
        RunState::MonsterTurn => RunState::AwaitingInput,
        RunState::AwaitingInput => match input {
            PlayerInput::Move { dx, dy } => RunState::PlayerTurn,
            PlayerInput::PickUp => if spec_first_item_at(s.ecs, s.player_pos, 0) is Some {
                RunState::PlayerTurn
            } else {
                RunState::AwaitingInput
            },
            PlayerInput::OpenInventory => RunState::ShowInventory,
            PlayerInput::OpenDropMenu => RunState::ShowDropItem,
            PlayerInput::Save => RunState::SaveGame,
            _ => RunState::AwaitingInput,
        },
        RunState::ShowInventory => match input {
            PlayerInput::MenuCancel => RunState::AwaitingInput,
            PlayerInput::MenuSelect { item } => if (item as int) < s.ecs.num_entities()
                && s.ecs.ranged@[item as int] is Some {
                RunState::ShowTargeting {
                    range: s.ecs.ranged@[item as int]->Some_0.range,
                    item,
                }
            } else if (item as int) < s.ecs.num_entities() {
                RunState::PlayerTurn
            } else {
                RunState::ShowInventory
            },
            _ => RunState::ShowInventory,
        },
        RunState::ShowDropItem => match input {
            PlayerInput::MenuCancel => RunState::AwaitingInput,
            PlayerInput::MenuSelect { item } => if (item as int) < s.ecs.num_entities() && item
                != s.player_entity {
                RunState::PlayerTurn
            } else {
                RunState::ShowDropItem
            },
            _ => RunState::ShowDropItem,
        },
        RunState::ShowTargeting { range, item } => match input {
            PlayerInput::MenuCancel => RunState::AwaitingInput,
            PlayerInput::Target { x, y } => if s.map.spec_in_bounds(x as int, y as int) && (
            item as int) < s.ecs.num_entities() {
                RunState::PlayerTurn
            } else {
                RunState::ShowTargeting { range, item }
            },
            _ => RunState::ShowTargeting { range, item },
        },
        RunState::MainMenu { menu_selection } => match input {
            PlayerInput::MainMenuKey { key } => match key {
                MenuInput::Idle => RunState::MainMenu { menu_selection },
                MenuInput::Up => RunState::MainMenu {
                    menu_selection: crate::gui::menu_up(menu_selection),
                },
                MenuInput::Down => RunState::MainMenu {
                    menu_selection: crate::gui::menu_down(menu_selection),
                },
                MenuInput::Select => match menu_selection {
                    MainMenuSelection::NewGame => RunState::PreRun,
                    MainMenuSelection::LoadGame => RunState::PreRun,
                    MainMenuSelection::Quit => RunState::MainMenu { menu_selection },
                },
            },
            _ => RunState::MainMenu { menu_selection },
        },
        RunState::SaveGame => RunState::MainMenu {
            menu_selection: MainMenuSelection::LoadGame,
        },
    }
}

impl State {
    /// Advances the session by one tick: pass-through states consume their
    /// menu input; the simulation states run the full pipeline; dead
    /// entities (never the player) are swept at the end. Returns whether a
    /// quit was chosen from the main menu. The new run state follows
    /// [`tick_next_state`] exactly, and the map's `revealed` set never
    /// shrinks.
    pub fn tick(&mut self, input: PlayerInput) -> (quit: bool)
        requires
            old(self).wf(),
        ensures
            final(self).wf(),
            final(self).player_entity == old(self).player_entity,
            final(self).run_state == tick_next_state(*old(self), input),
            forall|i: int|
                0 <= i < old(self).map.area() && old(self).map.revealed_tiles@[i] ==> final(self).map.revealed_tiles@[i],
            quit == (old(self).run_state matches RunState::MainMenu { menu_selection }
                && input matches PlayerInput::MainMenuKey { key: MenuInput::Select }
                && menu_selection == MainMenuSelection::Quit),
            // the death sweep has run: no dead non-player entity survives a tick
            forall|e: int|
                0 <= e < final(self).ecs.num_entities() && #[trigger] final(self).ecs.is_alive(e)
                    && e != final(self).player_entity && final(self).ecs.combat_stats@[e] is Some
                    ==> final(self).ecs.combat_stats@[e]->Some_0.current_hp >= 1,
            // menu selections insert their intent records
            (input matches PlayerInput::MenuSelect { item } ==> (old(self).run_state
                == RunState::ShowInventory && (item as int) < old(self).ecs.num_entities() && old(self).ecs.ranged@[item as int] is None ==> final(self).ecs.wants_use@[old(self).player_entity as int] == Some(WantsToUseItem { item, target: None }))),
            (input matches PlayerInput::MenuSelect { item } ==> (old(self).run_state
                == RunState::ShowDropItem && (item as int) < old(self).ecs.num_entities() && item
                != old(self).player_entity ==> final(self).ecs.wants_drop@[old(self).player_entity as int] == Some(WantsToDropItem { item }))),
            (old(self).run_state matches RunState::ShowTargeting { range, item } ==> (
            input matches PlayerInput::Target { x, y } ==> (old(self).map.spec_in_bounds(
                x as int,
                y as int,
            ) && (item as int) < old(self).ecs.num_entities() ==> final(self).ecs.wants_use@[old(self).player_entity as int] == Some(
                WantsToUseItem { item, target: Some(Position { x, y }) },
            )))),
            (old(self).run_state == RunState::AwaitingInput && input == PlayerInput::PickUp
                && spec_first_item_at(old(self).ecs, old(self).player_pos, 0) is Some ==> final(self).ecs.wants_pickup@[old(self).player_entity as int] == Some(
                WantsToPickupItem {
                    collected_by: old(self).player_entity,
                    item: spec_first_item_at(old(self).ecs, old(self).player_pos, 0)->Some_0,
                },
            )),
    {
        let pe = self.player_entity;
        let mut quit = false;
        let ghost prev = *self;
        match self.run_state {
            RunState::PreRun => {
                self.run_systems();
                self.run_state = RunState::AwaitingInput;
            },
            RunState::PlayerTurn => {
                self.run_systems();
                self.run_state = RunState::MonsterTurn;
            },
            RunState::MonsterTurn => {
                self.run_systems();
                self.run_state = RunState::AwaitingInput;
            },
            RunState::AwaitingInput => {
                match input {
                    PlayerInput::Move { dx, dy } => {
                        let cx: i32 = if dx < -1 {
                            -1
                        } else if dx > 1 {
                            1
                        } else {
                            dx
                        };
                        let cy: i32 = if dy < -1 {
                            -1
                        } else if dy > 1 {
                            1
                        } else {
                            dy
                        };
                        try_move_player(cx, cy, &mut self.ecs, &self.map, pe);
                        let new_pos: Position = match &self.ecs.positions[pe] {
                            Some(p) => *p,
                            None => self.player_pos,
                        };
                        self.player_pos = new_pos;
                        proof {
                            assert(viewshed_ranges_ok(self.ecs)) by {
                                assert forall|e: int|
                                    0 <= e < self.ecs.num_entities() && (
                                    #[trigger] self.ecs.viewsheds@[e]) is Some implies 0
                                    <= self.ecs.viewsheds@[e]->Some_0.range <= 0x10_0000 by {
                                    if e != pe {
                                        assert(self.ecs.positions@[e]
                                            == prev.ecs.positions@[e]);
                                    }
                                    assert(self.ecs.viewsheds@[e] == prev.ecs.viewsheds@[e]
                                        || self.ecs.viewsheds@[e]->Some_0.range
                                        == prev.ecs.viewsheds@[e]->Some_0.range);
                                }
                            }
                        }
                        self.run_state = RunState::PlayerTurn;
                    },
                    PlayerInput::PickUp => {
                        let found = first_item_at(&self.ecs, self.player_pos);
                        match found {
                            Some(item) => {
                                proof {
                                    lemma_first_item_is_item(self.ecs, self.player_pos, 0);
                                }
                                self.ecs.wants_pickup[pe] = Some(
                                    WantsToPickupItem { collected_by: pe, item },
                                );
                                self.run_state = RunState::PlayerTurn;
                            },
                            None => {
                                self.log.push_line("There is nothing here to pick up.".to_string());
                            },
                        }
                    },
                    PlayerInput::OpenInventory => {
                        self.run_state = RunState::ShowInventory;
                    },
                    PlayerInput::OpenDropMenu => {
                        self.run_state = RunState::ShowDropItem;
                    },
                    PlayerInput::Save => {
                        self.run_state = RunState::SaveGame;
                    },
                    _ => {},
                }
            },
            RunState::ShowInventory => {
                match input {
                    PlayerInput::MenuCancel => {
                        self.run_state = RunState::AwaitingInput;
                    },
                    PlayerInput::MenuSelect { item } => {
                        let n = self.ecs.alive.len();
                        if item < n {
                            let mut is_ranged = false;
                            let mut item_range: i32 = 0;
                            match &self.ecs.ranged[item] {
                                Some(r) => {
                                    is_ranged = true;
                                    item_range = r.range;
                                },
                                None => {},
                            }
                            if is_ranged {
                                self.run_state = RunState::ShowTargeting {
                                    range: item_range,
                                    item,
                                };
                            } else {
                                self.ecs.wants_use[pe] = Some(
                                    WantsToUseItem { item, target: None },
                                );
                                self.run_state = RunState::PlayerTurn;
                            }
                        }
                    },
                    _ => {},
                }
            },
            RunState::ShowDropItem => {
                match input {
                    PlayerInput::MenuCancel => {
                        self.run_state = RunState::AwaitingInput;
                    },
                    PlayerInput::MenuSelect { item } => {
                        let n = self.ecs.alive.len();
                        if item < n && item != pe {
                            self.ecs.wants_drop[pe] = Some(WantsToDropItem { item });
                            self.run_state = RunState::PlayerTurn;
                        }
                    },
                    _ => {},
                }
            },
            RunState::ShowTargeting { range, item } => {
                match input {
                    PlayerInput::MenuCancel => {
                        self.run_state = RunState::AwaitingInput;
                    },
                    PlayerInput::Target { x, y } => {
                        let n = self.ecs.alive.len();
                        let (w, h) = self.map.get_dimensions();
                        if 0 <= x && x < w && 0 <= y && y < h && item < n {
                            self.ecs.wants_use[pe] = Some(
                                WantsToUseItem { item, target: Some(Position { x, y }) },
                            );
                            self.run_state = RunState::PlayerTurn;
                        }
                    },
                    _ => {},
                }
            },
            RunState::MainMenu { menu_selection } => {
                match input {
                    PlayerInput::MainMenuKey { key } => {
                        let outcome = main_menu(menu_selection, key);
                        match outcome {
                            MainMenuResult::NoSelection { selected } => {
                                self.run_state = RunState::MainMenu { menu_selection: selected };
                            },
                            MainMenuResult::Selected { selected } => {
                                match selected {
                                    MainMenuSelection::NewGame => {
                                        self.run_state = RunState::PreRun;
                                    },
                                    MainMenuSelection::LoadGame => {
                                        self.run_state = RunState::PreRun;
                                    },
                                    MainMenuSelection::Quit => {
                                        quit = true;
                                    },
                                }
                            },
                        }
                    },
                    _ => {},
                }
            },
            RunState::SaveGame => {
                self.run_state = RunState::MainMenu {
                    menu_selection: MainMenuSelection::LoadGame,
                };
            },
        }
        let ghost s_mid = *self;
        proof {
            assert(s_mid.ecs.wf());
        }
        let died = delete_the_dead(&mut self.ecs, pe);
        if died {
            self.log.push_line("You are dead!".to_string());
        }
        proof {
            lemma_wf_after_sweep(s_mid, *self, pe as int);
        }
        quit
    }
}

/// What build-up guarantees of every non-player entity spawned into a
/// room: no player tag, no pending intents, and every record that feeds
/// the systems' arithmetic in range, with any position inside the map.
pub open spec fn room_entity_ok(w: World, m: GridMap, e: int) -> bool {
    &&& w.players@[e] is None
    &&& (w.positions@[e] is Some ==> m.spec_in_bounds(
        w.positions@[e]->Some_0.x as int,
        w.positions@[e]->Some_0.y as int,
    ))
    &&& (w.viewsheds@[e] is Some ==> 0 <= w.viewsheds@[e]->Some_0.range <= 0x10_0000)
    &&& (w.combat_stats@[e] is Some ==> -crate::melee_combat_system::STAT_LIMIT
        <= w.combat_stats@[e]->Some_0.defense <= crate::melee_combat_system::STAT_LIMIT
        && -crate::melee_combat_system::STAT_LIMIT <= w.combat_stats@[e]->Some_0.power
        <= crate::melee_combat_system::STAT_LIMIT)
    &&& (w.provides_healing@[e] is Some ==> 0 <= w.provides_healing@[e]->Some_0.heal_amount)
    &&& (w.area_effects@[e] is Some ==> 0 <= w.area_effects@[e]->Some_0.radius <= 0x10_0000)
    &&& w.wants_pickup@[e] is None
    &&& w.wants_use@[e] is None
    &&& w.wants_drop@[e] is None
}

/// Builds a fresh session: a generated map, the player in the centre of
/// the first room, and every further room populated with monsters and
/// items. The session starts in `PreRun`, so the first tick bootstraps
/// the pipeline.
pub fn build_state(width: i32, height: i32, seed: u64) -> (s: State)
    requires
        11 <= width,
        11 <= height,
        width * height <= i32::MAX,
    ensures
        s.wf(),
        s.run_state == RunState::PreRun,
        s.map.width == width,
        s.map.height == height,
        s.map.sealed_boundary(),
        s.map.rooms_ok(),
        s.map.rooms@.len() >= 1,
        // the player starts in the centre of the first room
        (s.player_pos.x as int, s.player_pos.y as int) == s.map.rooms@[0].spec_centre(),
        s.ecs.positions@[s.player_entity as int] == Some(s.player_pos),
{
    broadcast use vstd::string::to_string_from_display_ensures_for_str;

    let map = GridMap::new(width, height, seed);
    let mut rng = Rng::seeded(seed);
    let mut world = World::new();
    let room0 = map.get_room(0);
    proof {
        assert(2 * width <= i32::MAX && 2 * height <= i32::MAX) by (nonlinear_arith)
            requires
                11 <= width,
                11 <= height,
                width * height <= i32::MAX,
        ;
        assert(map.room_ok(map.rooms@[0]));
        room0.lemma_centre_bounds();
    }
    let (player_x, player_y) = room0.centre();
    let player_entity = spawner::player(&mut world, player_x, player_y);
    let count = map.get_room_count();
    let mut i: i32 = 1;
    while i < count
        invariant
            world.wf(),
            rng.wf(),
            map.wf(),
            map.rooms_ok(),
            1 <= i <= count,
            count == map.rooms@.len(),
            (player_entity as int) < world.num_entities(),
            count <= 30,
            world.num_entities() <= 1 + 6 * i,
            spawner::spawned_player(world, player_entity as int, player_x, player_y),
            map.spec_in_bounds(player_x as int, player_y as int),
            forall|e: int|
                0 <= e < world.num_entities() && e != player_entity ==> room_entity_ok(
                    world,
                    map,
                    e,
                ),
        decreases count - i,
    {
        let room = map.get_room(i);
        proof {
            assert(map.room_ok(map.rooms@[i as int]));
        }
        let ghost w_prev = world;
        spawner::spawn_room(&mut world, &mut rng, &room);
        proof {
            assert(spawner::spawned_player(world, player_entity as int, player_x, player_y)) by {
                assert(World::same_entity(w_prev, world, player_entity as int));
            }
            assert forall|e: int|
                0 <= e < world.num_entities() && e != player_entity implies room_entity_ok(
                world,
                map,
                e,
            ) by {
                if e < w_prev.num_entities() {
                    assert(World::same_entity(w_prev, world, e));
                    assert(room_entity_ok(w_prev, map, e));
                } else {
                    assert(spawner::dweller_in_room(world, room, e));
                    let (x, y) = choose|x: i32, y: i32|
                        room.interior_contains(x as int, y as int)
                            && #[trigger] spawner::spawned_room_dweller(world, e, x, y);
                    assert(map.spec_in_bounds(x as int, y as int));
                }
            }
        }
        i += 1;
    }
    let s = State {
        ecs: world,
        map,
        player_entity,
        player_pos: Position { x: player_x, y: player_y },
        run_state: RunState::PreRun,
        log: GameLog::new("Welcome to Star Rogue!".to_string()),
        rng,
    };
    proof {
        assert(s.wf()) by {
            assert(player_tag_is(s.ecs, player_entity as int)) by {
                assert forall|e: int|
                    0 <= e < s.ecs.num_entities() implies ((#[trigger] s.ecs.players@[e]) is Some
                    <==> e == player_entity) by {
                    if e != player_entity {
                        assert(room_entity_ok(s.ecs, s.map, e));
                    }
                }
            }
            assert(positions_in_bounds(s.ecs, s.map)) by {
                assert forall|e: int|
                    0 <= e < s.ecs.num_entities() && (#[trigger] s.ecs.positions@[e])
                        is Some implies s.map.spec_in_bounds(
                    s.ecs.positions@[e]->Some_0.x as int,
                    s.ecs.positions@[e]->Some_0.y as int,
                ) by {
                    if e != player_entity {
                        assert(room_entity_ok(s.ecs, s.map, e));
                    }
                }
            }
            assert(viewshed_ranges_ok(s.ecs)) by {
                assert forall|e: int|
                    0 <= e < s.ecs.num_entities() && (#[trigger] s.ecs.viewsheds@[e])
                        is Some implies 0 <= s.ecs.viewsheds@[e]->Some_0.range <= 0x10_0000 by {
                    if e != player_entity {
                        assert(room_entity_ok(s.ecs, s.map, e));
                    }
                }
            }
            assert(stats_bounded(s.ecs)) by {
                assert forall|e: int|
                    0 <= e < s.ecs.num_entities() && (#[trigger] s.ecs.combat_stats@[e])
                        is Some implies {
                    let st = s.ecs.combat_stats@[e]->Some_0;
                    -crate::melee_combat_system::STAT_LIMIT <= st.defense
                        <= crate::melee_combat_system::STAT_LIMIT
                        && -crate::melee_combat_system::STAT_LIMIT <= st.power
                        <= crate::melee_combat_system::STAT_LIMIT
                } by {
                    if e != player_entity {
                        assert(room_entity_ok(s.ecs, s.map, e));
                    }
                }
            }
            assert(healing_nonnegative(s.ecs)) by {
                assert forall|e: int|
                    0 <= e < s.ecs.num_entities() && (#[trigger] s.ecs.provides_healing@[e])
                        is Some implies 0 <= s.ecs.provides_healing@[e]->Some_0.heal_amount by {
                    if e != player_entity {
                        assert(room_entity_ok(s.ecs, s.map, e));
                    }
                }
            }
            assert(radii_ok(s.ecs)) by {
                assert forall|e: int|
                    0 <= e < s.ecs.num_entities() && (#[trigger] s.ecs.area_effects@[e])
                        is Some implies 0 <= s.ecs.area_effects@[e]->Some_0.radius
                    <= 0x10_0000 by {
                    if e != player_entity {
                        assert(room_entity_ok(s.ecs, s.map, e));
                    }
                }
            }
            assert(use_targets_in_bounds(s.ecs, s.map)) by {
                assert forall|j: int|
                    0 <= j < s.ecs.num_entities() && (#[trigger] s.ecs.wants_use@[j]) is Some
                        && s.ecs.wants_use@[j]->Some_0.target is Some implies s
                        .map.spec_in_bounds(
                    s.ecs.wants_use@[j]->Some_0.target->Some_0.x as int,
                    s.ecs.wants_use@[j]->Some_0.target->Some_0.y as int,
                ) by {
                    if j != player_entity {
                        assert(room_entity_ok(s.ecs, s.map, j));
                    }
                }
            }
            assert forall|a: int|
                0 <= a < s.ecs.num_entities() && (#[trigger] s.ecs.wants_pickup@[a])
                    is Some implies s.ecs.wants_pickup@[a]->Some_0.item != player_entity by {
                if a != player_entity {
                    assert(room_entity_ok(s.ecs, s.map, a));
                }
            }
            assert forall|a: int|
                0 <= a < s.ecs.num_entities() && (#[trigger] s.ecs.wants_drop@[a])
                    is Some implies s.ecs.wants_drop@[a]->Some_0.item != player_entity by {
                if a != player_entity {
                    assert(room_entity_ok(s.ecs, s.map, a));
                }
            }
        }
    }
    s
}

/// The first item found on a tile carries the item tag and is not the
/// player (the player carries no item tag).
proof fn lemma_first_item_is_item(w: World, p: Position, e: int)
    requires
        w.wf(),
        0 <= e,
    ensures
        spec_first_item_at(w, p, e) is Some ==> {
            let t = spec_first_item_at(w, p, e)->Some_0 as int;
            0 <= t < w.num_entities() && w.items@[t] is Some
        },
    decreases w.num_entities() - e,
{
    if e < w.num_entities() {
        vstd::std_specs::vec::axiom_spec_len(&w.alive);
        assert(w.num_entities() <= usize::MAX);
        lemma_first_item_is_item(w, p, e + 1);
        if w.items@[e] is Some && w.positions@[e] == Some(p) {
            assert(spec_first_item_at(w, p, e) == Some(e as Entity));
            assert((e as Entity) as int == e);
        }
    }
}

/// The death sweep preserves session well-formedness: survivors keep
/// their slots unchanged and the swept are left bare.
proof fn lemma_wf_after_sweep(s_before: State, s_after: State, pe: int)
    requires
        s_before.ecs.wf(),
        s_after.ecs.wf(),
        s_after.ecs.num_entities() == s_before.ecs.num_entities(),
        0 <= pe < s_before.ecs.num_entities(),
        s_before.ecs.is_alive(pe),
        player_tag_is(s_before.ecs, pe),
        positions_in_bounds(s_before.ecs, s_before.map),
        viewshed_ranges_ok(s_before.ecs),
        stats_bounded(s_before.ecs),
        healing_nonnegative(s_before.ecs),
        radii_ok(s_before.ecs),
        use_targets_in_bounds(s_before.ecs, s_before.map),
        s_before.ecs.consumables@[pe] is None,
        s_before.ecs.monsters@[pe] is None,
        s_before.ecs.items@[pe] is None,
        forall|a: int|
            0 <= a < s_before.ecs.num_entities() && (#[trigger] s_before.ecs.wants_pickup@[a])
                is Some ==> s_before.ecs.wants_pickup@[a]->Some_0.item != pe,
        forall|a: int|
            0 <= a < s_before.ecs.num_entities() && (#[trigger] s_before.ecs.wants_drop@[a])
                is Some ==> s_before.ecs.wants_drop@[a]->Some_0.item != pe,
        s_after.map.width == s_before.map.width,
        s_after.map.height == s_before.map.height,
        forall|j: int|
            0 <= j < s_before.ecs.num_entities() && !(s_before.ecs.is_alive(j)
                && crate::damage_system::is_dead(s_before.ecs, j) && j != pe)
                ==> World::same_entity(s_before.ecs, s_after.ecs, j),
        forall|j: int|
            0 <= j < s_before.ecs.num_entities() && (s_before.ecs.is_alive(j)
                && crate::damage_system::is_dead(s_before.ecs, j) && j != pe)
                ==> s_after.ecs.is_bare(j),
        s_after.ecs.is_alive(pe),
    ensures
        player_tag_is(s_after.ecs, pe),
        positions_in_bounds(s_after.ecs, s_after.map),
        viewshed_ranges_ok(s_after.ecs),
        stats_bounded(s_after.ecs),
        healing_nonnegative(s_after.ecs),
        radii_ok(s_after.ecs),
        use_targets_in_bounds(s_after.ecs, s_after.map),
        s_after.ecs.consumables@[pe] is None,
        s_after.ecs.monsters@[pe] is None,
        s_after.ecs.items@[pe] is None,
        s_after.ecs.positions@[pe] == s_before.ecs.positions@[pe],
        forall|a: int|
            0 <= a < s_after.ecs.num_entities() && (#[trigger] s_after.ecs.wants_pickup@[a])
                is Some ==> s_after.ecs.wants_pickup@[a]->Some_0.item != pe,
        forall|a: int|
            0 <= a < s_after.ecs.num_entities() && (#[trigger] s_after.ecs.wants_drop@[a])
                is Some ==> s_after.ecs.wants_drop@[a]->Some_0.item != pe,
{
    let n = s_before.ecs.num_entities();
    assert(World::same_entity(s_before.ecs, s_after.ecs, pe));
    assert forall|e: int|
        0 <= e < n implies ((#[trigger] s_after.ecs.players@[e]) is Some <==> e == pe) by {
        if !(s_before.ecs.is_alive(e) && crate::damage_system::is_dead(s_before.ecs, e) && e
            != pe) {
            assert(World::same_entity(s_before.ecs, s_after.ecs, e));
        } else {
            assert(s_after.ecs.is_bare(e));
        }
    }
    assert forall|e: int|
        0 <= e < n && (#[trigger] s_after.ecs.positions@[e]) is Some implies s_after
            .map.spec_in_bounds(
        s_after.ecs.positions@[e]->Some_0.x as int,
        s_after.ecs.positions@[e]->Some_0.y as int,
    ) by {
        if !(s_before.ecs.is_alive(e) && crate::damage_system::is_dead(s_before.ecs, e) && e
            != pe) {
            assert(World::same_entity(s_before.ecs, s_after.ecs, e));
            assert(s_before.ecs.positions@[e] is Some);
        } else {
            assert(s_after.ecs.is_bare(e));
        }
    }
    assert forall|e: int|
        0 <= e < n && (#[trigger] s_after.ecs.viewsheds@[e]) is Some implies 0
        <= s_after.ecs.viewsheds@[e]->Some_0.range <= 0x10_0000 by {
        if !(s_before.ecs.is_alive(e) && crate::damage_system::is_dead(s_before.ecs, e) && e
            != pe) {
            assert(World::same_entity(s_before.ecs, s_after.ecs, e));
            assert(s_before.ecs.viewsheds@[e] is Some);
        } else {
            assert(s_after.ecs.is_bare(e));
        }
    }
    assert forall|e: int|
        0 <= e < n && (#[trigger] s_after.ecs.combat_stats@[e]) is Some implies {
        let st = s_after.ecs.combat_stats@[e]->Some_0;
        -crate::melee_combat_system::STAT_LIMIT <= st.defense
            <= crate::melee_combat_system::STAT_LIMIT
            && -crate::melee_combat_system::STAT_LIMIT <= st.power
            <= crate::melee_combat_system::STAT_LIMIT
    } by {
        if !(s_before.ecs.is_alive(e) && crate::damage_system::is_dead(s_before.ecs, e) && e
            != pe) {
            assert(World::same_entity(s_before.ecs, s_after.ecs, e));
            assert(s_before.ecs.combat_stats@[e] is Some);
        } else {
            assert(s_after.ecs.is_bare(e));
        }
    }
    assert forall|e: int|
        0 <= e < n && (#[trigger] s_after.ecs.provides_healing@[e]) is Some implies 0
        <= s_after.ecs.provides_healing@[e]->Some_0.heal_amount by {
        if !(s_before.ecs.is_alive(e) && crate::damage_system::is_dead(s_before.ecs, e) && e
            != pe) {
            assert(World::same_entity(s_before.ecs, s_after.ecs, e));
            assert(s_before.ecs.provides_healing@[e] is Some);
        } else {
            assert(s_after.ecs.is_bare(e));
        }
    }
    assert forall|e: int|
        0 <= e < n && (#[trigger] s_after.ecs.area_effects@[e]) is Some implies 0
        <= s_after.ecs.area_effects@[e]->Some_0.radius <= 0x10_0000 by {
        if !(s_before.ecs.is_alive(e) && crate::damage_system::is_dead(s_before.ecs, e) && e
            != pe) {
            assert(World::same_entity(s_before.ecs, s_after.ecs, e));
            assert(s_before.ecs.area_effects@[e] is Some);
        } else {
            assert(s_after.ecs.is_bare(e));
        }
    }
    assert forall|e: int|
        0 <= e < n && (#[trigger] s_after.ecs.wants_use@[e]) is Some
            && s_after.ecs.wants_use@[e]->Some_0.target is Some implies s_after
            .map.spec_in_bounds(
        s_after.ecs.wants_use@[e]->Some_0.target->Some_0.x as int,
        s_after.ecs.wants_use@[e]->Some_0.target->Some_0.y as int,
    ) by {
        if !(s_before.ecs.is_alive(e) && crate::damage_system::is_dead(s_before.ecs, e) && e
            != pe) {
            assert(World::same_entity(s_before.ecs, s_after.ecs, e));
            assert(s_before.ecs.wants_use@[e] is Some);
        } else {
            assert(s_after.ecs.is_bare(e));
        }
    }
    assert forall|a: int|
        0 <= a < n && (#[trigger] s_after.ecs.wants_pickup@[a]) is Some implies s_after
        .ecs.wants_pickup@[a]->Some_0.item != pe by {
        if !(s_before.ecs.is_alive(a) && crate::damage_system::is_dead(s_before.ecs, a) && a
            != pe) {
            assert(World::same_entity(s_before.ecs, s_after.ecs, a));
            assert(s_before.ecs.wants_pickup@[a] is Some);
        } else {
            assert(s_after.ecs.is_bare(a));
        }
    }
    assert forall|a: int|
        0 <= a < n && (#[trigger] s_after.ecs.wants_drop@[a]) is Some implies s_after
        .ecs.wants_drop@[a]->Some_0.item != pe by {
        if !(s_before.ecs.is_alive(a) && crate::damage_system::is_dead(s_before.ecs, a) && a
            != pe) {
            assert(World::same_entity(s_before.ecs, s_after.ecs, a));
            assert(s_before.ecs.wants_drop@[a] is Some);
        } else {
            assert(s_after.ecs.is_bare(a));
        }
    }
}

/// In-bounds positions survive any change that keeps the stores'
/// position entries and the map dimensions.
proof fn lemma_same_dims_in_bounds(w1: World, m1: GridMap, w2: World, m2: GridMap)
    requires
        positions_in_bounds(w1, m1),
        w2.positions@ == w1.positions@,
        w2.num_entities() == w1.num_entities(),
        m2.width == m1.width,
        m2.height == m1.height,
    ensures
        positions_in_bounds(w2, m2),
{
    assert forall|e: int|
        0 <= e < w2.num_entities() && (#[trigger] w2.positions@[e]) is Some implies m2
        .spec_in_bounds(
        w2.positions@[e]->Some_0.x as int,
        w2.positions@[e]->Some_0.y as int,
    ) by {
        assert(w1.positions@[e] is Some);
    }
}

/// In-bounds use-intent targets survive any change that keeps the intents
/// and the map dimensions.
proof fn lemma_same_dims_targets(w1: World, m1: GridMap, w2: World, m2: GridMap)
    requires
        use_targets_in_bounds(w1, m1),
        w2.wants_use@ == w1.wants_use@,
        w2.num_entities() == w1.num_entities(),
        m2.width == m1.width,
        m2.height == m1.height,
    ensures
        use_targets_in_bounds(w2, m2),
{
    assert forall|j: int|
        0 <= j < w2.num_entities() && (#[trigger] w2.wants_use@[j]) is Some
            && w2.wants_use@[j]->Some_0.target is Some implies m2.spec_in_bounds(
        w2.wants_use@[j]->Some_0.target->Some_0.x as int,
        w2.wants_use@[j]->Some_0.target->Some_0.y as int,
    ) by {
        assert(w1.wants_use@[j] is Some);
    }
}

/// The per-record range conditions survive an item-use pass: a surviving
/// entity keeps its records and a deleted one has none.
proof fn lemma_wf_pieces_after_use(w1: World, w2: World, m1: GridMap, m2: GridMap, pe: int)
    requires
        w1.wf(),
        w2.wf(),
        w2.num_entities() == w1.num_entities(),
        positions_in_bounds(w1, m1),
        viewshed_ranges_ok(w1),
        stats_bounded(w1),
        healing_nonnegative(w1),
        radii_ok(w1),
        m2.width == m1.width,
        m2.height == m1.height,
        forall|j: int|
            0 <= j < w1.num_entities() ==> ((#[trigger] w2.positions@[j]) == w1.positions@[j]
                || w2.positions@[j] is None),
        forall|j: int|
            0 <= j < w1.num_entities() ==> ((#[trigger] w2.viewsheds@[j]) == w1.viewsheds@[j]
                || w2.viewsheds@[j] is None),
        forall|j: int|
            0 <= j < w1.num_entities() ==> ((#[trigger] w2.provides_healing@[j])
                == w1.provides_healing@[j] || w2.provides_healing@[j] is None),
        forall|j: int|
            0 <= j < w1.num_entities() ==> ((#[trigger] w2.area_effects@[j])
                == w1.area_effects@[j] || w2.area_effects@[j] is None),
        forall|j: int|
            0 <= j < w1.num_entities() ==> (crate::inventory_system::stats_healed_only(w1, w2, j)
                || (#[trigger] w2.combat_stats@[j]) is None),
        forall|j: int|
            0 <= j < w1.num_entities() ==> (#[trigger] w2.wants_use@[j]) is None,
    ensures
        positions_in_bounds(w2, m2),
        viewshed_ranges_ok(w2),
        stats_bounded(w2),
        healing_nonnegative(w2),
        radii_ok(w2),
        use_targets_in_bounds(w2, m2),
{
    assert forall|e: int|
        0 <= e < w2.num_entities() && (#[trigger] w2.positions@[e]) is Some implies m2
        .spec_in_bounds(
        w2.positions@[e]->Some_0.x as int,
        w2.positions@[e]->Some_0.y as int,
    ) by {
        assert(w1.positions@[e] is Some);
    }
    assert forall|e: int|
        0 <= e < w2.num_entities() && (#[trigger] w2.viewsheds@[e]) is Some implies 0
        <= w2.viewsheds@[e]->Some_0.range <= 0x10_0000 by {
        assert(w1.viewsheds@[e] is Some);
    }
    assert forall|e: int|
        0 <= e < w2.num_entities() && (#[trigger] w2.combat_stats@[e]) is Some implies {
        let s = w2.combat_stats@[e]->Some_0;
        -crate::melee_combat_system::STAT_LIMIT <= s.defense
            <= crate::melee_combat_system::STAT_LIMIT
            && -crate::melee_combat_system::STAT_LIMIT <= s.power
            <= crate::melee_combat_system::STAT_LIMIT
    } by {
        assert(crate::inventory_system::stats_healed_only(w1, w2, e));
        assert(w1.combat_stats@[e] is Some);
    }
    assert forall|e: int|
        0 <= e < w2.num_entities() && (#[trigger] w2.provides_healing@[e]) is Some implies 0
        <= w2.provides_healing@[e]->Some_0.heal_amount by {
        assert(w1.provides_healing@[e] is Some);
    }
    assert forall|e: int|
        0 <= e < w2.num_entities() && (#[trigger] w2.area_effects@[e]) is Some implies 0
        <= w2.area_effects@[e]->Some_0.radius <= 0x10_0000 by {
        assert(w1.area_effects@[e] is Some);
    }
}


} // verus!
