//! Monster AI. Gated to the monster turn: each monster that stands next to
//! the player declares a melee intent against it; one that merely sees the
//! player takes one step along a freshly computed route towards it,
//! updating the blockage flags and marking its own view stale; one that
//! neither stands adjacent nor sees the player, or whose route search
//! fails, holds its position.

use vstd::prelude::*;
use crate::components::Position;
use crate::components::ViewShed;
use crate::components::WantsToMelee;
use crate::game::RunState;
use crate::grid_map::GridMap;
use crate::map_indexing_system::positions_in_bounds;
use crate::pathfinding::find_path;
use crate::pathfinding::lemma_exit_in_bounds;
use crate::pathfinding::spec_edge;
use crate::pathfinding::spec_exit_ok;
use crate::pathfinding::spec_reachable;
use crate::world::Entity;
use crate::world::World;

verus! {

/// Does `v` hold the position `p`?
fn contains_position(v: &Vec<Position>, p: Position) -> (r: bool)
    ensures
        r == v@.contains(p),
{
    let mut i: usize = 0;
    while i < v.len()
        invariant
            i <= v@.len(),
            forall|j: int| 0 <= j < i ==> v@[j] != p,
        decreases v@.len() - i,
    {
        if v[i] == p {
            return true;
        }
        i += 1;
    }
    false
}

/// Entity `e` is an AI actor: a monster with a viewshed and a position.
pub open spec fn ai_actor(w: World, e: int) -> bool {
    &&& w.monsters@[e] is Some
    &&& w.viewsheds@[e] is Some
    &&& w.positions@[e] is Some
}

/// The squared distance between two positions.
pub open spec fn dist2(a: Position, b: Position) -> int {
    (b.x - a.x) * (b.x - a.x) + (b.y - a.y) * (b.y - a.y)
}

/// The monster-turn phase of the pipeline.
pub struct MonsterAI {}

impl MonsterAI {
    /// One monster's whole decision, exactly. An actor standing next to
    /// the player (squared distance at most two) declares a melee intent
    /// against it and stays put. One that does not see the player's tile
    /// does nothing. One that sees it takes, when the player's tile is
    /// reachable over the movement graph, exactly one traversable step
    /// (its old tile is unblocked, the new one blocked, its view marked
    /// stale); when it is unreachable, the actor holds its position and
    /// nothing changes.
    pub fn act(
        world: &mut World,
        map: &mut GridMap,
        e: Entity,
        player_pos: Position,
        player_entity: Entity,
    )
        requires
            old(world).wf(),
            old(map).wf(),
            (e as int) < old(world).num_entities(),
            ai_actor(*old(world), e as int),
            old(map).spec_in_bounds(player_pos.x as int, player_pos.y as int),
            positions_in_bounds(*old(world), *old(map)),
        ensures
            final(world).wf(),
            final(map).wf(),
            final(world).num_entities() == old(world).num_entities(),
            positions_in_bounds(*final(world), *final(map)),
            final(world).alive@ == old(world).alive@,
            final(world).renderables@ == old(world).renderables@,
            final(world).players@ == old(world).players@,
            final(world).left_movers@ == old(world).left_movers@,
            final(world).monsters@ == old(world).monsters@,
            final(world).names@ == old(world).names@,
            final(world).blocks_tile@ == old(world).blocks_tile@,
            final(world).combat_stats@ == old(world).combat_stats@,
            final(world).suffer_damage@ == old(world).suffer_damage@,
            final(world).items@ == old(world).items@,
            final(world).consumables@ == old(world).consumables@,
            final(world).provides_healing@ == old(world).provides_healing@,
            final(world).inflicts_damage@ == old(world).inflicts_damage@,
            final(world).area_effects@ == old(world).area_effects@,
            final(world).confusions@ == old(world).confusions@,
            final(world).ranged@ == old(world).ranged@,
            final(world).backpacks@ == old(world).backpacks@,
            final(world).wants_pickup@ == old(world).wants_pickup@,
            final(world).wants_use@ == old(world).wants_use@,
            final(world).wants_drop@ == old(world).wants_drop@,
            final(map).width == old(map).width,
            final(map).height == old(map).height,
            final(map).tiles@ == old(map).tiles@,
            final(map).rooms@ == old(map).rooms@,
            final(map).revealed_tiles@ == old(map).revealed_tiles@,
            final(map).visible_tiles@ == old(map).visible_tiles@,
            final(map).tile_content@ == old(map).tile_content@,
            forall|j: int|
                0 <= j < old(world).num_entities() && j != e ==> (
                #[trigger] final(world).positions@[j]) == old(world).positions@[j] && final(world).viewsheds@[j] == old(world).viewsheds@[j] && final(world).wants_melee@[j] == old(world).wants_melee@[j],
            ({
                let pos = old(world).positions@[e as int]->Some_0;
                let start = old(map).idx(pos.x as int, pos.y as int);
                let goal = old(map).idx(player_pos.x as int, player_pos.y as int);
                if dist2(pos, player_pos) <= 2 {
                    &&& final(world).wants_melee@[e as int] == Some(
                        WantsToMelee { target: player_entity },
                    )
                    &&& final(world).positions@[e as int] == old(world).positions@[e as int]
                    &&& final(world).viewsheds@[e as int] == old(world).viewsheds@[e as int]
                    &&& final(map).blocked_tiles@ == old(map).blocked_tiles@
                } else if !old(world).viewsheds@[e as int]->Some_0.visible_tiles@.contains(
                    player_pos,
                ) {
                    &&& final(world).positions@[e as int] == old(world).positions@[e as int]
                    &&& final(world).viewsheds@[e as int] == old(world).viewsheds@[e as int]
                    &&& final(world).wants_melee@[e as int] == old(world).wants_melee@[e as int]
                    &&& final(map).blocked_tiles@ == old(map).blocked_tiles@
                } else if spec_reachable(*old(map), start, goal) {
                    &&& final(world).positions@[e as int] is Some
                    &&& ({
                        let p1 = final(world).positions@[e as int]->Some_0;
                        let next = old(map).idx(p1.x as int, p1.y as int);
                        &&& spec_edge(*old(map), start, next)
                        &&& final(map).blocked_tiles@ == old(map).blocked_tiles@.update(
                            start,
                            false,
                        ).update(next, true)
                    })
                    &&& final(world).viewsheds@[e as int] is Some
                    &&& final(world).viewsheds@[e as int]->Some_0.visible_tiles@ == old(world).viewsheds@[e as int]->Some_0.visible_tiles@
                    &&& final(world).viewsheds@[e as int]->Some_0.range == old(world).viewsheds@[e as int]->Some_0.range
                    &&& final(world).viewsheds@[e as int]->Some_0.dirty
                    &&& final(world).wants_melee@[e as int] == old(world).wants_melee@[e as int]
                } else {
                    &&& final(world).positions@[e as int] == old(world).positions@[e as int]
                    &&& final(world).viewsheds@[e as int] == old(world).viewsheds@[e as int]
                    &&& final(world).wants_melee@[e as int] == old(world).wants_melee@[e as int]
                    &&& final(map).blocked_tiles@ == old(map).blocked_tiles@
                }
            }),
    {
        let pos: Position = match &world.positions[e] {
            Some(p) => *p,
            None => Position { x: 0, y: 0 },
        };
        proof {
            assert(map.spec_in_bounds(pos.x as int, pos.y as int));
        }
        let dx: i64 = (player_pos.x as i64) - (pos.x as i64);
        let dy: i64 = (player_pos.y as i64) - (pos.y as i64);
        proof {
            assert(dx * dx <= 0x3FFF_FFFF_FFFF_FFFF && dy * dy <= 0x3FFF_FFFF_FFFF_FFFF && dx * dx
                >= 0 && dy * dy >= 0) by (nonlinear_arith)
                requires
                    -0x7FFF_FFFF <= dx <= 0x7FFF_FFFF,
                    -0x7FFF_FFFF <= dy <= 0x7FFF_FFFF,
            ;
        }
        let d2: i64 = dx * dx + dy * dy;
        if d2 <= 2 {
            world.wants_melee[e] = Some(WantsToMelee { target: player_entity });
            return ;
        }
        let sees = match &world.viewsheds[e] {
            Some(v) => contains_position(&v.visible_tiles, player_pos),
            None => false,
        };
        if !sees {
            return ;
        }
        let start = map.xy_idx(pos.x, pos.y);
        let goal = map.xy_idx(player_pos.x, player_pos.y);
        proof {
            // the tiles differ, so the route, when it exists, has a real step
            map.lemma_index_round_trip(pos.x as int, pos.y as int);
            map.lemma_index_round_trip(player_pos.x as int, player_pos.y as int);
            assert(d2 as int == dist2(pos, player_pos));
            if pos.x == player_pos.x && pos.y == player_pos.y {
                assert(dx == 0 && dy == 0);
                assert(d2 == 0) by (nonlinear_arith)
                    requires
                        dx == 0,
                        dy == 0,
                        d2 == dx * dx + dy * dy,
                ;
            }
            assert(pos.x != player_pos.x || pos.y != player_pos.y);
            assert(start != goal);
        }
        let path = find_path(map, start, goal);
        proof {
            if path.success {
                assert(path.steps@[0] == start && path.steps@.last() == goal);
                assert(path.steps@.len() > 1);
            }
        }
        if path.success && path.steps.len() > 1 {
            let next = path.steps[1];
            proof {
                assert(spec_edge(*map, path.steps@[0] as int, path.steps@[1] as int));
                lemma_exit_in_bounds(*map, next as int);
            }
            let (nx, ny) = map.idx_to_xy(next);
            proof {
                assert(spec_exit_ok(*map, next as int));
                assert(map.spec_interior(nx as int, ny as int));
                assert(map.idx(nx as int, ny as int) == next);
            }
            map.set_tile_as_unblocked(pos.x, pos.y);
            world.positions[e] = Some(Position { x: nx, y: ny });
            map.set_tile_as_blocked(nx, ny);
            let taken = world.viewsheds[e].take();
            match taken {
                Some(v) => {
                    world.viewsheds[e] = Some(
                        ViewShed { visible_tiles: v.visible_tiles, range: v.range, dirty: true },
                    );
                },
                None => {},
            }
            proof {
                assert(world.viewsheds@[e as int] is Some);
            }
        }
    }

    /// Runs the monster turn. Outside `RunState::MonsterTurn` nothing
    /// changes at all (turn exclusivity). During it, every actor is
    /// processed in handle order by [`MonsterAI::act`]: an actor that
    /// started next to the player must end the pass with a melee intent
    /// against it, an actor that neither stood adjacent nor saw the
    /// player's tile is left untouched, and any movement is a single
    /// traversable step. (A seeing actor's step is forced by `act` against
    /// the map as it stood at its turn; earlier actors' moves re-shape the
    /// blockage it searches.)
    pub fn run(
        world: &mut World,
        map: &mut GridMap,
        player_pos: Position,
        player_entity: Entity,
        run_state: RunState,
    )
        requires
            old(world).wf(),
            old(map).wf(),
            old(map).spec_in_bounds(player_pos.x as int, player_pos.y as int),
            positions_in_bounds(*old(world), *old(map)),
        ensures
            final(world).wf(),
            final(map).wf(),
            run_state != RunState::MonsterTurn ==> *final(world) == *old(world) && *final(map)
                == *old(map),
            final(world).num_entities() == old(world).num_entities(),
            positions_in_bounds(*final(world), *final(map)),
            final(world).alive@ == old(world).alive@,
            final(world).renderables@ == old(world).renderables@,
            final(world).players@ == old(world).players@,
            final(world).left_movers@ == old(world).left_movers@,
            final(world).monsters@ == old(world).monsters@,
            final(world).names@ == old(world).names@,
            final(world).blocks_tile@ == old(world).blocks_tile@,
            final(world).combat_stats@ == old(world).combat_stats@,
            final(world).suffer_damage@ == old(world).suffer_damage@,
            final(world).items@ == old(world).items@,
            final(world).consumables@ == old(world).consumables@,
            final(world).provides_healing@ == old(world).provides_healing@,
            final(world).inflicts_damage@ == old(world).inflicts_damage@,
            final(world).area_effects@ == old(world).area_effects@,
            final(world).confusions@ == old(world).confusions@,
            final(world).ranged@ == old(world).ranged@,
            final(world).backpacks@ == old(world).backpacks@,
            final(world).wants_pickup@ == old(world).wants_pickup@,
            final(world).wants_use@ == old(world).wants_use@,
            final(world).wants_drop@ == old(world).wants_drop@,
            final(map).width == old(map).width,
            final(map).height == old(map).height,
            final(map).tiles@ == old(map).tiles@,
            final(map).rooms@ == old(map).rooms@,
            final(map).revealed_tiles@ == old(map).revealed_tiles@,
            final(map).visible_tiles@ == old(map).visible_tiles@,
            final(map).tile_content@ == old(map).tile_content@,
            forall|e: int|
                0 <= e < old(world).num_entities() && !ai_actor(*old(world), e) ==> final(world).positions@[e] == old(world).positions@[e] && final(world).viewsheds@[e] == old(world).viewsheds@[e] && final(world).wants_melee@[e] == old(world).wants_melee@[e],
            // an actor that started adjacent to the player must attack it
            run_state == RunState::MonsterTurn ==> forall|e: int|
                0 <= e < old(world).num_entities() && #[trigger] ai_actor(*old(world), e) && dist2(
                    old(world).positions@[e]->Some_0,
                    player_pos,
                ) <= 2 ==> final(world).wants_melee@[e] == Some(
                    WantsToMelee { target: player_entity },
                ) && final(world).positions@[e] == old(world).positions@[e],
            // an actor that neither stood adjacent nor saw the player is untouched
            run_state == RunState::MonsterTurn ==> forall|e: int|
                0 <= e < old(world).num_entities() && #[trigger] ai_actor(*old(world), e) && dist2(
                    old(world).positions@[e]->Some_0,
                    player_pos,
                ) > 2 && !old(world).viewsheds@[e]->Some_0.visible_tiles@.contains(player_pos)
                    ==> final(world).positions@[e] == old(world).positions@[e] && final(world).viewsheds@[e] == old(world).viewsheds@[e] && final(world).wants_melee@[e] == old(world).wants_melee@[e],
            forall|e: int|
                0 <= e < old(world).num_entities() ==> ((#[trigger] final(world).wants_melee@[e])
                    == old(world).wants_melee@[e] || (ai_actor(*old(world), e) && final(world).wants_melee@[e] == Some(WantsToMelee { target: player_entity }) && dist2(
                    old(world).positions@[e]->Some_0,
                    player_pos,
                ) <= 2)),
            forall|e: int|
                0 <= e < old(world).num_entities() ==> ((#[trigger] final(world).positions@[e])
                    == old(world).positions@[e] || (ai_actor(*old(world), e) && final(world).positions@[e] is Some && {
                    let p0 = old(world).positions@[e]->Some_0;
                    let p1 = final(world).positions@[e]->Some_0;
                    &&& -1 <= p1.x - p0.x <= 1
                    &&& -1 <= p1.y - p0.y <= 1
                    &&& !(p1.x == p0.x && p1.y == p0.y)
                    &&& final(map).spec_interior(p1.x as int, p1.y as int)
                })),
            forall|e: int|
                0 <= e < old(world).num_entities() ==> ((#[trigger] final(world).viewsheds@[e])
                    == old(world).viewsheds@[e] || (ai_actor(*old(world), e) && final(world).viewsheds@[e] is Some && old(world).viewsheds@[e] is Some && final(world).viewsheds@[e]->Some_0.visible_tiles@ == old(world).viewsheds@[e]->Some_0.visible_tiles@ && final(world).viewsheds@[e]->Some_0.range
                    == old(world).viewsheds@[e]->Some_0.range && final(world).viewsheds@[e]->Some_0.dirty)),
    {
        if !matches!(run_state, RunState::MonsterTurn) {
            return ;
        }
        let n = world.alive.len();
        let mut e: usize = 0;
        while e < n
            invariant
                world.wf(),
                map.wf(),
                n == old(world).num_entities(),
                n == world.num_entities(),
                e <= n,
                map.spec_in_bounds(player_pos.x as int, player_pos.y as int),
                positions_in_bounds(*world, *map),
                world.alive@ == old(world).alive@,
                world.renderables@ == old(world).renderables@,
                world.players@ == old(world).players@,
                world.left_movers@ == old(world).left_movers@,
                world.monsters@ == old(world).monsters@,
                world.names@ == old(world).names@,
                world.blocks_tile@ == old(world).blocks_tile@,
                world.combat_stats@ == old(world).combat_stats@,
                world.suffer_damage@ == old(world).suffer_damage@,
                world.items@ == old(world).items@,
                world.consumables@ == old(world).consumables@,
                world.provides_healing@ == old(world).provides_healing@,
                world.inflicts_damage@ == old(world).inflicts_damage@,
                world.area_effects@ == old(world).area_effects@,
                world.confusions@ == old(world).confusions@,
                world.ranged@ == old(world).ranged@,
                world.backpacks@ == old(world).backpacks@,
                world.wants_pickup@ == old(world).wants_pickup@,
                world.wants_use@ == old(world).wants_use@,
                world.wants_drop@ == old(world).wants_drop@,
                map.width == old(map).width,
                map.height == old(map).height,
                map.tiles@ == old(map).tiles@,
                map.rooms@ == old(map).rooms@,
                map.revealed_tiles@ == old(map).revealed_tiles@,
                map.visible_tiles@ == old(map).visible_tiles@,
                map.tile_content@ == old(map).tile_content@,
                forall|e2: int|
                    0 <= e2 < n && !ai_actor(*old(world), e2) ==> world.positions@[e2] == old(world).positions@[e2] && world.viewsheds@[e2] == old(world).viewsheds@[e2]
                        && world.wants_melee@[e2] == old(world).wants_melee@[e2],
                forall|e2: int|
                    e <= e2 < n ==> world.positions@[e2] == old(world).positions@[e2]
                        && world.viewsheds@[e2] == old(world).viewsheds@[e2]
                        && world.wants_melee@[e2] == old(world).wants_melee@[e2],
                forall|e2: int|
                    0 <= e2 < e && #[trigger] ai_actor(*old(world), e2) && dist2(
                        old(world).positions@[e2]->Some_0,
                        player_pos,
                    ) <= 2 ==> world.wants_melee@[e2] == Some(
                        WantsToMelee { target: player_entity },
                    ) && world.positions@[e2] == old(world).positions@[e2],
                forall|e2: int|
                    0 <= e2 < e && #[trigger] ai_actor(*old(world), e2) && dist2(
                        old(world).positions@[e2]->Some_0,
                        player_pos,
                    ) > 2 && !old(world).viewsheds@[e2]->Some_0.visible_tiles@.contains(player_pos)
                        ==> world.positions@[e2] == old(world).positions@[e2]
                        && world.viewsheds@[e2] == old(world).viewsheds@[e2]
                        && world.wants_melee@[e2] == old(world).wants_melee@[e2],
                forall|e2: int|
                    0 <= e2 < n ==> ((#[trigger] world.wants_melee@[e2]) == old(world).wants_melee@[e2] || (ai_actor(*old(world), e2) && world.wants_melee@[e2]
                        == Some(WantsToMelee { target: player_entity }) && dist2(
                        old(world).positions@[e2]->Some_0,
                        player_pos,
                    ) <= 2)),
                forall|e2: int|
                    0 <= e2 < n ==> ((#[trigger] world.positions@[e2]) == old(world).positions@[e2] || (ai_actor(*old(world), e2) && world.positions@[e2] is Some
                        && {
                        let p0 = old(world).positions@[e2]->Some_0;
                        let p1 = world.positions@[e2]->Some_0;
                        &&& -1 <= p1.x - p0.x <= 1
                        &&& -1 <= p1.y - p0.y <= 1
                        &&& !(p1.x == p0.x && p1.y == p0.y)
                        &&& map.spec_interior(p1.x as int, p1.y as int)
                    })),
                forall|e2: int|
                    0 <= e2 < n ==> ((#[trigger] world.viewsheds@[e2]) == old(world).viewsheds@[e2] || (ai_actor(*old(world), e2) && world.viewsheds@[e2] is Some
                        && old(world).viewsheds@[e2] is Some
                        && world.viewsheds@[e2]->Some_0.visible_tiles@ == old(world).viewsheds@[e2]->Some_0.visible_tiles@ && world.viewsheds@[e2]->Some_0.range
                        == old(world).viewsheds@[e2]->Some_0.range
                        && world.viewsheds@[e2]->Some_0.dirty)),
            decreases n - e,
        {
            let is_actor = world.monsters[e].is_some() && world.viewsheds[e].is_some()
                && world.positions[e].is_some();
            if is_actor {
                let ghost w_prev = *world;
                let ghost m_prev = *map;
                MonsterAI::act(world, map, e, player_pos, player_entity);
                proof {
                    assert forall|e2: int|
                        0 <= e2 < n && e2 != e implies world.positions@[e2]
                        == w_prev.positions@[e2] && world.viewsheds@[e2] == w_prev.viewsheds@[e2]
                        && world.wants_melee@[e2] == w_prev.wants_melee@[e2] by {}
                    assert(w_prev.positions@[e as int] == old(world).positions@[e as int]);
                    assert(w_prev.viewsheds@[e as int] == old(world).viewsheds@[e as int]);
                    assert(w_prev.wants_melee@[e as int] == old(world).wants_melee@[e as int]);
                    assert(ai_actor(w_prev, e as int) && ai_actor(*old(world), e as int));
                    let pos = w_prev.positions@[e as int]->Some_0;
                    assert(old(world).positions@[e as int]->Some_0 == pos);
                    if dist2(pos, player_pos) <= 2 {
                        assert(world.wants_melee@[e as int] == Some(
                            WantsToMelee { target: player_entity },
                        ));
                        assert(world.positions@[e as int] == old(world).positions@[e as int]);
                        assert(world.viewsheds@[e as int] == old(world).viewsheds@[e as int]);
                    } else if !w_prev.viewsheds@[e as int]->Some_0.visible_tiles@.contains(
                        player_pos,
                    ) {
                        assert(world.positions@[e as int] == old(world).positions@[e as int]);
                        assert(world.viewsheds@[e as int] == old(world).viewsheds@[e as int]);
                        assert(world.wants_melee@[e as int] == old(world).wants_melee@[e as int]);
                    }
                    assert forall|e2: int|
                        0 <= e2 < n implies ((#[trigger] world.wants_melee@[e2]) == old(
                        world,
                    ).wants_melee@[e2] || (ai_actor(*old(world), e2) && world.wants_melee@[e2]
                        == Some(WantsToMelee { target: player_entity }) && dist2(
                        old(world).positions@[e2]->Some_0,
                        player_pos,
                    ) <= 2)) by {
                        if e2 != e {
                            assert(world.wants_melee@[e2] == w_prev.wants_melee@[e2]);
                        } else if dist2(pos, player_pos) > 2 {
                            assert(world.wants_melee@[e as int]
                                == w_prev.wants_melee@[e as int]);
                        }
                    }
                    let p1v = world.positions@[e as int];
                    if p1v != w_prev.positions@[e as int] {
                        let start = m_prev.idx(pos.x as int, pos.y as int);
                        let p1 = p1v->Some_0;
                        let next = m_prev.idx(p1.x as int, p1.y as int);
                        assert(spec_edge(m_prev, start, next));
                        lemma_exit_in_bounds(m_prev, next);
                        m_prev.lemma_index_round_trip(pos.x as int, pos.y as int);
                        assert(map.spec_in_bounds(p1.x as int, p1.y as int));
                        m_prev.lemma_index_round_trip(p1.x as int, p1.y as int);
                        assert(crate::pathfinding::col_of(m_prev, next) == p1.x as int);
                        assert(crate::pathfinding::row_of(m_prev, next) == p1.y as int);
                        assert(-1 <= p1.x - pos.x <= 1 && -1 <= p1.y - pos.y <= 1);
                        assert(!(p1.x == pos.x && p1.y == pos.y));
                        assert(map.spec_interior(p1.x as int, p1.y as int));
                    }
                }
            }
            e += 1;
        }
    }
}

} // verus!
