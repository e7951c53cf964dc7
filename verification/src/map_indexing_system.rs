//! The per-turn map re-index: rebuilds the blocked flags from terrain plus
//! blocking entities, and rebuilds every tile's occupant list, so that AI
//! and movement resolution consult one consistent snapshot.

use vstd::prelude::*;
use crate::grid_map::GridMap;
use crate::grid_map::TileType;
use crate::components::Position;
use crate::world::Entity;
use crate::world::World;

verus! {

/// Entity `e` is positioned on tile index `tile` of `m`.
pub open spec fn positioned_at(w: World, m: GridMap, e: int, tile: int) -> bool {
    &&& w.positions@[e] is Some
    &&& m.idx(w.positions@[e]->Some_0.x as int, w.positions@[e]->Some_0.y as int) == tile
}

/// Entity `e` is positioned on tile `tile` and blocks movement.
pub open spec fn blocker_at(w: World, m: GridMap, e: int, tile: int) -> bool {
    positioned_at(w, m, e, tile) && w.blocks_tile@[e] is Some
}

/// The occupant list of `tile` drawn from entities `0..k`, in handle order.
pub open spec fn occupants_up_to(w: World, m: GridMap, tile: int, k: int) -> Seq<Entity>
    decreases k,
{
    if k <= 0 {
        Seq::empty()
    } else if positioned_at(w, m, k - 1, tile) {
        occupants_up_to(w, m, tile, k - 1).push((k - 1) as Entity)
    } else {
        occupants_up_to(w, m, tile, k - 1)
    }
}

/// Every positioned entity of `w` references an in-bounds tile of `m`.
pub open spec fn positions_in_bounds(w: World, m: GridMap) -> bool {
    forall|e: int|
        0 <= e < w.num_entities() && (#[trigger] w.positions@[e]) is Some ==> m.spec_in_bounds(
            w.positions@[e]->Some_0.x as int,
            w.positions@[e]->Some_0.y as int,
        )
}

/// The map re-index phase of the pipeline.
pub struct MapIndexingSystem {}

impl MapIndexingSystem {
    /// Rebuilds the map's blocked flags and occupant index from the current
    /// entity positions: afterwards a tile is blocked exactly when it is a wall
    /// or carries a blocking entity, and each tile's occupant list holds
    /// exactly the entities positioned on it, in handle order.
    pub fn run(world: &World, map: &mut GridMap)
        requires
            world.wf(),
            old(map).wf(),
            positions_in_bounds(*world, *old(map)),
        ensures
            final(map).wf(),
            final(map).width == old(map).width,
            final(map).height == old(map).height,
            final(map).tiles@ == old(map).tiles@,
            final(map).rooms@ == old(map).rooms@,
            final(map).revealed_tiles@ == old(map).revealed_tiles@,
            final(map).visible_tiles@ == old(map).visible_tiles@,
            forall|i: int|
                0 <= i < final(map).area() ==> final(map).blocked_tiles@[i] == (old(map).tiles@[i]
                    == TileType::Wall || exists|e: int|
                    0 <= e < world.num_entities() && blocker_at(*world, *old(map), e, i)),
            forall|i: int|
                0 <= i < final(map).area() ==> (#[trigger] final(map).tile_content@[i])@
                    == occupants_up_to(*world, *old(map), i, world.num_entities()),
    {
        map.update_blocked_tiles();
        map.clear_content_index();
        let n = world.alive.len();
        let mut e: usize = 0;
        while e < n
            invariant
                world.wf(),
                map.wf(),
                n == world.num_entities(),
                e <= n,
                positions_in_bounds(*world, *map),
                map.width == old(map).width,
                map.height == old(map).height,
                map.tiles@ == old(map).tiles@,
                map.rooms@ == old(map).rooms@,
                map.revealed_tiles@ == old(map).revealed_tiles@,
                map.visible_tiles@ == old(map).visible_tiles@,
                forall|i: int|
                    0 <= i < map.area() ==> map.blocked_tiles@[i] == (old(map).tiles@[i]
                        == TileType::Wall || exists|e2: int|
                        0 <= e2 < e && blocker_at(*world, *old(map), e2, i)),
                forall|i: int|
                    0 <= i < map.area() ==> (#[trigger] map.tile_content@[i])@ == occupants_up_to(
                        *world,
                        *old(map),
                        i,
                        e as int,
                    ),
            decreases n - e,
        {
            let ghost m_prev = *map;
            let has_pos = match &world.positions[e] {
                Some(_) => true,
                None => false,
            };
            if has_pos {
                let pos = match &world.positions[e] {
                    Some(p) => *p,
                    None => Position { x: 0, y: 0 },
                };
                let ghost tile = map.idx(pos.x as int, pos.y as int);
                proof {
                    map.lemma_idx_bounds(pos.x as int, pos.y as int);
                    map.lemma_idx_injective(pos.x as int, pos.y as int);
                }
                let blocks = match &world.blocks_tile[e] {
                    Some(_) => true,
                    None => false,
                };
                if blocks {
                    map.set_tile_as_blocked(pos.x, pos.y);
                }
                map.add_tile_content(pos.x, pos.y, e);
                proof {
                    assert(map.idx(pos.x as int, pos.y as int) == m_prev.idx(
                        pos.x as int,
                        pos.y as int,
                    ));
                    assert forall|i: int| 0 <= i < map.area() implies (#[trigger] map.tile_content@[i])@
                        == occupants_up_to(*world, *old(map), i, e as int + 1) by {
                        if i == tile {
                            assert(positioned_at(*world, *old(map), e as int, i));
                            assert(map.tile_content@[i]@ == m_prev.tile_content@[i]@.push(e));
                        } else {
                            assert(!positioned_at(*world, *old(map), e as int, i));
                            assert(map.tile_content@[i] == m_prev.tile_content@[i]);
                        }
                    }
                    assert forall|i: int|
                        0 <= i < map.area() implies map.blocked_tiles@[i] == (old(map).tiles@[i]
                        == TileType::Wall || exists|e2: int|
                        0 <= e2 < e as int + 1 && blocker_at(*world, *old(map), e2, i)) by {
                        if i == tile && world.blocks_tile@[e as int] is Some {
                            assert(blocker_at(*world, *old(map), e as int, i));
                        } else {
                            if map.blocked_tiles@[i] {
                                assert(m_prev.blocked_tiles@[i]);
                            }
                            assert(!blocker_at(*world, *old(map), e as int, i));
                        }
                    }
                }
            } else {
                proof {
                    assert forall|i: int| 0 <= i < map.area() implies (#[trigger] map.tile_content@[i])@
                        == occupants_up_to(*world, *old(map), i, e as int + 1) by {
                        assert(!positioned_at(*world, *old(map), e as int, i));
                    }
                    assert forall|i: int|
                        0 <= i < map.area() implies map.blocked_tiles@[i] == (old(map).tiles@[i]
                        == TileType::Wall || exists|e2: int|
                        0 <= e2 < e as int + 1 && blocker_at(*world, *old(map), e2, i)) by {
                        assert(!blocker_at(*world, *old(map), e as int, i));
                    }
                }
            }
            e += 1;
        }
    }
}

} // verus!
