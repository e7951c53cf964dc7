//! The visibility engine: recomputes every viewer's field-of-view cache,
//! clipped to the map interior, and folds the designated player's view
//! into the map's fog-of-war state (`visible` rewritten, `revealed` only
//! ever extended).

use vstd::prelude::*;
use crate::components::Position;
use crate::components::ViewShed;
use crate::fov::clip_to_interior;
use crate::fov::field_of_view;
use crate::fov::fov_visible;
use crate::fov::lemma_fov_same;
use crate::grid_map::GridMap;
use crate::map_indexing_system::positions_in_bounds;
use crate::world::Entity;
use crate::world::World;

verus! {

/// Tile `(tx, ty)` is visible from `(px, py)` at `range` and lies strictly
/// inside the boundary ring: exactly what a recomputed view stores.
pub open spec fn clipped_visible(
    m: GridMap,
    px: int,
    py: int,
    range: int,
    tx: int,
    ty: int,
) -> bool {
    fov_visible(m, px, py, range, tx, ty) && m.spec_interior(tx, ty)
}

/// Every view range in `w` is non-negative and modest enough for the
/// field-of-view arithmetic.
pub open spec fn viewshed_ranges_ok(w: World) -> bool {
    forall|e: int|
        0 <= e < w.num_entities() && (#[trigger] w.viewsheds@[e]) is Some ==> 0
            <= w.viewsheds@[e]->Some_0.range <= 0x10_0000
}

/// The player tag marks exactly the designated player entity.
pub open spec fn player_tag_is(w: World, p: int) -> bool {
    forall|e: int|
        0 <= e < w.num_entities() ==> ((#[trigger] w.players@[e]) is Some <==> e == p)
}

/// Entity `e` carries both a viewshed and a position: its view gets
/// recomputed.
pub open spec fn viewer(w: World, e: int) -> bool {
    w.viewsheds@[e] is Some && w.positions@[e] is Some
}

/// The viewshed of `e` in `w_new` is the view from its position in
/// `w_old`, freshly computed against the terrain of `m` and marked clean.
pub open spec fn recomputed(w_old: World, w_new: World, m: GridMap, e: int) -> bool {
    let pos = w_old.positions@[e]->Some_0;
    let range = w_old.viewsheds@[e]->Some_0.range;
    &&& w_new.viewsheds@[e] is Some
    &&& w_new.viewsheds@[e]->Some_0.range == range
    &&& w_new.viewsheds@[e]->Some_0.dirty == false
    &&& forall|p: Position|
        #[trigger] w_new.viewsheds@[e]->Some_0.visible_tiles@.contains(p) <==> clipped_visible(
            m,
            pos.x as int,
            pos.y as int,
            range as int,
            p.x as int,
            p.y as int,
        )
    &&& forall|k: int, l: int|
        #![trigger w_new.viewsheds@[e]->Some_0.visible_tiles@[k], w_new.viewsheds@[e]->Some_0.visible_tiles@[l]]
        0 <= k < l < w_new.viewsheds@[e]->Some_0.visible_tiles@.len()
            ==> w_new.viewsheds@[e]->Some_0.visible_tiles@[k]
            != w_new.viewsheds@[e]->Some_0.visible_tiles@[l]
}

/// Border exclusion: a recomputed view never contains a tile on the outer
/// boundary ring — no held tile has a zero coordinate or lies on the far
/// edge of the map.
pub proof fn lemma_view_excludes_border(w_old: World, w_new: World, m: GridMap, e: int, p: Position)
    requires
        recomputed(w_old, w_new, m, e),
        w_new.viewsheds@[e]->Some_0.visible_tiles@.contains(p),
    ensures
        0 < p.x < m.width - 1,
        0 < p.y < m.height - 1,
{
}

/// The visibility phase of the pipeline.
pub struct VisibilitySystem {}

impl VisibilitySystem {
    /// Recomputes the viewsheds of every viewer and, for the designated
    /// player, rewrites the map's transient `visible` set and extends its
    /// permanent `revealed` set; `revealed` never shrinks.
    pub fn run(world: &mut World, map: &mut GridMap, player_entity: Entity)
        requires
            old(world).wf(),
            old(map).wf(),
            (player_entity as int) < old(world).num_entities(),
            positions_in_bounds(*old(world), *old(map)),
            viewshed_ranges_ok(*old(world)),
            player_tag_is(*old(world), player_entity as int),
        ensures
            final(world).wf(),
            final(map).wf(),
            final(world).num_entities() == old(world).num_entities(),
            final(world).alive@ == old(world).alive@,
            final(world).positions@ == old(world).positions@,
            final(world).renderables@ == old(world).renderables@,
            final(world).players@ == old(world).players@,
            final(world).left_movers@ == old(world).left_movers@,
            final(world).monsters@ == old(world).monsters@,
            final(world).names@ == old(world).names@,
            final(world).blocks_tile@ == old(world).blocks_tile@,
            final(world).combat_stats@ == old(world).combat_stats@,
            final(world).wants_melee@ == old(world).wants_melee@,
            final(world).suffer_damage@ == old(world).suffer_damage@,
            final(world).items@ == old(world).items@,
            final(world).consumables@ == old(world).consumables@,
            final(world).provides_healing@ == old(world).provides_healing@,
            final(world).inflicts_damage@ == old(world).inflicts_damage@,
            final(world).area_effects@ == old(world).area_effects@,
            final(world).confusions@ == old(world).confusions@,
            final(world).ranged@ == old(world).ranged@,
            final(world).backpacks@ == old(world).backpacks@,
            final(world).wants_pickup@ == old(world).wants_pickup@,
            final(world).wants_use@ == old(world).wants_use@,
            final(world).wants_drop@ == old(world).wants_drop@,
            forall|e: int|
                0 <= e < old(world).num_entities() && viewer(*old(world), e) ==> recomputed(
                    *old(world),
                    *final(world),
                    *old(map),
                    e,
                ),
            forall|e: int|
                #![trigger old(world).viewsheds@[e]]
                0 <= e < old(world).num_entities() && !viewer(*old(world), e) ==> final(world).viewsheds@[e] == old(world).viewsheds@[e],
            final(map).width == old(map).width,
            final(map).height == old(map).height,
            final(map).tiles@ == old(map).tiles@,
            final(map).rooms@ == old(map).rooms@,
            final(map).blocked_tiles@ == old(map).blocked_tiles@,
            final(map).tile_content@ == old(map).tile_content@,
            viewer(*old(world), player_entity as int) ==> forall|x: int, y: int|
                #![trigger old(map).idx(x, y)]
                old(map).spec_in_bounds(x, y) ==> (final(map).visible_tiles@[old(map).idx(x, y)]
                    <==> clipped_visible(
                    *old(map),
                    old(world).positions@[player_entity as int]->Some_0.x as int,
                    old(world).positions@[player_entity as int]->Some_0.y as int,
                    old(world).viewsheds@[player_entity as int]->Some_0.range as int,
                    x,
                    y,
                )) && (final(map).revealed_tiles@[old(map).idx(x, y)] <==> old(map).revealed_tiles@[old(map).idx(x, y)] || clipped_visible(
                    *old(map),
                    old(world).positions@[player_entity as int]->Some_0.x as int,
                    old(world).positions@[player_entity as int]->Some_0.y as int,
                    old(world).viewsheds@[player_entity as int]->Some_0.range as int,
                    x,
                    y,
                )),
            !viewer(*old(world), player_entity as int) ==> final(map).visible_tiles@ == old(map).visible_tiles@ && final(map).revealed_tiles@ == old(map).revealed_tiles@,
            forall|i: int|
                0 <= i < old(map).area() && old(map).revealed_tiles@[i] ==> final(map).revealed_tiles@[i],
    {
        let n = world.alive.len();
        let mut e: usize = 0;
        while e < n
            invariant
                world.wf(),
                map.wf(),
                n == old(world).num_entities(),
                n == world.num_entities(),
                e <= n,
                (player_entity as int) < n,
                positions_in_bounds(*old(world), *old(map)),
                viewshed_ranges_ok(*old(world)),
                player_tag_is(*old(world), player_entity as int),
                world.alive@ == old(world).alive@,
                world.positions@ == old(world).positions@,
                world.renderables@ == old(world).renderables@,
                world.players@ == old(world).players@,
                world.left_movers@ == old(world).left_movers@,
                world.monsters@ == old(world).monsters@,
                world.names@ == old(world).names@,
                world.blocks_tile@ == old(world).blocks_tile@,
                world.combat_stats@ == old(world).combat_stats@,
                world.wants_melee@ == old(world).wants_melee@,
                world.suffer_damage@ == old(world).suffer_damage@,
                world.items@ == old(world).items@,
                world.consumables@ == old(world).consumables@,
                world.provides_healing@ == old(world).provides_healing@,
                world.inflicts_damage@ == old(world).inflicts_damage@,
                world.area_effects@ == old(world).area_effects@,
                world.confusions@ == old(world).confusions@,
                world.ranged@ == old(world).ranged@,
                world.backpacks@ == old(world).backpacks@,
                world.wants_pickup@ == old(world).wants_pickup@,
                world.wants_use@ == old(world).wants_use@,
                world.wants_drop@ == old(world).wants_drop@,
                forall|e2: int|
                    0 <= e2 < e && viewer(*old(world), e2) ==> recomputed(
                        *old(world),
                        *world,
                        *old(map),
                        e2,
                    ),
                forall|e2: int|
                    #![trigger old(world).viewsheds@[e2]]
                    0 <= e2 < n && (e2 >= e || !viewer(*old(world), e2)) ==> world.viewsheds@[e2]
                        == old(world).viewsheds@[e2],
                map.width == old(map).width,
                map.height == old(map).height,
                map.tiles@ == old(map).tiles@,
                map.rooms@ == old(map).rooms@,
                map.blocked_tiles@ == old(map).blocked_tiles@,
                map.tile_content@ == old(map).tile_content@,
                ((player_entity as int) < e && viewer(*old(world), player_entity as int))
                    ==> forall|x: int, y: int|
                    #![trigger old(map).idx(x, y)]
                    old(map).spec_in_bounds(x, y) ==> (map.visible_tiles@[old(map).idx(x, y)]
                        <==> clipped_visible(
                        *old(map),
                        old(world).positions@[player_entity as int]->Some_0.x as int,
                        old(world).positions@[player_entity as int]->Some_0.y as int,
                        old(world).viewsheds@[player_entity as int]->Some_0.range as int,
                        x,
                        y,
                    )) && (map.revealed_tiles@[old(map).idx(x, y)] <==> old(map).revealed_tiles@[old(map).idx(x, y)] || clipped_visible(
                        *old(map),
                        old(world).positions@[player_entity as int]->Some_0.x as int,
                        old(world).positions@[player_entity as int]->Some_0.y as int,
                        old(world).viewsheds@[player_entity as int]->Some_0.range as int,
                        x,
                        y,
                    )),
                !((player_entity as int) < e && viewer(*old(world), player_entity as int))
                    ==> map.visible_tiles@ == old(map).visible_tiles@ && map.revealed_tiles@ == old(map).revealed_tiles@,
            decreases n - e,
        {
            let is_viewer = world.viewsheds[e].is_some() && world.positions[e].is_some();
            if is_viewer {
                proof {
                    assert(old(world).viewsheds@[e as int] is Some);
                    assert(old(world).positions@[e as int] is Some);
                }
                let vrange: i32 = match &world.viewsheds[e] {
                    Some(v) => v.range,
                    None => 0,
                };
                let px: i32 = match &world.positions[e] {
                    Some(p) => p.x,
                    None => 0,
                };
                let py: i32 = match &world.positions[e] {
                    Some(p) => p.y,
                    None => 0,
                };
                let ghost mc = *map;
                let raw = field_of_view(map, px, py, vrange);
                let clipped = clip_to_interior(map, &raw);
                proof {
                    assert forall|p: Position| #[trigger]
                        clipped@.contains(p) <==> clipped_visible(
                        *old(map),
                        px as int,
                        py as int,
                        vrange as int,
                        p.x as int,
                        p.y as int,
                    ) by {
                        lemma_fov_same(
                            mc,
                            *old(map),
                            px as int,
                            py as int,
                            vrange as int,
                            p.x as int,
                            p.y as int,
                        );
                        if clipped@.contains(p) {
                            assert(raw@.contains(p));
                            let k = choose|k: int| 0 <= k < raw@.len() && raw@[k] == p;
                            assert(fov_visible(
                                mc,
                                px as int,
                                py as int,
                                vrange as int,
                                raw@[k].x as int,
                                raw@[k].y as int,
                            ));
                        } else {
                            if clipped_visible(
                                *old(map),
                                px as int,
                                py as int,
                                vrange as int,
                                p.x as int,
                                p.y as int,
                            ) {
                                assert(fov_visible(
                                    mc,
                                    px as int,
                                    py as int,
                                    vrange as int,
                                    p.x as int,
                                    p.y as int,
                                ));
                                assert(raw@.contains(p));
                            }
                        }
                    }
                }
                let is_player = match &world.players[e] {
                    Some(_) => true,
                    None => false,
                };
                if is_player {
                    map.clear_visible_tiles();
                    proof {
                        assert forall|j: int|
                            0 <= j < clipped@.len() implies old(map).spec_interior(
                            (#[trigger] clipped@[j]).x as int,
                            clipped@[j].y as int,
                        ) by {
                            assert(clipped@.contains(clipped@[j]));
                        }
                    }
                    let mut k: usize = 0;
                    while k < clipped.len()
                        invariant
                            map.wf(),
                            k <= clipped@.len(),
                            map.width == old(map).width,
                            map.height == old(map).height,
                            map.tiles@ == old(map).tiles@,
                            map.rooms@ == old(map).rooms@,
                            map.blocked_tiles@ == old(map).blocked_tiles@,
                            map.tile_content@ == old(map).tile_content@,
                            forall|j: int|
                                0 <= j < clipped@.len() ==> old(map).spec_interior(
                                    (#[trigger] clipped@[j]).x as int,
                                    clipped@[j].y as int,
                                ),
                            forall|i: int|
                                0 <= i < map.area() ==> (#[trigger] map.visible_tiles@[i] <==> exists|
                                    j: int,
                                |
                                    0 <= j < k && old(map).idx(
                                        (#[trigger] clipped@[j]).x as int,
                                        clipped@[j].y as int,
                                    ) == i),
                            forall|i: int|
                                0 <= i < map.area() ==> (#[trigger] map.revealed_tiles@[i] <==> old(map).revealed_tiles@[i] || exists|j: int|
                                    0 <= j < k && old(map).idx(
                                        (#[trigger] clipped@[j]).x as int,
                                        clipped@[j].y as int,
                                    ) == i),
                        decreases clipped@.len() - k,
                    {
                        let ghost m_prev = *map;
                        let p = clipped[k];
                        proof {
                            assert(clipped@.contains(clipped@[k as int]));
                            map.lemma_idx_bounds(p.x as int, p.y as int);
                        }
                        map.reveal_tile(p.x, p.y);
                        map.mark_tile_as_visible(p.x, p.y);
                        proof {
                            let tile = old(map).idx(p.x as int, p.y as int);
                            assert(map.idx(p.x as int, p.y as int) == tile);
                            assert forall|i: int|
                                0 <= i < map.area() implies (#[trigger] map.visible_tiles@[i] <==> exists|
                                j: int,
                            |
                                0 <= j < k + 1 && old(map).idx(
                                    (#[trigger] clipped@[j]).x as int,
                                    clipped@[j].y as int,
                                ) == i) by {
                                if i == tile {
                                    assert(old(map).idx(
                                        clipped@[k as int].x as int,
                                        clipped@[k as int].y as int,
                                    ) == i);
                                } else {
                                    assert(map.visible_tiles@[i] == m_prev.visible_tiles@[i]);
                                }
                            }
                            assert forall|i: int|
                                0 <= i < map.area() implies (#[trigger] map.revealed_tiles@[i] <==> old(map).revealed_tiles@[i] || exists|j: int|
                                0 <= j < k + 1 && old(map).idx(
                                    (#[trigger] clipped@[j]).x as int,
                                    clipped@[j].y as int,
                                ) == i) by {
                                if i == tile {
                                    assert(old(map).idx(
                                        clipped@[k as int].x as int,
                                        clipped@[k as int].y as int,
                                    ) == i);
                                } else {
                                    assert(map.revealed_tiles@[i] == m_prev.revealed_tiles@[i]);
                                }
                            }
                        }
                        k += 1;
                    }
                    proof {
                        assert forall|x: int, y: int|
                            #![trigger old(map).idx(x, y)]
                            old(map).spec_in_bounds(x, y) implies (map.visible_tiles@[old(map).idx(
                            x,
                            y,
                        )] <==> clipped_visible(
                            *old(map),
                            px as int,
                            py as int,
                            vrange as int,
                            x,
                            y,
                        )) && (map.revealed_tiles@[old(map).idx(x, y)] <==> old(map).revealed_tiles@[old(map).idx(x, y)] || clipped_visible(
                            *old(map),
                            px as int,
                            py as int,
                            vrange as int,
                            x,
                            y,
                        )) by {
                            old(map).lemma_idx_bounds(x, y);
                            old(map).lemma_idx_injective(x, y);
                            let i = old(map).idx(x, y);
                            if exists|j: int|
                                0 <= j < clipped@.len() && old(map).idx(
                                    (#[trigger] clipped@[j]).x as int,
                                    clipped@[j].y as int,
                                ) == i {
                                let j = choose|j: int|
                                    0 <= j < clipped@.len() && old(map).idx(
                                        (#[trigger] clipped@[j]).x as int,
                                        clipped@[j].y as int,
                                    ) == i;
                                assert(clipped@[j].x == x && clipped@[j].y == y);
                                assert(clipped@.contains(clipped@[j]));
                            }
                            if clipped_visible(*old(map), px as int, py as int, vrange as int, x, y) {
                                let xp: i32 = x as i32;
                                let yp: i32 = y as i32;
                                assert(clipped@.contains(Position { x: xp, y: yp }));
                                let j = choose|j: int|
                                    0 <= j < clipped@.len() && clipped@[j] == (Position {
                                        x: xp,
                                        y: yp,
                                    });
                                assert(old(map).idx(clipped@[j].x as int, clipped@[j].y as int) == i);
                            }
                        }
                    }
                }
                world.viewsheds[e] = Some(ViewShed { visible_tiles: clipped, range: vrange, dirty: false });
            }
            e += 1;
        }
        proof {
            assert forall|i: int|
                0 <= i < old(map).area() && old(map).revealed_tiles@[i] implies map
                .revealed_tiles@[i] by {
                old(map).lemma_index_decompose(i);
            }
        }
    }
}

} // verus!
