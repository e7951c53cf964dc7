//! Player movement: one step in one of the eight directions, clamped to
//! the map. Walking into a tile whose occupant can fight becomes a melee
//! intent instead of a move; walking into a blocked tile does nothing.

use vstd::prelude::*;
use crate::components::Position;
use crate::components::ViewShed;
use crate::components::WantsToMelee;
use crate::grid_map::GridMap;
use crate::map_indexing_system::positions_in_bounds;
use crate::world::Entity;
use crate::world::World;

verus! {

/// A coordinate clamped into `[0, limit - 1]`.
pub open spec fn clamp_coord(v: int, limit: int) -> int {
    if v < 0 {
        0
    } else if v > limit - 1 {
        limit - 1
    } else {
        v
    }
}

/// The first occupant in `occ` (from index `i` on) that carries combat
/// statistics: the target a move into the tile would attack.
pub open spec fn first_combatant(w: World, occ: Seq<Entity>, i: int) -> Option<Entity>
    decreases occ.len() - i,
{
    if i < 0 || i >= occ.len() {
        None
    } else if occ[i] < w.num_entities() && w.combat_stats@[occ[i] as int] is Some {
        Some(occ[i])
    } else {
        first_combatant(w, occ, i + 1)
    }
}

/// Attempts to move the player one step. If the destination tile holds a
/// combatant, the move becomes a melee intent against the first such
/// occupant; otherwise, when the destination is unblocked, the player
/// moves there and its view is marked stale; otherwise nothing changes.
pub fn try_move_player(
    delta_x: i32,
    delta_y: i32,
    world: &mut World,
    map: &GridMap,
    player_entity: Entity,
)
    requires
        old(world).wf(),
        map.wf(),
        positions_in_bounds(*old(world), *map),
        (player_entity as int) < old(world).num_entities(),
        old(world).positions@[player_entity as int] is Some,
        -1 <= delta_x <= 1,
        -1 <= delta_y <= 1,
    ensures
        final(world).wf(),
        final(world).num_entities() == old(world).num_entities(),
        positions_in_bounds(*final(world), *map),
        final(world).alive@ == old(world).alive@,
        final(world).renderables@ == old(world).renderables@,
        final(world).players@ == old(world).players@,
        final(world).left_movers@ == old(world).left_movers@,
        final(world).monsters@ == old(world).monsters@,
        final(world).names@ == old(world).names@,
        final(world).blocks_tile@ == old(world).blocks_tile@,
        final(world).combat_stats@ == old(world).combat_stats@,
        final(world).suffer_damage@ == old(world).suffer_damage@,
        final(world).items@ == old(world).items@,
        final(world).consumables@ == old(world).consumables@,
        final(world).provides_healing@ == old(world).provides_healing@,
        final(world).inflicts_damage@ == old(world).inflicts_damage@,
        final(world).area_effects@ == old(world).area_effects@,
        final(world).confusions@ == old(world).confusions@,
        final(world).ranged@ == old(world).ranged@,
        final(world).backpacks@ == old(world).backpacks@,
        final(world).wants_pickup@ == old(world).wants_pickup@,
        final(world).wants_use@ == old(world).wants_use@,
        final(world).wants_drop@ == old(world).wants_drop@,
        forall|e: int|
            0 <= e < old(world).num_entities() && e != player_entity ==> (
            #[trigger] final(world).positions@[e]) == old(world).positions@[e] && final(world).viewsheds@[e] == old(world).viewsheds@[e] && final(world).wants_melee@[e] == old(world).wants_melee@[e],
        ({
            let p0 = old(world).positions@[player_entity as int]->Some_0;
            let tx = clamp_coord(p0.x + delta_x, map.width as int);
            let ty = clamp_coord(p0.y + delta_y, map.height as int);
            let tile = map.idx(tx, ty);
            match first_combatant(*old(world), map.tile_content@[tile]@, 0) {
                Some(t) => {
                    &&& final(world).wants_melee@[player_entity as int] == Some(
                        WantsToMelee { target: t },
                    )
                    &&& final(world).positions@[player_entity as int] == old(world).positions@[player_entity as int]
                    &&& final(world).viewsheds@[player_entity as int] == old(world).viewsheds@[player_entity as int]
                },
                None => {
                    &&& final(world).wants_melee@[player_entity as int] == old(world).wants_melee@[player_entity as int]
                    &&& if !map.blocked_tiles@[tile] {
                        &&& final(world).positions@[player_entity as int] == Some(
                            Position { x: tx as i32, y: ty as i32 },
                        )
                        &&& (old(world).viewsheds@[player_entity as int] is Some ==> final(world).viewsheds@[player_entity as int] is Some && final(world).viewsheds@[player_entity as int]->Some_0.visible_tiles@ == old(world).viewsheds@[player_entity as int]->Some_0.visible_tiles@ && final(world).viewsheds@[player_entity as int]->Some_0.range == old(world).viewsheds@[player_entity as int]->Some_0.range && final(world).viewsheds@[player_entity as int]->Some_0.dirty)
                        &&& (old(world).viewsheds@[player_entity as int] is None ==> final(world).viewsheds@[player_entity as int] is None)
                    } else {
                        &&& final(world).positions@[player_entity as int] == old(world).positions@[player_entity as int]
                        &&& final(world).viewsheds@[player_entity as int] == old(world).viewsheds@[player_entity as int]
                    }
                },
            }
        }),
{
    proof {
        assert(map.width <= 0x4000_0000 && map.height <= 0x4000_0000) by (nonlinear_arith)
            requires
                3 <= map.width,
                3 <= map.height,
                map.width * map.height <= i32::MAX,
        ;
    }
    let p0: Position = match &world.positions[player_entity] {
        Some(p) => *p,
        None => Position { x: 0, y: 0 },
    };
    proof {
        assert(map.spec_in_bounds(p0.x as int, p0.y as int));
    }
    let w = map.get_dimensions().0;
    let h = map.get_dimensions().1;
    let x0: i32 = p0.x + delta_x;
    let tx: i32 = if x0 < 0 {
        0
    } else if x0 > w - 1 {
        w - 1
    } else {
        x0
    };
    let y0: i32 = p0.y + delta_y;
    let ty: i32 = if y0 < 0 {
        0
    } else if y0 > h - 1 {
        h - 1
    } else {
        y0
    };
    let occupants = map.get_tile_content(tx, ty);
    let n = world.alive.len();
    let ghost occ = occupants@;
    let mut i: usize = 0;
    let mut target: usize = 0;
    let mut found = false;
    while i < occupants.len() && !found
        invariant
            world.wf(),
            n == world.num_entities(),
            occ == occupants@,
            i <= occ.len(),
            found ==> first_combatant(*world, occ, 0) == Some(target),
            !found ==> first_combatant(*world, occ, 0) == first_combatant(*world, occ, i as int),
        decreases occ.len() - i, (if found {
            0int
        } else {
            1int
        }),
    {
        let cand = occupants[i];
        let has_stats = cand < n && world.combat_stats[cand].is_some();
        if has_stats {
            target = cand;
            found = true;
            proof {
                assert(first_combatant(*world, occ, i as int) == Some(cand));
            }
        } else {
            i += 1;
        }
    }
    if found {
        world.wants_melee[player_entity] = Some(WantsToMelee { target });
        return ;
    }
    proof {
        assert(first_combatant(*world, occ, 0) is None);
    }
    if !map.tile_is_blocked(tx, ty) {
        world.positions[player_entity] = Some(Position { x: tx, y: ty });
        let taken = world.viewsheds[player_entity].take();
        match taken {
            Some(v) => {
                world.viewsheds[player_entity] = Some(
                    ViewShed { visible_tiles: v.visible_tiles, range: v.range, dirty: true },
                );
            },
            None => {},
        }
    }
}

} // verus!
