//! The grid map: tile terrain, room list, fog-of-war bookkeeping
//! (`revealed`/`visible`), pathing blockage, and the per-tile occupant index.

use vstd::prelude::*;
use vstd::arithmetic::div_mod::lemma_div_pos_is_pos;
use vstd::arithmetic::div_mod::lemma_fundamental_div_mod;
use vstd::arithmetic::div_mod::lemma_fundamental_div_mod_converse;
use vstd::arithmetic::div_mod::lemma_mod_division_less_than_divisor;
use vstd::arithmetic::div_mod::lemma_multiply_divide_lt;
use crate::pathfinding::centre_idx;
use crate::pathfinding::floor_reachable;
use crate::pathfinding::floors_kept;
use crate::pathfinding::lemma_floor_col_reach;
use crate::pathfinding::lemma_floor_reach_mono;
use crate::pathfinding::lemma_floor_reach_to_reach;
use crate::pathfinding::lemma_floor_reach_trans;
use crate::pathfinding::lemma_floor_row_reach;
use crate::pathfinding::rooms_connected;
use crate::pathfinding::spec_reachable;
use crate::rect::Rect;
use crate::rng::Rng;
use crate::world::Entity;

verus! {

/// Most rooms attempted per generated map; rejected candidates are skipped.
pub const MAX_ROOMS: i32 = 30;

/// Smallest candidate room extent (inclusive).
pub const MIN_SIZE: i32 = 4;

/// Largest candidate room extent (exclusive).
pub const MAX_SIZE: i32 = 10;

/// Terrain classification of one tile.
#[derive(Clone, Copy, PartialEq, Eq, Structural, Debug)]
pub enum TileType {
    Wall,
    Floor,
}

/// A rectangular grid of tiles with parallel per-tile arrays, indexed by
/// `y * width + x`.
pub struct GridMap {
    pub width: i32,
    pub height: i32,
    pub tiles: Vec<TileType>,
    pub rooms: Vec<Rect>,
    pub revealed_tiles: Vec<bool>,
    pub visible_tiles: Vec<bool>,
    pub blocked_tiles: Vec<bool>,
    pub tile_content: Vec<Vec<Entity>>,
}

impl GridMap {
    /// Number of tiles in the grid.
    pub open spec fn area(self) -> int {
        self.width * self.height
    }

    /// Structural well-formedness: positive dimensions whose product fits an
    /// `i32`, and every parallel array holds one entry per tile.
    pub open spec fn wf(self) -> bool {
        &&& 3 <= self.width
        &&& 3 <= self.height
        &&& self.width * self.height <= i32::MAX
        &&& self.tiles@.len() == self.area()
        &&& self.revealed_tiles@.len() == self.area()
        &&& self.visible_tiles@.len() == self.area()
        &&& self.blocked_tiles@.len() == self.area()
        &&& self.tile_content@.len() == self.area()
    }

    pub open spec fn spec_in_bounds(self, x: int, y: int) -> bool {
        0 <= x < self.width && 0 <= y < self.height
    }

    /// Strictly inside the outer boundary ring.
    pub open spec fn spec_interior(self, x: int, y: int) -> bool {
        0 < x < self.width - 1 && 0 < y < self.height - 1
    }

    /// On the outer boundary ring.
    pub open spec fn spec_boundary(self, x: int, y: int) -> bool {
        self.spec_in_bounds(x, y) && (x == 0 || y == 0 || x == self.width - 1 || y == self.height
            - 1)
    }

    /// The flattened tile index of `(x, y)`.
    pub open spec fn idx(self, x: int, y: int) -> int {
        y * self.width + x
    }

    pub open spec fn tile_at(self, x: int, y: int) -> TileType {
        self.tiles@[self.idx(x, y)]
    }

    /// The flattened index of an in-bounds coordinate lies within the grid.
    pub proof fn lemma_idx_bounds(self, x: int, y: int)
        requires
            self.spec_in_bounds(x, y),
        ensures
            0 <= self.idx(x, y) < self.area(),
            self.idx(x, y) < self.width * self.height,
    {
        assert(0 <= y * self.width + x < self.width * self.height) by (nonlinear_arith)
            requires
                0 <= x < self.width,
                0 <= y < self.height,
        ;
    }

    /// Distinct in-bounds coordinates receive distinct flattened indices, and
    /// division recovers the coordinates: the index mapping is a bijection.
    pub proof fn lemma_index_round_trip(self, x: int, y: int)
        requires
            self.width > 0,
            self.spec_in_bounds(x, y),
        ensures
            self.idx(x, y) % (self.width as int) == x,
            self.idx(x, y) / (self.width as int) == y,
    {
        lemma_fundamental_div_mod_converse(self.idx(x, y), self.width as int, y, x);
    }

    /// A flattened index below the area has a y-coordinate below the height.
    proof fn lemma_div_in_bounds(self, i: int)
        requires
            self.width > 0,
            self.height > 0,
            0 <= i < self.area(),
        ensures
            0 <= i % (self.width as int) < self.width,
            0 <= i / (self.width as int) < self.height,
    {
        let w = self.width as int;
        let h = self.height as int;
        lemma_mod_division_less_than_divisor(i, w);
        lemma_div_pos_is_pos(i, w);
        lemma_multiply_divide_lt(i, w, h);
    }

    /// Any index below the area is the flattened index of its own column
    /// and row.
    pub proof fn lemma_index_decompose(self, i: int)
        requires
            self.wf(),
            0 <= i < self.area(),
        ensures
            self.spec_in_bounds(i % (self.width as int), i / (self.width as int)),
            self.idx(i % (self.width as int), i / (self.width as int)) == i,
    {
        let w = self.width as int;
        self.lemma_div_in_bounds(i);
        lemma_fundamental_div_mod(i, w);
        assert(w * (i / w) == (i / w) * w) by (nonlinear_arith);
    }

    /// Distinct in-bounds coordinates map to distinct flattened indices.
    pub proof fn lemma_idx_injective(self, x: int, y: int)
        requires
            self.width > 0,
            self.spec_in_bounds(x, y),
        ensures
            forall|a: int, b: int|
                self.spec_in_bounds(a, b) && !(a == x && b == y) ==> #[trigger] self.idx(a, b)
                    != self.idx(x, y),
    {
        assert forall|a: int, b: int|
            self.spec_in_bounds(a, b) && !(a == x && b == y) implies #[trigger] self.idx(a, b)
            != self.idx(x, y) by {
            self.lemma_index_round_trip(a, b);
            self.lemma_index_round_trip(x, y);
        }
    }

    /// Everything but the terrain array is equal between `a` and `b`.
    pub open spec fn same_except_tiles(a: GridMap, b: GridMap) -> bool {
        &&& b.width == a.width
        &&& b.height == a.height
        &&& b.rooms@ == a.rooms@
        &&& b.revealed_tiles@ == a.revealed_tiles@
        &&& b.visible_tiles@ == a.visible_tiles@
        &&& b.blocked_tiles@ == a.blocked_tiles@
        &&& b.tile_content@ == a.tile_content@
    }

    /// A placed room: spans at least the minimum size on each axis and sits
    /// wholly inside the grid with a one-tile margin to the boundary ring.
    pub open spec fn room_ok(self, r: Rect) -> bool {
        &&& 0 <= r.x1
        &&& r.x1 + 4 <= r.x2
        &&& r.x2 <= self.width - 2
        &&& 0 <= r.y1
        &&& r.y1 + 4 <= r.y2
        &&& r.y2 <= self.height - 2
    }

    /// The placed-room record is sound: every room is well placed, any two
    /// placed rooms are disjoint, and every room's interior is carved to
    /// floor.
    pub open spec fn rooms_ok(self) -> bool {
        &&& forall|k: int| 0 <= k < self.rooms@.len() ==> self.room_ok(#[trigger] self.rooms@[k])
        &&& forall|k: int, l: int|
            #![trigger self.rooms@[k], self.rooms@[l]]
            0 <= k < l < self.rooms@.len() ==> !self.rooms@[k].spec_intersect(self.rooms@[l])
        &&& forall|k: int, x: int, y: int|
            0 <= k < self.rooms@.len() && #[trigger] self.rooms@[k].interior_contains(x, y)
                ==> self.tile_at(x, y) == TileType::Floor
    }

    /// Every tile on the outer boundary ring is a wall.
    pub open spec fn sealed_boundary(self) -> bool {
        forall|x: int, y: int|
            self.spec_boundary(x, y) ==> #[trigger] self.tile_at(x, y) == TileType::Wall
    }

    /// The flattened tile index: `y * width + x`.
    pub fn xy_idx(&self, x: i32, y: i32) -> (r: usize)
        requires
            self.wf(),
            self.spec_in_bounds(x as int, y as int),
        ensures
            r == self.idx(x as int, y as int),
            r < self.area(),
    {
        proof {
            self.lemma_idx_bounds(x as int, y as int);
        }
        (y as usize) * (self.width as usize) + (x as usize)
    }

    /// The inverse of [`GridMap::xy_idx`]: recovers `(x, y)` from a flattened
    /// index.
    pub fn idx_to_xy(&self, i: usize) -> (r: (i32, i32))
        requires
            self.wf(),
            i < self.area(),
        ensures
            self.spec_in_bounds(r.0 as int, r.1 as int),
            self.idx(r.0 as int, r.1 as int) == i,
            r.0 == i as int % (self.width as int),
            r.1 == i as int / (self.width as int),
    {
        proof {
            self.lemma_div_in_bounds(i as int);
        }
        let w = self.width as usize;
        let x = (i % w) as i32;
        let y = (i / w) as i32;
        proof {
            lemma_fundamental_div_mod(i as int, w as int);
        }
        (x, y)
    }

    pub fn get_dimensions(&self) -> (r: (i32, i32))
        ensures
            r.0 == self.width,
            r.1 == self.height,
    {
        (self.width, self.height)
    }

    pub fn get_tile(&self, x: i32, y: i32) -> (r: TileType)
        requires
            self.wf(),
            self.spec_in_bounds(x as int, y as int),
        ensures
            r == self.tile_at(x as int, y as int),
    {
        proof {
            self.lemma_idx_bounds(x as int, y as int);
        }
        self.tiles[self.xy_idx(x, y)]
    }

    pub fn tile_is_blocked(&self, x: i32, y: i32) -> (r: bool)
        requires
            self.wf(),
            self.spec_in_bounds(x as int, y as int),
        ensures
            r == self.blocked_tiles@[self.idx(x as int, y as int)],
    {
        proof {
            self.lemma_idx_bounds(x as int, y as int);
        }
        self.blocked_tiles[self.xy_idx(x, y)]
    }

    pub fn tile_is_visible(&self, x: i32, y: i32) -> (r: bool)
        requires
            self.wf(),
            self.spec_in_bounds(x as int, y as int),
        ensures
            r == self.visible_tiles@[self.idx(x as int, y as int)],
    {
        proof {
            self.lemma_idx_bounds(x as int, y as int);
        }
        self.visible_tiles[self.xy_idx(x, y)]
    }

    pub fn tile_is_revealed(&self, x: i32, y: i32) -> (r: bool)
        requires
            self.wf(),
            self.spec_in_bounds(x as int, y as int),
        ensures
            r == self.revealed_tiles@[self.idx(x as int, y as int)],
    {
        proof {
            self.lemma_idx_bounds(x as int, y as int);
        }
        self.revealed_tiles[self.xy_idx(x, y)]
    }

    pub fn get_room(&self, index: i32) -> (r: Rect)
        requires
            0 <= index < self.rooms@.len(),
        ensures
            r == self.rooms@[index as int],
    {
        self.rooms[index as usize]
    }

    pub fn get_room_count(&self) -> (r: i32)
        requires
            self.rooms@.len() <= i32::MAX,
        ensures
            r == self.rooms@.len(),
    {
        self.rooms.len() as i32
    }

    /// Marks a tile as permanently revealed (fog-of-war memory).
    pub fn reveal_tile(&mut self, x: i32, y: i32)
        requires
            old(self).wf(),
            old(self).spec_in_bounds(x as int, y as int),
        ensures
            final(self).wf(),
            final(self).revealed_tiles@ == old(self).revealed_tiles@.update(
                old(self).idx(x as int, y as int),
                true,
            ),
            final(self).width == old(self).width,
            final(self).height == old(self).height,
            final(self).tiles@ == old(self).tiles@,
            final(self).rooms@ == old(self).rooms@,
            final(self).visible_tiles@ == old(self).visible_tiles@,
            final(self).blocked_tiles@ == old(self).blocked_tiles@,
            final(self).tile_content@ == old(self).tile_content@,
    {
        proof {
            self.lemma_idx_bounds(x as int, y as int);
        }
        let i = self.xy_idx(x, y);
        self.revealed_tiles[i] = true;
    }

    /// Marks a tile as visible this turn.
    pub fn mark_tile_as_visible(&mut self, x: i32, y: i32)
        requires
            old(self).wf(),
            old(self).spec_in_bounds(x as int, y as int),
        ensures
            final(self).wf(),
            final(self).visible_tiles@ == old(self).visible_tiles@.update(
                old(self).idx(x as int, y as int),
                true,
            ),
            final(self).width == old(self).width,
            final(self).height == old(self).height,
            final(self).tiles@ == old(self).tiles@,
            final(self).rooms@ == old(self).rooms@,
            final(self).revealed_tiles@ == old(self).revealed_tiles@,
            final(self).blocked_tiles@ == old(self).blocked_tiles@,
            final(self).tile_content@ == old(self).tile_content@,
    {
        proof {
            self.lemma_idx_bounds(x as int, y as int);
        }
        let i = self.xy_idx(x, y);
        self.visible_tiles[i] = true;
    }

    /// Clears the transient visible set (recomputed every visibility pass).
    pub fn clear_visible_tiles(&mut self)
        requires
            old(self).wf(),
        ensures
            final(self).wf(),
            final(self).visible_tiles@.len() == old(self).visible_tiles@.len(),
            forall|i: int|
                0 <= i < final(self).visible_tiles@.len() ==> !final(self).visible_tiles@[i],
            final(self).width == old(self).width,
            final(self).height == old(self).height,
            final(self).tiles@ == old(self).tiles@,
            final(self).rooms@ == old(self).rooms@,
            final(self).revealed_tiles@ == old(self).revealed_tiles@,
            final(self).blocked_tiles@ == old(self).blocked_tiles@,
            final(self).tile_content@ == old(self).tile_content@,
    {
        let n = self.visible_tiles.len();
        let mut i: usize = 0;
        while i < n
            invariant
                n == self.visible_tiles@.len(),
                i <= n,
                forall|j: int| 0 <= j < i ==> !self.visible_tiles@[j],
                self.wf(),
                self.width == old(self).width,
                self.height == old(self).height,
                self.tiles@ == old(self).tiles@,
                self.rooms@ == old(self).rooms@,
                self.revealed_tiles@ == old(self).revealed_tiles@,
                self.blocked_tiles@ == old(self).blocked_tiles@,
                self.tile_content@ == old(self).tile_content@,
            decreases n - i,
        {
            self.visible_tiles[i] = false;
            i += 1;
        }
    }

    /// Marks a tile as blocked for movement.
    pub fn set_tile_as_blocked(&mut self, x: i32, y: i32)
        requires
            old(self).wf(),
            old(self).spec_in_bounds(x as int, y as int),
        ensures
            final(self).wf(),
            final(self).blocked_tiles@ == old(self).blocked_tiles@.update(
                old(self).idx(x as int, y as int),
                true,
            ),
            final(self).width == old(self).width,
            final(self).height == old(self).height,
            final(self).tiles@ == old(self).tiles@,
            final(self).rooms@ == old(self).rooms@,
            final(self).revealed_tiles@ == old(self).revealed_tiles@,
            final(self).visible_tiles@ == old(self).visible_tiles@,
            final(self).tile_content@ == old(self).tile_content@,
    {
        proof {
            self.lemma_idx_bounds(x as int, y as int);
        }
        let i = self.xy_idx(x, y);
        self.blocked_tiles[i] = true;
    }

    /// Marks a tile as no longer blocked (an entity moved off it).
    pub fn set_tile_as_unblocked(&mut self, x: i32, y: i32)
        requires
            old(self).wf(),
            old(self).spec_in_bounds(x as int, y as int),
        ensures
            final(self).wf(),
            final(self).blocked_tiles@ == old(self).blocked_tiles@.update(
                old(self).idx(x as int, y as int),
                false,
            ),
            final(self).width == old(self).width,
            final(self).height == old(self).height,
            final(self).tiles@ == old(self).tiles@,
            final(self).rooms@ == old(self).rooms@,
            final(self).revealed_tiles@ == old(self).revealed_tiles@,
            final(self).visible_tiles@ == old(self).visible_tiles@,
            final(self).tile_content@ == old(self).tile_content@,
    {
        proof {
            self.lemma_idx_bounds(x as int, y as int);
        }
        let i = self.xy_idx(x, y);
        self.blocked_tiles[i] = false;
    }

    /// Rederives blockage from terrain alone: a tile is blocked iff it is a
    /// wall. Entity-derived blockage is layered on afterwards by re-indexing.
    pub fn update_blocked_tiles(&mut self)
        requires
            old(self).wf(),
        ensures
            final(self).wf(),
            final(self).blocked_tiles@.len() == old(self).blocked_tiles@.len(),
            forall|i: int|
                0 <= i < final(self).blocked_tiles@.len() ==> final(self).blocked_tiles@[i] == (
                old(self).tiles@[i] == TileType::Wall),
            final(self).width == old(self).width,
            final(self).height == old(self).height,
            final(self).tiles@ == old(self).tiles@,
            final(self).rooms@ == old(self).rooms@,
            final(self).revealed_tiles@ == old(self).revealed_tiles@,
            final(self).visible_tiles@ == old(self).visible_tiles@,
            final(self).tile_content@ == old(self).tile_content@,
    {
        let n = self.blocked_tiles.len();
        let mut i: usize = 0;
        while i < n
            invariant
                n == self.blocked_tiles@.len(),
                i <= n,
                self.wf(),
                forall|j: int|
                    0 <= j < i ==> self.blocked_tiles@[j] == (self.tiles@[j] == TileType::Wall),
                self.width == old(self).width,
                self.height == old(self).height,
                self.tiles@ == old(self).tiles@,
                self.rooms@ == old(self).rooms@,
                self.revealed_tiles@ == old(self).revealed_tiles@,
                self.tile_content@ == old(self).tile_content@,
                self.visible_tiles@ == old(self).visible_tiles@,
            decreases n - i,
        {
            let w = matches!(self.tiles[i], TileType::Wall);
            self.blocked_tiles[i] = w;
            i += 1;
        }
    }

    /// Empties every tile's occupant list (start of a re-index pass).
    pub fn clear_content_index(&mut self)
        requires
            old(self).wf(),
        ensures
            final(self).wf(),
            final(self).tile_content@.len() == old(self).tile_content@.len(),
            forall|i: int|
                0 <= i < final(self).tile_content@.len()
                    ==> final(self).tile_content@[i]@.len() == 0,
            final(self).width == old(self).width,
            final(self).height == old(self).height,
            final(self).tiles@ == old(self).tiles@,
            final(self).rooms@ == old(self).rooms@,
            final(self).revealed_tiles@ == old(self).revealed_tiles@,
            final(self).visible_tiles@ == old(self).visible_tiles@,
            final(self).blocked_tiles@ == old(self).blocked_tiles@,
    {
        let n = self.tile_content.len();
        let mut i: usize = 0;
        while i < n
            invariant
                n == self.tile_content@.len(),
                i <= n,
                self.wf(),
                forall|j: int| 0 <= j < i ==> self.tile_content@[j]@.len() == 0,
                self.width == old(self).width,
                self.height == old(self).height,
                self.tiles@ == old(self).tiles@,
                self.rooms@ == old(self).rooms@,
                self.revealed_tiles@ == old(self).revealed_tiles@,
                self.visible_tiles@ == old(self).visible_tiles@,
                self.blocked_tiles@ == old(self).blocked_tiles@,
            decreases n - i,
        {
            self.tile_content[i].clear();
            i += 1;
        }
    }

    /// Appends an entity to the occupant list of its tile.
    pub fn add_tile_content(&mut self, x: i32, y: i32, entity: Entity)
        requires
            old(self).wf(),
            old(self).spec_in_bounds(x as int, y as int),
        ensures
            final(self).wf(),
            final(self).tile_content@.len() == old(self).tile_content@.len(),
            final(self).tile_content@[old(self).idx(x as int, y as int)]@
                == old(self).tile_content@[old(self).idx(x as int, y as int)]@.push(entity),
            forall|j: int|
                0 <= j < old(self).tile_content@.len() && j != old(self).idx(x as int, y as int)
                    ==> final(self).tile_content@[j] == old(self).tile_content@[j],
            final(self).width == old(self).width,
            final(self).height == old(self).height,
            final(self).tiles@ == old(self).tiles@,
            final(self).rooms@ == old(self).rooms@,
            final(self).revealed_tiles@ == old(self).revealed_tiles@,
            final(self).visible_tiles@ == old(self).visible_tiles@,
            final(self).blocked_tiles@ == old(self).blocked_tiles@,
    {
        proof {
            self.lemma_idx_bounds(x as int, y as int);
        }
        let i = self.xy_idx(x, y);
        self.tile_content[i].push(entity);
    }

    /// Sets one tile to floor.
    fn carve_tile(&mut self, x: i32, y: i32)
        requires
            old(self).wf(),
            old(self).spec_in_bounds(x as int, y as int),
        ensures
            final(self).wf(),
            GridMap::same_except_tiles(*old(self), *final(self)),
            final(self).tiles@ == old(self).tiles@.update(
                old(self).idx(x as int, y as int),
                TileType::Floor,
            ),
    {
        proof {
            self.lemma_idx_bounds(x as int, y as int);
        }
        let i = self.xy_idx(x, y);
        self.tiles[i] = TileType::Floor;
    }

    /// Carves a room's interior to floor; all other tiles keep their terrain.
    fn apply_room_to_map(&mut self, room: &Rect)
        requires
            old(self).wf(),
            old(self).room_ok(*room),
        ensures
            final(self).wf(),
            GridMap::same_except_tiles(*old(self), *final(self)),
            forall|a: int, b: int|
                final(self).spec_in_bounds(a, b) ==> #[trigger] final(self).tile_at(a, b) == (
                if room.interior_contains(a, b) {
                    TileType::Floor
                } else {
                    old(self).tile_at(a, b)
                }),
    {
        let ghost m0 = *self;
        let mut y = room.y1 + 1;
        while y <= room.y2
            invariant
                self.wf(),
                GridMap::same_except_tiles(m0, *self),
                m0.wf(),
                m0.room_ok(*room),
                room.y1 + 1 <= y <= room.y2 + 1,
                forall|a: int, b: int|
                    self.spec_in_bounds(a, b) ==> #[trigger] self.tile_at(a, b) == (
                    if room.interior_contains(a, b) && b < y {
                        TileType::Floor
                    } else {
                        m0.tile_at(a, b)
                    }),
            decreases room.y2 + 1 - y,
        {
            let mut x = room.x1 + 1;
            while x <= room.x2
                invariant
                    self.wf(),
                    GridMap::same_except_tiles(m0, *self),
                    m0.wf(),
                    m0.room_ok(*room),
                    room.y1 + 1 <= y <= room.y2,
                    room.x1 + 1 <= x <= room.x2 + 1,
                    forall|a: int, b: int|
                        self.spec_in_bounds(a, b) ==> #[trigger] self.tile_at(a, b) == (
                        if room.interior_contains(a, b) && (b < y || (b == y && a < x)) {
                            TileType::Floor
                        } else {
                            m0.tile_at(a, b)
                        }),
                decreases room.x2 + 1 - x,
            {
                let ghost m_prev = *self;
                proof {
                    m_prev.lemma_idx_injective(x as int, y as int);
                }
                self.carve_tile(x, y);
                proof {
                    assert forall|a: int, b: int|
                        self.spec_in_bounds(a, b) implies #[trigger] self.tile_at(a, b) == (
                    if room.interior_contains(a, b) && (b < y || (b == y && a < x + 1)) {
                        TileType::Floor
                    } else {
                        m0.tile_at(a, b)
                    }) by {
                        m_prev.lemma_idx_bounds(a, b);
                        m_prev.lemma_idx_bounds(x as int, y as int);
                        if a == x as int && b == y as int {
                            assert(self.tile_at(a, b) == TileType::Floor);
                        } else {
                            assert(self.tile_at(a, b) == m_prev.tile_at(a, b));
                        }
                    }
                }
                x = x + 1;
            }
            y = y + 1;
        }
    }

    /// Carves a one-tile-high corridor between two columns on row `y`.
    fn apply_horizontal_tunnel(&mut self, x1: i32, x2: i32, y: i32)
        requires
            old(self).wf(),
            1 <= x1 <= old(self).width - 2,
            1 <= x2 <= old(self).width - 2,
            1 <= y <= old(self).height - 2,
        ensures
            final(self).wf(),
            GridMap::same_except_tiles(*old(self), *final(self)),
            forall|a: int, b: int|
                final(self).spec_in_bounds(a, b) ==> #[trigger] final(self).tile_at(a, b) == (
                if b == y && (if x1 <= x2 {
                    x1 <= a <= x2
                } else {
                    x2 <= a <= x1
                }) {
                    TileType::Floor
                } else {
                    old(self).tile_at(a, b)
                }),
    {
        let ghost m0 = *self;
        let lo = if x1 < x2 {
            x1
        } else {
            x2
        };
        let hi = if x1 < x2 {
            x2
        } else {
            x1
        };
        let mut x = lo;
        while x <= hi
            invariant
                self.wf(),
                GridMap::same_except_tiles(m0, *self),
                m0.wf(),
                1 <= lo <= hi <= m0.width - 2,
                1 <= y <= m0.height - 2,
                lo <= x <= hi + 1,
                forall|a: int, b: int|
                    self.spec_in_bounds(a, b) ==> #[trigger] self.tile_at(a, b) == (
                    if b == y && lo <= a < x {
                        TileType::Floor
                    } else {
                        m0.tile_at(a, b)
                    }),
            decreases hi + 1 - x,
        {
            let ghost m_prev = *self;
            proof {
                m_prev.lemma_idx_injective(x as int, y as int);
            }
            self.carve_tile(x, y);
            proof {
                assert forall|a: int, b: int|
                    self.spec_in_bounds(a, b) implies #[trigger] self.tile_at(a, b) == (
                if b == y && lo <= a < x + 1 {
                    TileType::Floor
                } else {
                    m0.tile_at(a, b)
                }) by {
                    m_prev.lemma_idx_bounds(a, b);
                    m_prev.lemma_idx_bounds(x as int, y as int);
                    if a == x as int && b == y as int {
                        assert(self.tile_at(a, b) == TileType::Floor);
                    } else {
                        assert(self.tile_at(a, b) == m_prev.tile_at(a, b));
                    }
                }
            }
            x = x + 1;
        }
    }

    /// Carves a one-tile-wide corridor between two rows on column `x`.
    fn apply_vertical_tunnel(&mut self, y1: i32, y2: i32, x: i32)
        requires
            old(self).wf(),
            1 <= y1 <= old(self).height - 2,
            1 <= y2 <= old(self).height - 2,
            1 <= x <= old(self).width - 2,
        ensures
            final(self).wf(),
            GridMap::same_except_tiles(*old(self), *final(self)),
            forall|a: int, b: int|
                final(self).spec_in_bounds(a, b) ==> #[trigger] final(self).tile_at(a, b) == (
                if a == x && (if y1 <= y2 {
                    y1 <= b <= y2
                } else {
                    y2 <= b <= y1
                }) {
                    TileType::Floor
                } else {
                    old(self).tile_at(a, b)
                }),
    {
        let ghost m0 = *self;
        let lo = if y1 < y2 {
            y1
        } else {
            y2
        };
        let hi = if y1 < y2 {
            y2
        } else {
            y1
        };
        let mut y = lo;
        while y <= hi
            invariant
                self.wf(),
                GridMap::same_except_tiles(m0, *self),
                m0.wf(),
                1 <= lo <= hi <= m0.height - 2,
                1 <= x <= m0.width - 2,
                lo <= y <= hi + 1,
                forall|a: int, b: int|
                    self.spec_in_bounds(a, b) ==> #[trigger] self.tile_at(a, b) == (
                    if a == x && lo <= b < y {
                        TileType::Floor
                    } else {
                        m0.tile_at(a, b)
                    }),
            decreases hi + 1 - y,
        {
            let ghost m_prev = *self;
            proof {
                m_prev.lemma_idx_injective(x as int, y as int);
            }
            self.carve_tile(x, y);
            proof {
                assert forall|a: int, b: int|
                    self.spec_in_bounds(a, b) implies #[trigger] self.tile_at(a, b) == (
                if a == x && lo <= b < y + 1 {
                    TileType::Floor
                } else {
                    m0.tile_at(a, b)
                }) by {
                    m_prev.lemma_idx_bounds(a, b);
                    m_prev.lemma_idx_bounds(x as int, y as int);
                    if a == x as int && b == y as int {
                        assert(self.tile_at(a, b) == TileType::Floor);
                    } else {
                        assert(self.tile_at(a, b) == m_prev.tile_at(a, b));
                    }
                }
            }
            y = y + 1;
        }
    }

    /// Reads the occupant list of a tile.
    pub fn get_tile_content(&self, x: i32, y: i32) -> (r: &Vec<Entity>)
        requires
            self.wf(),
            self.spec_in_bounds(x as int, y as int),
        ensures
            r@ == self.tile_content@[self.idx(x as int, y as int)]@,
    {
        proof {
            self.lemma_idx_bounds(x as int, y as int);
        }
        let i = self.xy_idx(x, y);
        &self.tile_content[i]
    }

    /// Generates a dungeon from a seed: up to [`MAX_ROOMS`] non-overlapping
    /// rooms carved to floor, connected in order of placement by L-shaped
    /// corridors, on an otherwise solid wall grid with a sealed boundary.
    ///
    /// Rejected candidates merely reduce the number of rooms; the result is
    /// always a well-formed map with at least one room.
    #[verifier::rlimit(100)]
    pub fn new(width: i32, height: i32, seed: u64) -> (m: GridMap)
        requires
            11 <= width,
            11 <= height,
            width * height <= i32::MAX,
        ensures
            m.wf(),
            m.width == width,
            m.height == height,
            m.sealed_boundary(),
            m.rooms_ok(),
            m.rooms@.len() >= 1,
            m.rooms@.len() <= MAX_ROOMS,
            rooms_connected(m),
            forall|i: int| 0 <= i < m.area() ==> !m.revealed_tiles@[i],
            forall|i: int| 0 <= i < m.area() ==> !m.visible_tiles@[i],
            forall|i: int| 0 <= i < m.area() ==> #[trigger] m.tile_content@[i]@.len() == 0,
            forall|i: int|
                0 <= i < m.area() ==> m.blocked_tiles@[i] == (m.tiles@[i] == TileType::Wall),
    {
        proof {
            assert(width * height >= width * 11 >= 0 && 2 * width <= i32::MAX && 2 * height
                <= i32::MAX) by (nonlinear_arith)
                requires
                    11 <= width,
                    11 <= height,
                    width * height <= i32::MAX,
            ;
        }
        let area = (width as usize) * (height as usize);
        let mut map = GridMap {
            width,
            height,
            tiles: make_filled_tiles(area),
            rooms: Vec::new(),
            revealed_tiles: make_flags(area),
            visible_tiles: make_flags(area),
            blocked_tiles: make_flags(area),
            tile_content: make_empty_contents(area),
        };
        proof {
            assert forall|a: int, b: int|
                map.spec_boundary(a, b) implies #[trigger] map.tile_at(a, b)
                == TileType::Wall by {
                map.lemma_idx_bounds(a, b);
            }
        }
        let mut rng = Rng::seeded(seed);
        let mut count: i32 = 0;
        while count < MAX_ROOMS
            invariant
                map.wf(),
                map.width == width,
                map.height == height,
                11 <= width,
                11 <= height,
                2 * width <= i32::MAX,
                2 * height <= i32::MAX,
                rng.wf(),
                0 <= count <= MAX_ROOMS,
                map.sealed_boundary(),
                map.rooms_ok(),
                map.rooms@.len() <= count,
                count >= 1 ==> map.rooms@.len() >= 1,
                forall|k: int|
                    0 <= k < map.rooms@.len() - 1 ==> floor_reachable(
                        map,
                        centre_idx(map, #[trigger] map.rooms@[k]),
                        centre_idx(map, map.rooms@[k + 1]),
                    ),
                forall|i: int| 0 <= i < map.area() ==> !map.revealed_tiles@[i],
                forall|i: int| 0 <= i < map.area() ==> !map.visible_tiles@[i],
                forall|i: int| 0 <= i < map.area() ==> #[trigger] map.tile_content@[i]@.len() == 0,
            decreases MAX_ROOMS - count,
        {
            let w = rng.range(MIN_SIZE, MAX_SIZE);
            let h = rng.range(MIN_SIZE, MAX_SIZE);
            let x = rng.roll_dice(1, width - w - 1) - 1;
            let y = rng.roll_dice(1, height - h - 1) - 1;
            let new_room = Rect::new(x, y, w, h);
            proof {
                assert(map.room_ok(new_room));
            }
            let mut ok = true;
            let mut j: usize = 0;
            while j < map.rooms.len()
                invariant
                    j <= map.rooms@.len(),
                    ok ==> forall|k: int|
                        0 <= k < j ==> !new_room.spec_intersect(#[trigger] map.rooms@[k]),
                    !ok ==> map.rooms@.len() > 0,
                decreases map.rooms@.len() - j,
            {
                if new_room.intersect(&map.rooms[j]) {
                    ok = false;
                }
                j += 1;
            }
            if ok {
                let ghost m_before = map;
                map.apply_room_to_map(&new_room);
                let ghost m_room = map;
                proof {
                    assert(floors_kept(m_before, m_room)) by {
                        assert forall|b: int|
                            0 <= b < m_before.area() && (#[trigger] m_before.tiles@[b])
                                == TileType::Floor implies m_room.tiles@[b] == TileType::Floor by {
                            m_before.lemma_index_decompose(b);
                            let aa = b % (m_before.width as int);
                            let bb = b / (m_before.width as int);
                            assert(m_before.tile_at(aa, bb) == TileType::Floor);
                            assert(m_room.tile_at(aa, bb) == TileType::Floor);
                        }
                    }
                }
                if !map.rooms.is_empty() {
                    proof {
                        new_room.lemma_centre_bounds();
                        map.rooms@[map.rooms@.len() - 1].lemma_centre_bounds();
                    }
                    let (new_x, new_y) = new_room.centre();
                    let prev = map.rooms[map.rooms.len() - 1];
                    let (prev_x, prev_y) = prev.centre();
                    if rng.range(0, 2) == 1 {
                        map.apply_horizontal_tunnel(prev_x, new_x, prev_y);
                        let ghost m_t1 = map;
                        map.apply_vertical_tunnel(prev_y, new_y, new_x);
                        proof {
                            let px = prev_x as int;
                            let py = prev_y as int;
                            let qx = new_x as int;
                            let qy = new_y as int;
                            assert(floors_kept(m_room, m_t1)) by {
                                assert forall|b: int|
                                    0 <= b < m_room.area() && (#[trigger] m_room.tiles@[b])
                                        == TileType::Floor implies m_t1.tiles@[b]
                                    == TileType::Floor by {
                                    m_room.lemma_index_decompose(b);
                                    let aa = b % (m_room.width as int);
                                    let bb = b / (m_room.width as int);
                                    assert(m_room.tile_at(aa, bb) == TileType::Floor);
                                    assert(m_t1.tile_at(aa, bb) == TileType::Floor);
                                }
                            }
                            assert(floors_kept(m_t1, map)) by {
                                assert forall|b: int|
                                    0 <= b < m_t1.area() && (#[trigger] m_t1.tiles@[b])
                                        == TileType::Floor implies map.tiles@[b]
                                    == TileType::Floor by {
                                    m_t1.lemma_index_decompose(b);
                                    let aa = b % (m_t1.width as int);
                                    let bb = b / (m_t1.width as int);
                                    assert(m_t1.tile_at(aa, bb) == TileType::Floor);
                                    assert(map.tile_at(aa, bb) == TileType::Floor);
                                }
                            }
                            assert(floors_kept(m_before, map)) by {
                                assert forall|b: int|
                                    0 <= b < m_before.area() && (#[trigger] m_before.tiles@[b])
                                        == TileType::Floor implies map.tiles@[b]
                                    == TileType::Floor by {
                                    assert(m_room.tiles@[b] == TileType::Floor);
                                    assert(m_t1.tiles@[b] == TileType::Floor);
                                }
                            }
                            assert forall|a: int|
                                (if px <= qx {
                                    px <= a <= qx
                                } else {
                                    qx <= a <= px
                                }) implies #[trigger] map.tile_at(a, py) == TileType::Floor by {
                                assert(m_t1.tile_at(a, py) == TileType::Floor);
                            }
                            lemma_floor_row_reach(map, px, qx, py);
                            assert forall|b2: int|
                                (if py <= qy {
                                    py <= b2 <= qy
                                } else {
                                    qy <= b2 <= py
                                }) implies #[trigger] map.tile_at(qx, b2) == TileType::Floor by {}
                            lemma_floor_col_reach(map, py, qy, qx);
                            lemma_floor_reach_trans(
                                map,
                                map.idx(px, py),
                                map.idx(qx, py),
                                map.idx(qx, qy),
                            );
                            assert(floor_reachable(
                                map,
                                centre_idx(map, map.rooms@[map.rooms@.len() - 1]),
                                centre_idx(map, new_room),
                            ));
                        }
                    } else {
                        map.apply_vertical_tunnel(prev_y, new_y, prev_x);
                        let ghost m_t1 = map;
                        map.apply_horizontal_tunnel(prev_x, new_x, new_y);
                        proof {
                            let px = prev_x as int;
                            let py = prev_y as int;
                            let qx = new_x as int;
                            let qy = new_y as int;
                            assert(floors_kept(m_room, m_t1)) by {
                                assert forall|b: int|
                                    0 <= b < m_room.area() && (#[trigger] m_room.tiles@[b])
                                        == TileType::Floor implies m_t1.tiles@[b]
                                    == TileType::Floor by {
                                    m_room.lemma_index_decompose(b);
                                    let aa = b % (m_room.width as int);
                                    let bb = b / (m_room.width as int);
                                    assert(m_room.tile_at(aa, bb) == TileType::Floor);
                                    assert(m_t1.tile_at(aa, bb) == TileType::Floor);
                                }
                            }
                            assert(floors_kept(m_t1, map)) by {
                                assert forall|b: int|
                                    0 <= b < m_t1.area() && (#[trigger] m_t1.tiles@[b])
                                        == TileType::Floor implies map.tiles@[b]
                                    == TileType::Floor by {
                                    m_t1.lemma_index_decompose(b);
                                    let aa = b % (m_t1.width as int);
                                    let bb = b / (m_t1.width as int);
                                    assert(m_t1.tile_at(aa, bb) == TileType::Floor);
                                    assert(map.tile_at(aa, bb) == TileType::Floor);
                                }
                            }
                            assert(floors_kept(m_before, map)) by {
                                assert forall|b: int|
                                    0 <= b < m_before.area() && (#[trigger] m_before.tiles@[b])
                                        == TileType::Floor implies map.tiles@[b]
                                    == TileType::Floor by {
                                    assert(m_room.tiles@[b] == TileType::Floor);
                                    assert(m_t1.tiles@[b] == TileType::Floor);
                                }
                            }
                            assert forall|b2: int|
                                (if py <= qy {
                                    py <= b2 <= qy
                                } else {
                                    qy <= b2 <= py
                                }) implies #[trigger] map.tile_at(px, b2) == TileType::Floor by {
                                assert(m_t1.tile_at(px, b2) == TileType::Floor);
                            }
                            lemma_floor_col_reach(map, py, qy, px);
                            assert forall|a: int|
                                (if px <= qx {
                                    px <= a <= qx
                                } else {
                                    qx <= a <= px
                                }) implies #[trigger] map.tile_at(a, qy) == TileType::Floor by {}
                            lemma_floor_row_reach(map, px, qx, qy);
                            lemma_floor_reach_trans(
                                map,
                                map.idx(px, py),
                                map.idx(px, qy),
                                map.idx(qx, qy),
                            );
                            assert(floor_reachable(
                                map,
                                centre_idx(map, map.rooms@[map.rooms@.len() - 1]),
                                centre_idx(map, new_room),
                            ));
                        }
                    }
                }
                proof {
                    assert(floors_kept(m_before, map)) by {
                        assert forall|b: int|
                            0 <= b < m_before.area() && (#[trigger] m_before.tiles@[b])
                                == TileType::Floor implies map.tiles@[b] == TileType::Floor by {
                            assert(m_room.tiles@[b] == TileType::Floor);
                        }
                    }
                    assert forall|a: int, b: int|
                        map.spec_boundary(a, b) implies #[trigger] map.tile_at(a, b)
                        == TileType::Wall by {
                        assert(m_before.tile_at(a, b) == TileType::Wall);
                    }
                    assert forall|k: int, xx: int, yy: int|
                        0 <= k < map.rooms@.len() && #[trigger] map.rooms@[k].interior_contains(
                        xx, yy) implies map.tile_at(xx, yy) == TileType::Floor by {
                        assert(map.rooms@[k] == m_before.rooms@[k]);
                        assert(m_before.room_ok(m_before.rooms@[k]));
                        assert(m_before.tile_at(xx, yy) == TileType::Floor);
                    }
                    assert forall|xx: int, yy: int|
                        new_room.interior_contains(xx, yy) implies map.tile_at(xx, yy)
                        == TileType::Floor by {
                        assert(map.spec_in_bounds(xx, yy));
                    }
                }
                let ghost m_carved = map;
                map.rooms.push(new_room);
                proof {
                    let rl = map.rooms@.len();
                    assert(map.tiles@ == m_carved.tiles@);
                    assert forall|a: int, b: int|
                        map.spec_boundary(a, b) implies #[trigger] map.tile_at(a, b)
                        == TileType::Wall by {
                        assert(m_carved.tile_at(a, b) == TileType::Wall);
                    }
                    assert forall|k: int| 0 <= k < rl implies map.room_ok(
                        #[trigger] map.rooms@[k]) by {
                        if k < rl - 1 {
                            assert(map.rooms@[k] == m_before.rooms@[k]);
                        } else {
                            assert(map.rooms@[k] == new_room);
                        }
                    }
                    assert forall|k: int, l: int|
                        #![trigger map.rooms@[k], map.rooms@[l]]
                        0 <= k < l < rl implies !map.rooms@[k].spec_intersect(map.rooms@[l]) by {
                        if l < rl - 1 {
                            assert(map.rooms@[k] == m_before.rooms@[k]);
                            assert(map.rooms@[l] == m_before.rooms@[l]);
                        } else {
                            assert(map.rooms@[k] == m_before.rooms@[k]);
                            assert(map.rooms@[l] == new_room);
                            assert(!new_room.spec_intersect(m_before.rooms@[k]));
                        }
                    }
                    assert forall|k: int, xx: int, yy: int|
                        0 <= k < rl && #[trigger] map.rooms@[k].interior_contains(xx, yy)
                        implies map.tile_at(xx, yy) == TileType::Floor by {
                        if k < rl - 1 {
                            assert(map.rooms@[k] == m_carved.rooms@[k]);
                            assert(m_carved.tile_at(xx, yy) == TileType::Floor);
                        } else {
                            assert(map.rooms@[k] == new_room);
                            assert(m_carved.tile_at(xx, yy) == TileType::Floor);
                        }
                    }
                    assert(floors_kept(m_before, map)) by {
                        assert forall|b: int|
                            0 <= b < m_before.area() && (#[trigger] m_before.tiles@[b])
                                == TileType::Floor implies map.tiles@[b] == TileType::Floor by {
                            assert(m_carved.tiles@[b] == TileType::Floor);
                        }
                    }
                    assert forall|k: int|
                        0 <= k < rl - 1 implies floor_reachable(
                        map,
                        centre_idx(map, #[trigger] map.rooms@[k]),
                        centre_idx(map, map.rooms@[k + 1]),
                    ) by {
                        if k < rl - 2 {
                            assert(map.rooms@[k] == m_before.rooms@[k]);
                            assert(map.rooms@[k + 1] == m_before.rooms@[k + 1]);
                            assert(floor_reachable(
                                m_before,
                                centre_idx(m_before, m_before.rooms@[k]),
                                centre_idx(m_before, m_before.rooms@[k + 1]),
                            ));
                            lemma_floor_reach_mono(
                                m_before,
                                map,
                                centre_idx(m_before, m_before.rooms@[k]),
                                centre_idx(m_before, m_before.rooms@[k + 1]),
                            );
                        } else {
                            assert(k == rl - 2);
                            assert(map.rooms@[k] == m_carved.rooms@[m_carved.rooms@.len() - 1]);
                            assert(map.rooms@[k + 1] == new_room);
                            assert(floor_reachable(
                                m_carved,
                                centre_idx(m_carved, m_carved.rooms@[m_carved.rooms@.len() - 1]),
                                centre_idx(m_carved, new_room),
                            ));
                            assert(floors_kept(m_carved, map)) by {
                                assert(map.tiles@ == m_carved.tiles@);
                            }
                            lemma_floor_reach_mono(
                                m_carved,
                                map,
                                centre_idx(m_carved, m_carved.rooms@[m_carved.rooms@.len() - 1]),
                                centre_idx(m_carved, new_room),
                            );
                        }
                    }
                }
            }
            count += 1;
        }
        let ghost m_gen = map;
        map.update_blocked_tiles();
        proof {
            assert(map.tiles@ == m_gen.tiles@);
            assert forall|a: int, b: int|
                map.spec_boundary(a, b) implies #[trigger] map.tile_at(a, b)
                == TileType::Wall by {
                assert(m_gen.tile_at(a, b) == TileType::Wall);
            }
            assert forall|k: int, xx: int, yy: int|
                0 <= k < map.rooms@.len() && #[trigger] map.rooms@[k].interior_contains(xx, yy)
                implies map.tile_at(xx, yy) == TileType::Floor by {
                assert(map.rooms@[k] == m_gen.rooms@[k]);
                assert(m_gen.tile_at(xx, yy) == TileType::Floor);
            }
            assert forall|k: int|
                0 <= k < map.rooms@.len() - 1 implies spec_reachable(
                map,
                centre_idx(map, #[trigger] map.rooms@[k]),
                centre_idx(map, map.rooms@[k + 1]),
            ) by {
                assert(map.rooms@[k] == m_gen.rooms@[k]);
                assert(map.rooms@[k + 1] == m_gen.rooms@[k + 1]);
                assert(floor_reachable(
                    m_gen,
                    centre_idx(m_gen, m_gen.rooms@[k]),
                    centre_idx(m_gen, m_gen.rooms@[k + 1]),
                ));
                assert(floors_kept(m_gen, map)) by {
                    assert(map.tiles@ == m_gen.tiles@);
                }
                lemma_floor_reach_mono(
                    m_gen,
                    map,
                    centre_idx(m_gen, m_gen.rooms@[k]),
                    centre_idx(m_gen, m_gen.rooms@[k + 1]),
                );
                lemma_floor_reach_to_reach(
                    map,
                    centre_idx(map, map.rooms@[k]),
                    centre_idx(map, map.rooms@[k + 1]),
                );
            }
            assert(rooms_connected(map));
        }
        map
    }
}

/// A run of `n` wall tiles.
fn make_filled_tiles(n: usize) -> (r: Vec<TileType>)
    ensures
        r@.len() == n,
        forall|i: int| 0 <= i < n ==> r@[i] == TileType::Wall,
{
    let mut v: Vec<TileType> = Vec::new();
    let mut i: usize = 0;
    while i < n
        invariant
            i <= n,
            v@.len() == i,
            forall|j: int| 0 <= j < i ==> v@[j] == TileType::Wall,
        decreases n - i,
    {
        v.push(TileType::Wall);
        i += 1;
    }
    v
}

/// A run of `n` cleared flags.
fn make_flags(n: usize) -> (r: Vec<bool>)
    ensures
        r@.len() == n,
        forall|i: int| 0 <= i < n ==> !r@[i],
{
    let mut v: Vec<bool> = Vec::new();
    let mut i: usize = 0;
    while i < n
        invariant
            i <= n,
            v@.len() == i,
            forall|j: int| 0 <= j < i ==> !v@[j],
        decreases n - i,
    {
        v.push(false);
        i += 1;
    }
    v
}

/// A run of `n` empty occupant lists.
fn make_empty_contents(n: usize) -> (r: Vec<Vec<Entity>>)
    ensures
        r@.len() == n,
        forall|i: int| 0 <= i < n ==> #[trigger] r@[i]@.len() == 0,
{
    let mut v: Vec<Vec<Entity>> = Vec::new();
    let mut i: usize = 0;
    while i < n
        invariant
            i <= n,
            v@.len() == i,
            forall|j: int| 0 <= j < i ==> #[trigger] v@[j]@.len() == 0,
        decreases n - i,
    {
        v.push(Vec::new());
        i += 1;
    }
    v
}

} // verus!
