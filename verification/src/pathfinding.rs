//! Weighted shortest-path search over the 8-connected movement graph of a
//! grid map. An edge leads onto a tile only if that tile is unblocked and
//! keeps a one-tile margin from the outer boundary. Cardinal steps cost
//! [`CARDINAL_COST`] hundredths, diagonal steps [`DIAGONAL_COST`]
//! hundredths: the diagonal cost is a deliberate tuning constant of 1.45,
//! not the exact square root of two.

use vstd::prelude::*;
use vstd::arithmetic::div_mod::lemma_fundamental_div_mod;
use vstd::set::axiom_set_insert_len;
use vstd::set_lib::lemma_int_range;
use vstd::set_lib::lemma_len_subset;
use vstd::set_lib::set_int_range;
use crate::grid_map::GridMap;
use crate::grid_map::TileType;
use crate::rect::Rect;

verus! {

/// Cost of a cardinal step, in hundredths of a tile.
pub const CARDINAL_COST: u64 = 100;

/// Cost of a diagonal step, in hundredths of a tile.
pub const DIAGONAL_COST: u64 = 145;

/// Marker distance for tiles the search has not reached.
pub const UNREACHED: u64 = u64::MAX;

/// Column of a flattened tile index.
pub open spec fn col_of(m: GridMap, i: int) -> int {
    i % (m.width as int)
}

/// Row of a flattened tile index.
pub open spec fn row_of(m: GridMap, i: int) -> int {
    i / (m.width as int)
}

/// Two distinct tile indices whose columns and rows each differ by at most
/// one: the 8-connected neighbourhood.
pub open spec fn spec_adjacent(m: GridMap, a: int, b: int) -> bool {
    let dx = col_of(m, b) - col_of(m, a);
    let dy = row_of(m, b) - row_of(m, a);
    &&& !(dx == 0 && dy == 0)
    &&& -1 <= dx <= 1
    &&& -1 <= dy <= 1
}

/// A tile the search may step onto: inside the boundary ring with a
/// one-tile margin, and not blocked.
pub open spec fn spec_exit_ok(m: GridMap, b: int) -> bool {
    &&& 1 <= col_of(m, b) <= m.width - 2
    &&& 1 <= row_of(m, b) <= m.height - 2
    &&& !m.blocked_tiles@[b]
}

/// A traversable edge of the movement graph.
pub open spec fn spec_edge(m: GridMap, a: int, b: int) -> bool {
    spec_adjacent(m, a, b) && spec_exit_ok(m, b)
}

/// The cost of the edge `a -> b`.
pub open spec fn spec_cost(m: GridMap, a: int, b: int) -> u64 {
    if col_of(m, b) != col_of(m, a) && row_of(m, b) != row_of(m, a) {
        DIAGONAL_COST
    } else {
        CARDINAL_COST
    }
}

/// `p` is a route from `s` to `g`: it starts at `s`, ends at `g`, and every
/// step follows a traversable edge.
pub open spec fn valid_path(m: GridMap, p: Seq<int>, s: int, g: int) -> bool {
    &&& p.len() >= 1
    &&& p[0] == s
    &&& p.last() == g
    &&& 0 <= s < m.area()
    &&& forall|i: int| 0 <= i < p.len() - 1 ==> spec_edge(m, #[trigger] p[i], p[i + 1])
}

/// Some route connects `s` to `g`.
pub open spec fn spec_reachable(m: GridMap, s: int, g: int) -> bool {
    exists|p: Seq<int>| valid_path(m, p, s, g)
}

/// The flattened index of a room's centre tile.
pub open spec fn centre_idx(m: GridMap, r: Rect) -> int {
    m.idx(r.spec_centre().0, r.spec_centre().1)
}

/// Successive placed rooms are connected: a route of the movement graph
/// joins each room's centre to the next room's centre.
pub open spec fn rooms_connected(m: GridMap) -> bool {
    forall|k: int|
        0 <= k < m.rooms@.len() - 1 ==> spec_reachable(
            m,
            centre_idx(m, #[trigger] m.rooms@[k]),
            centre_idx(m, m.rooms@[k + 1]),
        )
}

/// A tile that will be steppable once the blocked flags mirror the walls:
/// inside the one-tile margin and carved to floor.
pub open spec fn floor_ok(m: GridMap, b: int) -> bool {
    &&& 1 <= col_of(m, b) <= m.width - 2
    &&& 1 <= row_of(m, b) <= m.height - 2
    &&& m.tiles@[b] == TileType::Floor
}

/// `p` walks from `s` to `g` over carved floor tiles, one 8-connected
/// step at a time.
pub open spec fn floor_path(m: GridMap, p: Seq<int>, s: int, g: int) -> bool {
    &&& p.len() >= 1
    &&& p[0] == s
    &&& p.last() == g
    &&& 0 <= s < m.area()
    &&& forall|i: int|
        0 <= i < p.len() - 1 ==> spec_adjacent(m, #[trigger] p[i], p[i + 1]) && floor_ok(
            m,
            p[i + 1],
        )
}

/// Some floor walk connects `s` to `g`.
pub open spec fn floor_reachable(m: GridMap, s: int, g: int) -> bool {
    exists|p: Seq<int>| floor_path(m, p, s, g)
}

/// Every carved-floor tile of `m1` is still floor in `m2`.
pub open spec fn floors_kept(m1: GridMap, m2: GridMap) -> bool {
    forall|b: int|
        0 <= b < m1.area() && (#[trigger] m1.tiles@[b]) == TileType::Floor ==> m2.tiles@[b]
            == TileType::Floor
}

/// A margin tile index lies within the grid and decomposes into its
/// column and row.
pub proof fn lemma_margin_in_bounds(m: GridMap, b: int)
    requires
        m.wf(),
        1 <= col_of(m, b) <= m.width - 2,
        1 <= row_of(m, b) <= m.height - 2,
    ensures
        0 <= b < m.area(),
        m.spec_in_bounds(col_of(m, b), row_of(m, b)),
        m.idx(col_of(m, b), row_of(m, b)) == b,
{
    let w = m.width as int;
    lemma_fundamental_div_mod(b, w);
    assert(w * (b / w) == (b / w) * w) by (nonlinear_arith);
    m.lemma_idx_bounds(col_of(m, b), row_of(m, b));
}

/// Carving can only add floor, and a floor walk survives more floor.
pub proof fn lemma_floor_reach_mono(m1: GridMap, m2: GridMap, s: int, g: int)
    requires
        m1.wf(),
        m1.width == m2.width,
        m1.height == m2.height,
        floors_kept(m1, m2),
        floor_reachable(m1, s, g),
    ensures
        floor_reachable(m2, s, g),
{
    let p = choose|p: Seq<int>| floor_path(m1, p, s, g);
    assert forall|i: int|
        0 <= i < p.len() - 1 implies spec_adjacent(m2, #[trigger] p[i], p[i + 1]) && floor_ok(
        m2,
        p[i + 1],
    ) by {
        assert(spec_adjacent(m1, p[i], p[i + 1]) && floor_ok(m1, p[i + 1]));
        lemma_margin_in_bounds(m1, p[i + 1]);
    }
    assert(floor_path(m2, p, s, g));
}

/// A row of carved floor inside the margin is walkable end to end.
pub proof fn lemma_floor_row_reach(m: GridMap, x1: int, x2: int, y: int)
    requires
        m.wf(),
        1 <= y <= m.height - 2,
        1 <= x1 <= m.width - 2,
        1 <= x2 <= m.width - 2,
        forall|a: int|
            (if x1 <= x2 {
                x1 <= a <= x2
            } else {
                x2 <= a <= x1
            }) ==> #[trigger] m.tile_at(a, y) == TileType::Floor,
    ensures
        floor_reachable(m, m.idx(x1, y), m.idx(x2, y)),
{
    let k = if x1 <= x2 {
        x2 - x1
    } else {
        x1 - x2
    };
    let p = Seq::new(
        (k + 1) as nat,
        |i: int|
            m.idx(
                if x1 <= x2 {
                    x1 + i
                } else {
                    x1 - i
                },
                y,
            ),
    );
    m.lemma_idx_bounds(x1, y);
    assert(p[0] == m.idx(x1, y));
    assert(p.last() == m.idx(x2, y));
    assert forall|i: int|
        0 <= i < p.len() - 1 implies spec_adjacent(m, #[trigger] p[i], p[i + 1]) && floor_ok(
        m,
        p[i + 1],
    ) by {
        let ai = if x1 <= x2 {
            x1 + i
        } else {
            x1 - i
        };
        let aj = if x1 <= x2 {
            x1 + i + 1
        } else {
            x1 - i - 1
        };
        m.lemma_index_round_trip(ai, y);
        m.lemma_index_round_trip(aj, y);
        assert(m.tile_at(aj, y) == TileType::Floor);
    }
    assert(floor_path(m, p, m.idx(x1, y), m.idx(x2, y)));
}

/// A column of carved floor inside the margin is walkable end to end.
pub proof fn lemma_floor_col_reach(m: GridMap, y1: int, y2: int, x: int)
    requires
        m.wf(),
        1 <= x <= m.width - 2,
        1 <= y1 <= m.height - 2,
        1 <= y2 <= m.height - 2,
        forall|b: int|
            (if y1 <= y2 {
                y1 <= b <= y2
            } else {
                y2 <= b <= y1
            }) ==> #[trigger] m.tile_at(x, b) == TileType::Floor,
    ensures
        floor_reachable(m, m.idx(x, y1), m.idx(x, y2)),
{
    let k = if y1 <= y2 {
        y2 - y1
    } else {
        y1 - y2
    };
    let p = Seq::new(
        (k + 1) as nat,
        |i: int|
            m.idx(
                x,
                if y1 <= y2 {
                    y1 + i
                } else {
                    y1 - i
                },
            ),
    );
    m.lemma_idx_bounds(x, y1);
    assert(p[0] == m.idx(x, y1));
    assert(p.last() == m.idx(x, y2));
    assert forall|i: int|
        0 <= i < p.len() - 1 implies spec_adjacent(m, #[trigger] p[i], p[i + 1]) && floor_ok(
        m,
        p[i + 1],
    ) by {
        let bi = if y1 <= y2 {
            y1 + i
        } else {
            y1 - i
        };
        let bj = if y1 <= y2 {
            y1 + i + 1
        } else {
            y1 - i - 1
        };
        m.lemma_index_round_trip(x, bi);
        m.lemma_index_round_trip(x, bj);
        assert(m.tile_at(x, bj) == TileType::Floor);
    }
    assert(floor_path(m, p, m.idx(x, y1), m.idx(x, y2)));
}

/// Floor walks compose.
pub proof fn lemma_floor_reach_trans(m: GridMap, a: int, b: int, c: int)
    requires
        floor_reachable(m, a, b),
        floor_reachable(m, b, c),
    ensures
        floor_reachable(m, a, c),
{
    let p1 = choose|p: Seq<int>| floor_path(m, p, a, b);
    let p2 = choose|p: Seq<int>| floor_path(m, p, b, c);
    if p2.len() == 1 {
        assert(b == c);
        assert(floor_path(m, p1, a, c));
    } else {
        let p = p1 + p2.subrange(1, p2.len() as int);
        assert(p[0] == p1[0]);
        assert(p.last() == p2.last());
        assert forall|i: int|
            0 <= i < p.len() - 1 implies spec_adjacent(m, #[trigger] p[i], p[i + 1]) && floor_ok(
            m,
            p[i + 1],
        ) by {
            if i < p1.len() - 1 {
                assert(p[i] == p1[i]);
                assert(p[i + 1] == p1[i + 1]);
                assert(spec_adjacent(m, p1[i], p1[i + 1]) && floor_ok(m, p1[i + 1]));
            } else if i == p1.len() - 1 {
                assert(p[i] == p1[i]);
                assert(p1[i] == b);
                assert(p[i + 1] == p2.subrange(1, p2.len() as int)[0]);
                assert(p[i + 1] == p2[1]);
                assert(p2[0] == b);
                assert(spec_adjacent(m, p2[0], p2[1]) && floor_ok(m, p2[1]));
            } else {
                let j = i - p1.len();
                assert(p[i] == p2.subrange(1, p2.len() as int)[j]);
                assert(p[i] == p2[j + 1]);
                assert(p[i + 1] == p2[j + 2]);
                assert(spec_adjacent(m, p2[j + 1], p2[j + 2]) && floor_ok(m, p2[j + 2]));
            }
        }
        assert(floor_path(m, p, a, c));
    }
}

/// Once the blocked flags mirror the walls, a floor walk is a route of
/// the movement graph.
pub proof fn lemma_floor_reach_to_reach(m: GridMap, s: int, g: int)
    requires
        m.wf(),
        forall|i: int|
            0 <= i < m.area() ==> m.blocked_tiles@[i] == (m.tiles@[i] == TileType::Wall),
        floor_reachable(m, s, g),
    ensures
        spec_reachable(m, s, g),
{
    let p = choose|p: Seq<int>| floor_path(m, p, s, g);
    assert forall|i: int| 0 <= i < p.len() - 1 implies spec_edge(m, #[trigger] p[i], p[i + 1]) by {
        assert(spec_adjacent(m, p[i], p[i + 1]) && floor_ok(m, p[i + 1]));
        lemma_margin_in_bounds(m, p[i + 1]);
        assert(m.blocked_tiles@[p[i + 1]] == (m.tiles@[p[i + 1]] == TileType::Wall));
    }
    assert(valid_path(m, p, s, g));
}

/// An exit-valid tile index lies within the grid and decomposes into its
/// column and row.
pub proof fn lemma_exit_in_bounds(m: GridMap, b: int)
    requires
        m.wf(),
        spec_exit_ok(m, b),
    ensures
        0 <= b < m.area(),
        m.spec_in_bounds(col_of(m, b), row_of(m, b)),
        m.idx(col_of(m, b), row_of(m, b)) == b,
{
    let w = m.width as int;
    lemma_fundamental_div_mod(b, w);
    assert(w * (b / w) == (b / w) * w) by (nonlinear_arith);
    m.lemma_idx_bounds(col_of(m, b), row_of(m, b));
}

/// The direction index of an offset `(dx, dy)`; cardinal directions come
/// first, matching [`dir_offset`].
pub open spec fn spec_dir_index(dx: int, dy: int) -> int {
    if dy == 0 {
        if dx == -1 {
            0
        } else {
            1
        }
    } else if dy == -1 {
        if dx == 0 {
            2
        } else if dx == -1 {
            4
        } else {
            5
        }
    } else {
        if dx == 0 {
            3
        } else if dx == -1 {
            6
        } else {
            7
        }
    }
}

/// The offset and step cost of direction `k`: the four cardinal
/// directions (west, east, north, south), then the four diagonals.
pub open spec fn spec_dir_offset(k: int) -> (int, int, u64) {
    if k == 0 {
        (-1, 0, CARDINAL_COST)
    } else if k == 1 {
        (1, 0, CARDINAL_COST)
    } else if k == 2 {
        (0, -1, CARDINAL_COST)
    } else if k == 3 {
        (0, 1, CARDINAL_COST)
    } else if k == 4 {
        (-1, -1, DIAGONAL_COST)
    } else if k == 5 {
        (1, -1, DIAGONAL_COST)
    } else if k == 6 {
        (-1, 1, DIAGONAL_COST)
    } else {
        (1, 1, DIAGONAL_COST)
    }
}

/// The exit list of tile `i` drawn from the first `k` directions, in the
/// fixed direction order of [`spec_dir_offset`]: the map state alone
/// determines the result, its order included.
pub open spec fn spec_exits_up_to(m: GridMap, i: int, k: int) -> Seq<(usize, u64)>
    decreases k,
{
    if k <= 0 {
        Seq::empty()
    } else {
        let pre = spec_exits_up_to(m, i, k - 1);
        let d = spec_dir_offset(k - 1);
        let nx = col_of(m, i) + d.0;
        let ny = row_of(m, i) + d.1;
        if 1 <= nx <= m.width - 2 && 1 <= ny <= m.height - 2 && !m.blocked_tiles@[m.idx(nx, ny)] {
            pre.push((m.idx(nx, ny) as usize, d.2))
        } else {
            pre
        }
    }
}

/// The whole exit list of tile `i`, over all eight directions.
pub open spec fn spec_exits(m: GridMap, i: int) -> Seq<(usize, u64)> {
    spec_exits_up_to(m, i, 8)
}

/// The offset and step cost of direction `k`, inverse to
/// [`spec_dir_index`].
fn dir_offset(k: usize) -> (r: (i32, i32, u64))
    requires
        k < 8,
    ensures
        -1 <= r.0 <= 1,
        -1 <= r.1 <= 1,
        !(r.0 == 0 && r.1 == 0),
        (r.0 as int, r.1 as int, r.2) == spec_dir_offset(k as int),
        spec_dir_index(r.0 as int, r.1 as int) == k,
        r.2 == (if r.0 != 0 && r.1 != 0 {
            DIAGONAL_COST
        } else {
            CARDINAL_COST
        }),
{
    match k {
        0 => (-1, 0, CARDINAL_COST),
        1 => (1, 0, CARDINAL_COST),
        2 => (0, -1, CARDINAL_COST),
        3 => (0, 1, CARDINAL_COST),
        4 => (-1, -1, DIAGONAL_COST),
        5 => (1, -1, DIAGONAL_COST),
        6 => (-1, 1, DIAGONAL_COST),
        _ => (1, 1, DIAGONAL_COST),
    }
}

impl GridMap {
    /// May a step end on `(x, y)`? True exactly when the tile keeps a
    /// one-tile margin from the boundary and is not blocked.
    pub fn is_exit_valid(&self, x: i32, y: i32) -> (r: bool)
        requires
            self.wf(),
        ensures
            r == (1 <= x <= self.width - 2 && 1 <= y <= self.height - 2
                && !self.blocked_tiles@[self.idx(x as int, y as int)]),
    {
        if x < 1 || x > self.width - 2 || y < 1 || y > self.height - 2 {
            return false;
        }
        !self.tile_is_blocked(x, y)
    }

    /// Enumerates the traversable edges leaving tile `i`: exactly the
    /// 8-neighbours that are exit-valid, each with its step cost.
    pub fn get_available_exits(&self, i: usize) -> (r: Vec<(usize, u64)>)
        requires
            self.wf(),
            i < self.area(),
        ensures
            forall|k: int|
                0 <= k < r@.len() ==> spec_edge(*self, i as int, (#[trigger] r@[k]).0 as int)
                    && r@[k].0 < self.area() && r@[k].1 == spec_cost(
                    *self,
                    i as int,
                    r@[k].0 as int,
                ),
            forall|b: int|
                #[trigger] spec_edge(*self, i as int, b) ==> exists|k: int|
                    0 <= k < r@.len() && (#[trigger] r@[k]).0 == b,
            // the result, its order included, is a function of the map state
            r@ == spec_exits(*self, i as int),
    {
        let (x, y) = self.idx_to_xy(i);
        let mut exits: Vec<(usize, u64)> = Vec::new();
        let mut k: usize = 0;
        while k < 8
            invariant
                self.wf(),
                i < self.area(),
                x as int == col_of(*self, i as int),
                y as int == row_of(*self, i as int),
                self.spec_in_bounds(x as int, y as int),
                k <= 8,
                forall|j: int|
                    0 <= j < exits@.len() ==> spec_edge(
                        *self,
                        i as int,
                        (#[trigger] exits@[j]).0 as int,
                    ) && exits@[j].0 < self.area() && exits@[j].1 == spec_cost(
                        *self,
                        i as int,
                        exits@[j].0 as int,
                    ),
                forall|b: int|
                    #[trigger] spec_edge(*self, i as int, b) && spec_dir_index(
                        col_of(*self, b) - x,
                        row_of(*self, b) - y,
                    ) < k ==> exists|j: int| 0 <= j < exits@.len() && (#[trigger] exits@[j]).0 == b,
                exits@ == spec_exits_up_to(*self, i as int, k as int),
            decreases 8 - k,
        {
            let ghost exits_prev = exits;
            let (dx, dy, cost) = dir_offset(k);
            let nx = x + dx;
            let ny = y + dy;
            if self.is_exit_valid(nx, ny) {
                let nidx = self.xy_idx(nx, ny);
                proof {
                    self.lemma_index_round_trip(nx as int, ny as int);
                }
                exits.push((nidx, cost));
            }
            proof {
                assert forall|b: int|
                    #[trigger] spec_edge(*self, i as int, b) && spec_dir_index(
                        col_of(*self, b) - x,
                        row_of(*self, b) - y,
                    ) < k + 1 implies exists|j: int|
                    0 <= j < exits@.len() && (#[trigger] exits@[j]).0 == b by {
                    lemma_exit_in_bounds(*self, b);
                    let dxb = col_of(*self, b) - x;
                    let dyb = row_of(*self, b) - y;
                    if spec_dir_index(dxb, dyb) < k {
                        let j = choose|j: int|
                            0 <= j < exits_prev@.len() && (#[trigger] exits_prev@[j]).0 == b;
                        assert(exits@[j].0 == b);
                    } else {
                        assert(dxb == dx as int && dyb == dy as int);
                        assert(b == self.idx(nx as int, ny as int));
                        assert(exits@.last().0 == b);
                    }
                }
            }
            k += 1;
        }
        proof {
            assert forall|b: int| #[trigger] spec_edge(*self, i as int, b) implies exists|j: int|
                0 <= j < exits@.len() && (#[trigger] exits@[j]).0 == b by {
                lemma_exit_in_bounds(*self, b);
                assert(spec_dir_index(col_of(*self, b) - x, row_of(*self, b) - y) < 8);
            }
        }
        exits
    }
}

/// The result of a path search: on success, `steps` leads from the start
/// tile to the goal tile; on failure it is empty.
pub struct NavigationPath {
    pub success: bool,
    pub steps: Vec<usize>,
}

/// Every tile of a route out of a region closed under traversable edges
/// stays in the region; the region is the set of tiles at finite search
/// distance.
proof fn lemma_closed_reaches(m: GridMap, ds: Seq<u64>, s: int, g: int, p: Seq<int>)
    requires
        m.wf(),
        ds.len() == m.area(),
        valid_path(m, p, s, g),
        ds[s] < UNREACHED,
        forall|a: int, b: int|
            0 <= a < ds.len() && ds[a] < UNREACHED && #[trigger] spec_edge(m, a, b) ==> 0 <= b
                < ds.len() && ds[b] < UNREACHED,
    ensures
        0 <= g < ds.len(),
        ds[g] < UNREACHED,
    decreases p.len(),
{
    if p.len() == 1 {
        assert(g == s);
    } else {
        let q = p.drop_last();
        let g2 = p[p.len() - 2];
        assert(q.last() == g2);
        assert forall|i: int| 0 <= i < q.len() - 1 implies spec_edge(m, #[trigger] q[i], q[i + 1]) by {
            assert(spec_edge(m, p[i], p[i + 1]));
        }
        lemma_closed_reaches(m, ds, s, g2, q);
        assert(spec_edge(m, g2, g));
    }
}

/// Searches for a route from `start` to `goal` over the map's movement
/// graph. Succeeds exactly when the goal is reachable; on success the
/// returned steps begin at `start`, end at `goal`, and each consecutive
/// pair is a traversable edge (so every stepped-onto tile is unblocked at
/// call time).
#[verifier::rlimit(60)]
pub fn find_path(map: &GridMap, start: usize, goal: usize) -> (r: NavigationPath)
    requires
        map.wf(),
        start < map.area(),
        goal < map.area(),
    ensures
        r.success <==> spec_reachable(*map, start as int, goal as int),
        !r.success ==> r.steps@.len() == 0,
        r.success ==> r.steps@.len() >= 1 && r.steps@[0] == start && r.steps@.last() == goal,
        r.success ==> forall|i: int|
            0 <= i < r.steps@.len() - 1 ==> spec_edge(
                *map,
                #[trigger] r.steps@[i] as int,
                r.steps@[i + 1] as int,
            ),
{
    let n: usize = map.tiles.len();
    let mut dist: Vec<u64> = make_fill_u64(n, UNREACHED);
    let mut visited: Vec<bool> = make_fill_bool(n, false);
    let mut parent: Vec<usize> = make_fill_usize(n, 0);
    dist[start] = 0;
    let ghost mut vs: Set<int> = Set::empty();
    proof {
        lemma_int_range(0, n as int);
        broadcast use vstd::set::axiom_set_empty_len;

        lemma_len_subset(vs, set_int_range(0, n as int));
    }
    loop
        invariant
            map.wf(),
            start < n,
            goal < n,
            n == map.area(),
            dist@.len() == n,
            visited@.len() == n,
            parent@.len() == n,
            dist@[start as int] == 0,
            vs.finite(),
            vs.len() <= n,
            forall|a: int| vs.contains(a) ==> 0 <= a < n,
            forall|a: int| 0 <= a < n ==> (visited@[a] <==> vs.contains(a)),
            // every visited tile has been reached
            forall|a: int| 0 <= a < n && visited@[a] ==> dist@[a] < UNREACHED,
            // finite distances are bounded, so relaxation cannot overflow
            forall|a: int|
                0 <= a < n && #[trigger] dist@[a] < UNREACHED ==> dist@[a] <= DIAGONAL_COST
                    * vs.len(),
            // the reached set is closed under edges out of visited tiles
            forall|a: int, b: int|
                0 <= a < n && visited@[a] && 0 <= b < n && #[trigger] spec_edge(*map, a, b)
                    ==> dist@[b] < UNREACHED,
            // every reached tile other than the start records a reached
            // parent one traversable edge back, strictly closer to the start
            forall|a: int|
                0 <= a < n && #[trigger] dist@[a] < UNREACHED && a != start ==> 0 <= parent@[a]
                    < n && spec_edge(*map, parent@[a] as int, a) && dist@[parent@[a] as int]
                    < dist@[a],
        ensures
            forall|a: int| 0 <= a < n && dist@[a] < UNREACHED ==> visited@[a],
        decreases set_int_range(0, n as int).difference(vs).len(),
    {
        let mut best: usize = n;
        let mut best_d: u64 = UNREACHED;
        let mut a: usize = 0;
        while a < n
            invariant
                n == dist@.len(),
                n == visited@.len(),
                a <= n,
                best <= n,
                best == n ==> best_d == UNREACHED,
                best < n ==> !visited@[best as int] && dist@[best as int] == best_d && best_d
                    < UNREACHED,
                best == n ==> forall|t: int|
                    0 <= t < a ==> visited@[t] || dist@[t] == UNREACHED,
            decreases n - a,
        {
            if !visited[a] && dist[a] < best_d {
                best = a;
                best_d = dist[a];
            }
            a += 1;
        }
        if best == n {
            break;
        }
        visited[best] = true;
        proof {
            lemma_int_range(0, n as int);
            set_int_range(0, n as int).lemma_set_insert_diff_decreases(vs, best as int);
            axiom_set_insert_len(vs, best as int);
            vs = vs.insert(best as int);
            lemma_len_subset(vs, set_int_range(0, n as int));
        }
        let exits = map.get_available_exits(best);
        let mut e: usize = 0;
        while e < exits.len()
            invariant
                map.wf(),
                start < n,
                n == map.area(),
                dist@.len() == n,
                visited@.len() == n,
                parent@.len() == n,
                e <= exits@.len(),
                dist@[start as int] == 0,
                best < n,
                visited@[best as int],
                dist@[best as int] == best_d,
                best_d < UNREACHED,
                vs.finite(),
                vs.len() <= n,
                best_d + DIAGONAL_COST <= DIAGONAL_COST * vs.len(),
                forall|j: int|
                    0 <= j < exits@.len() ==> spec_edge(
                        *map,
                        best as int,
                        (#[trigger] exits@[j]).0 as int,
                    ) && exits@[j].0 < n && exits@[j].1 == spec_cost(
                        *map,
                        best as int,
                        exits@[j].0 as int,
                    ),
                // dist never increases, so previously reached tiles stay reached
                forall|t: int| 0 <= t < n && visited@[t] ==> dist@[t] < UNREACHED,
                forall|a: int|
                    0 <= a < n && #[trigger] dist@[a] < UNREACHED ==> dist@[a] <= DIAGONAL_COST
                        * vs.len(),
                forall|t: int, b: int|
                    0 <= t < n && visited@[t] && t != best && 0 <= b < n && #[trigger] spec_edge(
                        *map,
                        t,
                        b,
                    ) ==> dist@[b] < UNREACHED,
                // the edges already relaxed out of `best` are reached
                forall|j: int|
                    0 <= j < e ==> dist@[(#[trigger] exits@[j]).0 as int] < UNREACHED,
                forall|a: int|
                    0 <= a < n && #[trigger] dist@[a] < UNREACHED && a != start ==> 0 <= parent@[a]
                        < n && spec_edge(*map, parent@[a] as int, a) && dist@[parent@[a] as int]
                        < dist@[a],
            decreases exits@.len() - e,
        {
            let (nb, cost) = exits[e];
            match best_d.checked_add(cost) {
                Some(nd) => {
                    if nd < dist[nb] {
                        dist[nb] = nd;
                        parent[nb] = best;
                    }
                },
                None => {},
            }
            proof {
                assert(spec_cost(*map, best as int, exits@[e as int].0 as int) >= CARDINAL_COST);
            }
            e += 1;
        }
        proof {
            assert forall|t: int, b: int|
                0 <= t < n && visited@[t] && 0 <= b < n && #[trigger] spec_edge(
                *map,
                t,
                b,
            ) implies dist@[b] < UNREACHED by {
                if t == best as int {
                    lemma_exit_in_bounds(*map, b);
                    let j = choose|j: int| 0 <= j < exits@.len() && (#[trigger] exits@[j]).0 == b;
                    assert(dist@[exits@[j].0 as int] < UNREACHED);
                }
            }
        }
    }
    if dist[goal] < UNREACHED {
        // walk the recorded parents back from the goal, then reverse
        let mut rev: Vec<usize> = Vec::new();
        rev.push(goal);
        let mut cur: usize = goal;
        while cur != start
            invariant
                map.wf(),
                start < n,
                n == map.area(),
                dist@.len() == n,
                parent@.len() == n,
                dist@[start as int] == 0,
                cur < n,
                dist@[cur as int] < UNREACHED,
                rev@.len() >= 1,
                rev@[0] == goal,
                rev@.last() == cur,
                forall|i: int| 0 <= i < rev@.len() ==> (#[trigger] rev@[i]) < n,
                forall|i: int|
                    0 <= i < rev@.len() - 1 ==> spec_edge(
                        *map,
                        rev@[i + 1] as int,
                        (#[trigger] rev@[i]) as int,
                    ),
                forall|a: int|
                    0 <= a < n && #[trigger] dist@[a] < UNREACHED && a != start ==> 0 <= parent@[a]
                        < n && spec_edge(*map, parent@[a] as int, a) && dist@[parent@[a] as int]
                        < dist@[a],
            decreases dist@[cur as int],
        {
            let p = parent[cur];
            rev.push(p);
            cur = p;
        }
        let mut steps: Vec<usize> = Vec::new();
        let mut k: usize = rev.len();
        while k > 0
            invariant
                map.wf(),
                n == map.area(),
                rev@.len() >= 1,
                rev@[0] == goal,
                rev@.last() == start,
                goal < n,
                forall|i: int| 0 <= i < rev@.len() ==> (#[trigger] rev@[i]) < n,
                forall|i: int|
                    0 <= i < rev@.len() - 1 ==> spec_edge(
                        *map,
                        rev@[i + 1] as int,
                        (#[trigger] rev@[i]) as int,
                    ),
                k <= rev@.len(),
                steps@.len() == rev@.len() - k,
                forall|i: int|
                    0 <= i < steps@.len() ==> (#[trigger] steps@[i]) == rev@[rev@.len() - 1 - i],
            decreases k,
        {
            k -= 1;
            steps.push(rev[k]);
        }
        proof {
            let l = rev@.len() as int;
            assert(steps@[0] == rev@[l - 1]);
            assert(steps@[l - 1] == rev@[0]);
            assert forall|i: int|
                0 <= i < steps@.len() - 1 implies spec_edge(
                *map,
                (#[trigger] steps@[i]) as int,
                steps@[i + 1] as int,
            ) by {
                assert(steps@[i] == rev@[l - 1 - i]);
                assert(steps@[i + 1] == rev@[l - 1 - (i + 1)]);
                assert(spec_edge(*map, rev@[(l - 2 - i) + 1] as int, rev@[l - 2 - i] as int));
            }
            let pm = steps@.map_values(|u: usize| u as int);
            assert(pm[0] == steps@[0] as int);
            assert(pm.last() == steps@[l - 1] as int);
            assert forall|i: int|
                0 <= i < pm.len() - 1 implies spec_edge(*map, #[trigger] pm[i], pm[i + 1]) by {
                assert(pm[i] == steps@[i] as int);
                assert(pm[i + 1] == steps@[i + 1] as int);
            }
            assert(valid_path(*map, pm, start as int, goal as int));
        }
        NavigationPath { success: true, steps }
    } else {
        proof {
            if spec_reachable(*map, start as int, goal as int) {
                let p = choose|p: Seq<int>| valid_path(*map, p, start as int, goal as int);
                assert forall|a: int, b: int|
                    0 <= a < dist@.len() && dist@[a] < UNREACHED && #[trigger] spec_edge(
                        *map,
                        a,
                        b,
                    ) implies 0 <= b < dist@.len() && dist@[b] < UNREACHED by {
                    lemma_exit_in_bounds(*map, b);
                }
                lemma_closed_reaches(*map, dist@, start as int, goal as int, p);
            }
        }
        NavigationPath { success: false, steps: Vec::new() }
    }
}

/// A goal tile fenced in by blocked tiles cannot be reached: every route
/// would have to step onto the goal from an adjacent tile, and a route can
/// only pass through unblocked tiles. With [`find_path`]'s contract this
/// means the search reports failure, with no steps, for such a goal.
pub proof fn lemma_enclosed_goal_unreachable(m: GridMap, s: int, g: int)
    requires
        m.wf(),
        0 <= s < m.area(),
        0 <= g < m.area(),
        s != g,
        !spec_adjacent(m, s, g),
        forall|b: int|
            0 <= b < m.area() && #[trigger] spec_adjacent(m, b, g) ==> m.blocked_tiles@[b],
    ensures
        !spec_reachable(m, s, g),
{
    if spec_reachable(m, s, g) {
        let p = choose|p: Seq<int>| valid_path(m, p, s, g);
        assert(p.len() >= 2);
        let pre = p[p.len() - 2];
        assert(spec_edge(m, pre, g));
        if p.len() == 2 {
            assert(pre == s);
        } else {
            assert(spec_edge(m, p[p.len() - 3], pre));
            lemma_exit_in_bounds(m, pre);
        }
    }
}

/// A run of `n` copies of `v`.
fn make_fill_u64(n: usize, v: u64) -> (r: Vec<u64>)
    ensures
        r@.len() == n,
        forall|i: int| 0 <= i < n ==> r@[i] == v,
{
    let mut out: Vec<u64> = Vec::new();
    let mut i: usize = 0;
    while i < n
        invariant
            i <= n,
            out@.len() == i,
            forall|j: int| 0 <= j < i ==> out@[j] == v,
        decreases n - i,
    {
        out.push(v);
        i += 1;
    }
    out
}

/// A run of `n` copies of `v`.
fn make_fill_bool(n: usize, v: bool) -> (r: Vec<bool>)
    ensures
        r@.len() == n,
        forall|i: int| 0 <= i < n ==> r@[i] == v,
{
    let mut out: Vec<bool> = Vec::new();
    let mut i: usize = 0;
    while i < n
        invariant
            i <= n,
            out@.len() == i,
            forall|j: int| 0 <= j < i ==> out@[j] == v,
        decreases n - i,
    {
        out.push(v);
        i += 1;
    }
    out
}

/// A run of `n` copies of `v`.
fn make_fill_usize(n: usize, v: usize) -> (r: Vec<usize>)
    ensures
        r@.len() == n,
        forall|i: int| 0 <= i < n ==> r@[i] == v,
{
    let mut out: Vec<usize> = Vec::new();
    let mut i: usize = 0;
    while i < n
        invariant
            i <= n,
            out@.len() == i,
            forall|j: int| 0 <= j < i ==> out@[j] == v,
        decreases n - i,
    {
        out.push(v);
        i += 1;
    }
    out
}

} // verus!
