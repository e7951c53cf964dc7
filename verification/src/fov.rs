//! Field-of-view computation by ray marching: a tile is visible from an
//! origin when it lies within the viewer's range (Euclidean) and the
//! straight line between the two tiles crosses no wall.

use vstd::prelude::*;
use vstd::arithmetic::div_mod::lemma_div_pos_is_pos;
use vstd::arithmetic::div_mod::lemma_multiply_divide_lt;
use vstd::arithmetic::mul::lemma_mul_inequality;
use crate::components::Position;
use crate::grid_map::GridMap;
use crate::grid_map::TileType;

verus! {

/// Number of samples on the ray from `(ox, oy)` to `(tx, ty)`: the
/// Chebyshev distance between the two tiles.
pub open spec fn ray_len(ox: int, oy: int, tx: int, ty: int) -> int {
    let dx = if tx >= ox {
        tx - ox
    } else {
        ox - tx
    };
    let dy = if ty >= oy {
        ty - oy
    } else {
        oy - ty
    };
    if dx >= dy {
        dx
    } else {
        dy
    }
}

/// One coordinate of the `i`-th of `n` samples on the ray from `o` to `t`:
/// `o + (i * (t - o)) / n`, rounded half away from `o`.
pub open spec fn ray_coord(o: int, t: int, i: int, n: int) -> int {
    if t >= o {
        o + (2 * i * (t - o) + n) / (2 * n)
    } else {
        o - (2 * i * (o - t) + n) / (2 * n)
    }
}

/// No sample strictly between the origin and the target is a wall. The
/// target itself may be a wall: wall faces are visible.
pub open spec fn ray_clear(m: GridMap, ox: int, oy: int, tx: int, ty: int) -> bool {
    let n = ray_len(ox, oy, tx, ty);
    forall|i: int|
        0 < i < n ==> #[trigger] m.tile_at(ray_coord(ox, tx, i, n), ray_coord(oy, ty, i, n))
            != TileType::Wall
}

/// The field-of-view relation: `(tx, ty)` is in bounds, within `range` of
/// the origin, and the connecting ray is clear.
pub open spec fn fov_visible(m: GridMap, ox: int, oy: int, range: int, tx: int, ty: int) -> bool {
    &&& m.spec_in_bounds(tx, ty)
    &&& (tx - ox) * (tx - ox) + (ty - oy) * (ty - oy) <= range * range
    &&& ray_clear(m, ox, oy, tx, ty)
}

/// A square root bound: a number whose square is at most `r * r` lies in
/// `[-r, r]`.
proof fn lemma_abs_le_of_sq_le(a: int, r: int)
    requires
        a * a <= r * r,
        0 <= r,
    ensures
        -r <= a <= r,
{
    assert(-r <= a <= r) by (nonlinear_arith)
        requires
            a * a <= r * r,
            0 <= r,
    ;
}

/// Ray samples stay between the two endpoint coordinates.
proof fn lemma_ray_coord_bounds(o: int, t: int, i: int, n: int)
    requires
        1 <= n,
        0 <= i <= n,
        (if t >= o {
            t - o
        } else {
            o - t
        }) <= n,
    ensures
        (if t >= o {
            o <= ray_coord(o, t, i, n) <= t
        } else {
            t <= ray_coord(o, t, i, n) <= o
        }),
{
    let d = if t >= o {
        t - o
    } else {
        o - t
    };
    let q = (2 * i * d + n) / (2 * n);
    lemma_div_pos_is_pos(2 * i * d + n, 2 * n);
    assert(2 * i * d + n < 2 * n * (d + 1)) by (nonlinear_arith)
        requires
            1 <= n,
            0 <= i <= n,
            0 <= d <= n,
    ;
    lemma_multiply_divide_lt(2 * i * d + n, 2 * n, d + 1);
    assert(0 <= q <= d);
}

/// The `i`-th ray sample coordinate, computed to match [`ray_coord`].
fn ray_sample(o: i32, t: i32, i: i64, n: i64) -> (r: i32)
    requires
        1 <= n <= 0x4000_0000,
        0 <= i <= n,
        (if t >= o {
            (t as int) - (o as int)
        } else {
            (o as int) - (t as int)
        }) <= n,
    ensures
        r == ray_coord(o as int, t as int, i as int, n as int),
        (if t >= o {
            o <= r <= t
        } else {
            t <= r <= o
        }),
{
    proof {
        lemma_ray_coord_bounds(o as int, t as int, i as int, n as int);
    }
    let diff: i64 = (t as i64) - (o as i64);
    let d: u64 = if diff >= 0 {
        diff as u64
    } else {
        (-diff) as u64
    };
    let nn: u64 = n as u64;
    proof {
        assert(2 * (i as int) * (d as int) + (nn as int) < 0x8000_0000_0000_0000)
            by (nonlinear_arith)
            requires
                0 <= i <= 0x4000_0000,
                0 <= d <= 0x4000_0000,
                1 <= nn <= 0x4000_0000,
        ;
    }
    let q: u64 = (2 * (i as u64) * d + nn) / (2 * nn);
    if t >= o {
        o + (q as i32)
    } else {
        o - (q as i32)
    }
}

/// Does the ray from the origin to the target cross a wall strictly
/// between the two?
fn ray_clear_exec(map: &GridMap, ox: i32, oy: i32, tx: i32, ty: i32) -> (res: bool)
    requires
        map.wf(),
        map.spec_in_bounds(ox as int, oy as int),
        map.spec_in_bounds(tx as int, ty as int),
    ensures
        res == ray_clear(*map, ox as int, oy as int, tx as int, ty as int),
{
    proof {
        assert(map.width <= 0x4000_0000 && map.height <= 0x4000_0000) by (nonlinear_arith)
            requires
                3 <= map.width,
                3 <= map.height,
                map.width * map.height <= i32::MAX,
        ;
    }
    let dx: i64 = if tx >= ox {
        (tx as i64) - (ox as i64)
    } else {
        (ox as i64) - (tx as i64)
    };
    let dy: i64 = if ty >= oy {
        (ty as i64) - (oy as i64)
    } else {
        (oy as i64) - (ty as i64)
    };
    let n: i64 = if dx >= dy {
        dx
    } else {
        dy
    };
    proof {
        assert(n == ray_len(ox as int, oy as int, tx as int, ty as int));
    }
    if n <= 1 {
        return true;
    }
    let mut i: i64 = 1;
    while i < n
        invariant
            map.wf(),
            map.spec_in_bounds(ox as int, oy as int),
            map.spec_in_bounds(tx as int, ty as int),
            1 <= i <= n,
            2 <= n <= 0x4000_0000,
            n == ray_len(ox as int, oy as int, tx as int, ty as int),
            forall|j: int|
                0 < j < i ==> #[trigger] map.tile_at(
                    ray_coord(ox as int, tx as int, j, n as int),
                    ray_coord(oy as int, ty as int, j, n as int),
                ) != TileType::Wall,
        decreases n - i,
    {
        let px = ray_sample(ox, tx, i, n);
        let py = ray_sample(oy, ty, i, n);
        if matches!(map.get_tile(px, py), TileType::Wall) {
            return false;
        }
        i += 1;
    }
    true
}

/// Visibility depends on the terrain alone: two maps with the same
/// dimensions and tiles agree on every field-of-view question, whatever
/// their fog-of-war or blockage state.
pub proof fn lemma_fov_same(m1: GridMap, m2: GridMap, ox: int, oy: int, range: int, tx: int, ty: int)
    requires
        m1.width == m2.width,
        m1.height == m2.height,
        m1.tiles@ == m2.tiles@,
    ensures
        fov_visible(m1, ox, oy, range, tx, ty) == fov_visible(m2, ox, oy, range, tx, ty),
{
    let n = ray_len(ox, oy, tx, ty);
    if ray_clear(m1, ox, oy, tx, ty) {
        assert forall|i: int|
            0 < i < n implies #[trigger] m2.tile_at(
            ray_coord(ox, tx, i, n),
            ray_coord(oy, ty, i, n),
        ) != TileType::Wall by {
            assert(m1.tile_at(ray_coord(ox, tx, i, n), ray_coord(oy, ty, i, n))
                != TileType::Wall);
        }
    }
    if ray_clear(m2, ox, oy, tx, ty) {
        assert forall|i: int|
            0 < i < n implies #[trigger] m1.tile_at(
            ray_coord(ox, tx, i, n),
            ray_coord(oy, ty, i, n),
        ) != TileType::Wall by {
            assert(m2.tile_at(ray_coord(ox, tx, i, n), ray_coord(oy, ty, i, n))
                != TileType::Wall);
        }
    }
}

/// Keeps only the tiles strictly inside the map's outer boundary ring, so
/// a computed view never includes a boundary tile.
pub fn clip_to_interior(map: &GridMap, v: &Vec<Position>) -> (r: Vec<Position>)
    requires
        map.wf(),
        forall|k: int, l: int| #![trigger v@[k], v@[l]] 0 <= k < l < v@.len() ==> v@[k] != v@[l],
    ensures
        forall|p: Position|
            #[trigger] r@.contains(p) <==> v@.contains(p) && map.spec_interior(
                p.x as int,
                p.y as int,
            ),
        forall|k: int, l: int| #![trigger r@[k], r@[l]] 0 <= k < l < r@.len() ==> r@[k] != r@[l],
{
    let mut out: Vec<Position> = Vec::new();
    let w = map.width;
    let h = map.height;
    let mut i: usize = 0;
    while i < v.len()
        invariant
            map.wf(),
            i <= v@.len(),
            w == map.width,
            h == map.height,
            forall|p: Position|
                #[trigger] out@.contains(p) <==> (exists|j: int| 0 <= j < i && v@[j] == p)
                    && map.spec_interior(p.x as int, p.y as int),
            forall|k: int, l: int| #![trigger v@[k], v@[l]] 0 <= k < l < v@.len() ==> v@[k] != v@[l],
            forall|k: int, l: int|
                #![trigger out@[k], out@[l]]
                0 <= k < l < out@.len() ==> out@[k] != out@[l],
        decreases v@.len() - i,
    {
        let ghost out_prev = out;
        let p = v[i];
        if p.x > 0 && p.x < w - 1 && p.y > 0 && p.y < h - 1 {
            out.push(p);
        }
        proof {
            assert forall|k: int, l: int|
                #![trigger out@[k], out@[l]]
                0 <= k < l < out@.len() implies out@[k] != out@[l] by {
                if l == out@.len() - 1 && out@.len() > out_prev@.len() {
                    assert(out@[l] == v@[i as int]);
                    assert(out_prev@.contains(out_prev@[k]));
                    let j = choose|j: int| 0 <= j < i && v@[j] == out_prev@[k];
                    assert(v@[j] != v@[i as int]);
                }
            }
            assert forall|q: Position|
                #[trigger] out@.contains(q) <==> (exists|j: int| 0 <= j < i + 1 && v@[j] == q)
                    && map.spec_interior(q.x as int, q.y as int) by {
                if out@.contains(q) {
                    let k = choose|k: int| 0 <= k < out@.len() && out@[k] == q;
                    if k < out_prev@.len() {
                        assert(out_prev@[k] == q);
                        assert(out_prev@.contains(q));
                    } else {
                        assert(q == v@[i as int]);
                    }
                } else {
                    if (exists|j: int| 0 <= j < i + 1 && v@[j] == q) && map.spec_interior(
                        q.x as int,
                        q.y as int,
                    ) {
                        let j = choose|j: int| 0 <= j < i + 1 && v@[j] == q;
                        if j < i {
                            assert(out_prev@.contains(q));
                            let k = choose|k: int| 0 <= k < out_prev@.len() && out_prev@[k] == q;
                            assert(out@[k] == q);
                            assert(out@.contains(q));
                        } else {
                            assert(out@.last() == q);
                            assert(out@.contains(q));
                        }
                    }
                }
            }
        }
        i += 1;
    }
    proof {
        assert forall|p: Position|
            #[trigger] v@.contains(p) && map.spec_interior(p.x as int, p.y as int) implies out@
            .contains(p) by {
            let j = choose|j: int| 0 <= j < v@.len() && v@[j] == p;
            assert(exists|j2: int| 0 <= j2 < v@.len() && v@[j2] == p);
        }
    }
    out
}

/// Computes the set of tiles visible from `(ox, oy)` out to `range`: the
/// result holds exactly the tiles satisfying [`fov_visible`].
pub fn field_of_view(map: &GridMap, ox: i32, oy: i32, range: i32) -> (r: Vec<Position>)
    requires
        map.wf(),
        map.spec_in_bounds(ox as int, oy as int),
        0 <= range <= 0x10_0000,
    ensures
        forall|k: int|
            0 <= k < r@.len() ==> fov_visible(
                *map,
                ox as int,
                oy as int,
                range as int,
                (#[trigger] r@[k]).x as int,
                r@[k].y as int,
            ),
        forall|a: i32, b: i32|
            #[trigger] fov_visible(*map, ox as int, oy as int, range as int, a as int, b as int)
                ==> r@.contains(Position { x: a, y: b }),
        forall|k: int, l: int|
            #![trigger r@[k], r@[l]]
            0 <= k < l < r@.len() ==> r@[k] != r@[l],
{
    let mut result: Vec<Position> = Vec::new();
    let ox64: i64 = ox as i64;
    let oy64: i64 = oy as i64;
    let r64: i64 = range as i64;
    let w64: i64 = { map.get_dimensions().0 } as i64;
    let h64: i64 = { map.get_dimensions().1 } as i64;
    let mut ty: i64 = oy64 - r64;
    proof {
        assert forall|a: i32, b: i32|
            #[trigger] fov_visible(*map, ox as int, oy as int, range as int, a as int, b as int)
                && (b as int) < ty implies result@.contains(Position { x: a, y: b }) by {
            assert((a as int - ox as int) * (a as int - ox as int) >= 0 && (b as int - oy
                    as int) * (b as int - oy as int) >= 0) by (nonlinear_arith);
            lemma_abs_le_of_sq_le(b as int - oy as int, range as int);
        }
    }
    while ty <= oy64 + r64
        invariant
            map.wf(),
            map.spec_in_bounds(ox as int, oy as int),
            ox64 == ox as int,
            oy64 == oy as int,
            r64 == range as int,
            0 <= r64 <= 0x10_0000,
            w64 == map.width as int,
            h64 == map.height as int,
            oy64 - r64 <= ty <= oy64 + r64 + 1,
            forall|k: int|
                0 <= k < result@.len() ==> fov_visible(
                    *map,
                    ox as int,
                    oy as int,
                    range as int,
                    (#[trigger] result@[k]).x as int,
                    result@[k].y as int,
                ),
            forall|a: i32, b: i32|
                #[trigger] fov_visible(*map, ox as int, oy as int, range as int, a as int, b as int)
                    && (b as int) < ty ==> result@.contains(Position { x: a, y: b }),
            forall|k: int| 0 <= k < result@.len() ==> ((#[trigger] result@[k]).y as int) < ty,
            forall|k: int, l: int|
                #![trigger result@[k], result@[l]]
                0 <= k < l < result@.len() ==> result@[k] != result@[l],
        decreases oy64 + r64 + 1 - ty,
    {
        let mut tx: i64 = ox64 - r64;
        proof {
            assert forall|a: i32, b: i32|
                #[trigger] fov_visible(
                    *map,
                    ox as int,
                    oy as int,
                    range as int,
                    a as int,
                    b as int,
                ) && ((b as int) < ty || ((b as int) == ty && (a as int)
                    < tx)) implies result@.contains(Position { x: a, y: b }) by {
                assert((a as int - ox as int) * (a as int - ox as int) >= 0 && (b as int - oy
                    as int) * (b as int - oy as int) >= 0) by (nonlinear_arith);
            lemma_abs_le_of_sq_le(a as int - ox as int, range as int);
            }
        }
        while tx <= ox64 + r64
            invariant
                map.wf(),
                map.spec_in_bounds(ox as int, oy as int),
                ox64 == ox as int,
                oy64 == oy as int,
                r64 == range as int,
                0 <= r64 <= 0x10_0000,
                w64 == map.width as int,
                h64 == map.height as int,
                oy64 - r64 <= ty <= oy64 + r64,
                ox64 - r64 <= tx <= ox64 + r64 + 1,
                forall|k: int|
                    0 <= k < result@.len() ==> fov_visible(
                        *map,
                        ox as int,
                        oy as int,
                        range as int,
                        (#[trigger] result@[k]).x as int,
                        result@[k].y as int,
                    ),
                forall|a: i32, b: i32|
                    #[trigger] fov_visible(
                        *map,
                        ox as int,
                        oy as int,
                        range as int,
                        a as int,
                        b as int,
                    ) && ((b as int) < ty || ((b as int) == ty && (a as int) < tx))
                        ==> result@.contains(Position { x: a, y: b }),
                forall|k: int|
                    0 <= k < result@.len() ==> (((#[trigger] result@[k]).y as int) < ty || ((
                    result@[k].y as int) == ty && (result@[k].x as int) < tx)),
                forall|k: int, l: int|
                    #![trigger result@[k], result@[l]]
                    0 <= k < l < result@.len() ==> result@[k] != result@[l],
            decreases ox64 + r64 + 1 - tx,
        {
            let ghost result_prev = result;
            if 0 <= tx && tx < w64 && 0 <= ty && ty < h64 {
                let dx: i64 = tx - ox64;
                let dy: i64 = ty - oy64;
                proof {
                    assert(dx * dx <= 0x100_0000_0000 && dy * dy <= 0x100_0000_0000 && r64 * r64
                        <= 0x100_0000_0000 && dx * dx >= 0 && dy * dy >= 0) by (nonlinear_arith)
                        requires
                            -0x10_0000 <= dx <= 0x10_0000,
                            -0x10_0000 <= dy <= 0x10_0000,
                            0 <= r64 <= 0x10_0000,
                    ;
                }
                if dx * dx + dy * dy <= r64 * r64 {
                    let px: i32 = tx as i32;
                    let py: i32 = ty as i32;
                    if ray_clear_exec(map, ox, oy, px, py) {
                        result.push(Position { x: px, y: py });
                    }
                }
            }
            proof {
                assert forall|a: i32, b: i32|
                    #[trigger] fov_visible(
                        *map,
                        ox as int,
                        oy as int,
                        range as int,
                        a as int,
                        b as int,
                    ) && ((b as int) < ty || ((b as int) == ty && (a as int) < tx
                        + 1)) implies result@.contains(Position { x: a, y: b }) by {
                    if (b as int) == ty && (a as int) == tx {
                        assert(result@.last() == (Position { x: a, y: b }));
                    } else {
                        assert(result_prev@.contains(Position { x: a, y: b }));
                        let j = choose|j: int|
                            0 <= j < result_prev@.len() && result_prev@[j] == (Position {
                                x: a,
                                y: b,
                            });
                        assert(result@[j] == (Position { x: a, y: b }));
                    }
                }
            }
            tx += 1;
        }
        proof {
            assert forall|a: i32, b: i32|
                #[trigger] fov_visible(
                    *map,
                    ox as int,
                    oy as int,
                    range as int,
                    a as int,
                    b as int,
                ) && (b as int) < ty + 1 implies result@.contains(Position { x: a, y: b }) by {
                assert((a as int - ox as int) * (a as int - ox as int) >= 0 && (b as int - oy
                    as int) * (b as int - oy as int) >= 0) by (nonlinear_arith);
            lemma_abs_le_of_sq_le(a as int - ox as int, range as int);
            }
        }
        ty += 1;
    }
    proof {
        assert forall|a: i32, b: i32|
            #[trigger] fov_visible(
                *map,
                ox as int,
                oy as int,
                range as int,
                a as int,
                b as int,
            ) implies result@.contains(Position { x: a, y: b }) by {
            assert((a as int - ox as int) * (a as int - ox as int) >= 0 && (b as int - oy
                    as int) * (b as int - oy as int) >= 0) by (nonlinear_arith);
            lemma_abs_le_of_sq_le(b as int - oy as int, range as int);
        }
    }
    result
}

} // verus!
