//! Signed-distance collision probe. Given a continuous target position, the
//! probe scans the 5-by-5 window of cells around the position's cell for the
//! nearest cell whose walkability differs from the cell the position is in,
//! and reports the distance to that boundary (negative while inside walkable
//! space) together with a push-out direction. With no boundary inside the
//! window it saturates at two tiles deep, with a zero push direction.

use vstd::prelude::*;

verus! {

use crate::geom::{
    IVec2,
    Vec2Fx,
    MAX_DIM,
    clamp_i,
    sqrt_floor,
    lemma_sqrt_floor_nonneg,
    normalize_fx_spec,
    normalize_fx,
    isqrt64,
    round_fx,
    MAX_POS_FX,
};
use crate::grid::Grid;
use crate::tile::{TileType, is_walkable, is_walkable_spec};

/// The saturating probe reading, in fixed-point units: two tiles.
pub const SDF_SATURATION_FX: i64 = 2000;

/// Squared distance, in squared fixed-point units, from point `(px, py)` to
/// the closed unit square centered at cell `(cx, cy)` (the cell center
/// plus or minus half a tile per axis).
pub open spec fn closest_dsq(px: int, py: int, cx: int, cy: int) -> int {
    let qx = clamp_i(px, cx * 1000 - 500, cx * 1000 + 500);
    let qy = clamp_i(py, cy * 1000 - 500, cy * 1000 + 500);
    (px - qx) * (px - qx) + (py - qy) * (py - qy)
}

/// Squared distance from a position to the unit square of a cell.
pub fn closest_dsq_to_tile(pos: Vec2Fx, tile: IVec2) -> (d: i64)
    requires
        -MAX_POS_FX <= pos.x <= MAX_POS_FX,
        -MAX_POS_FX <= pos.y <= MAX_POS_FX,
        -1_050_000 <= tile.x <= 1_050_000,
        -1_050_000 <= tile.y <= 1_050_000,
    ensures
        d as int == closest_dsq(pos.x as int, pos.y as int, tile.x as int, tile.y as int),
        0 <= d <= 9_000_000_000_000_000_000,
{
    let cx: i64 = (tile.x as i64) * 1000;
    let cy: i64 = (tile.y as i64) * 1000;
    let qx: i64 = if pos.x < cx - 500 {
        cx - 500
    } else if pos.x > cx + 500 {
        cx + 500
    } else {
        pos.x
    };
    let qy: i64 = if pos.y < cy - 500 {
        cy - 500
    } else if pos.y > cy + 500 {
        cy + 500
    } else {
        pos.y
    };
    let dx: i64 = pos.x - qx;
    let dy: i64 = pos.y - qy;
    let ax: u64 = if dx >= 0 {
        dx as u64
    } else {
        (-dx) as u64
    };
    let ay: u64 = if dy >= 0 {
        dy as u64
    } else {
        (-dy) as u64
    };
    proof {
        assert((ax as int) * (ax as int) == (dx as int) * (dx as int)) by (nonlinear_arith)
            requires
                ax as int == dx as int || ax as int == -(dx as int),
        ;
        assert((ay as int) * (ay as int) == (dy as int) * (dy as int)) by (nonlinear_arith)
            requires
                ay as int == dy as int || ay as int == -(dy as int),
        ;
        assert((ax as int) * (ax as int) <= 2_100_000_000 * 2_100_000_000) by (nonlinear_arith)
            requires
                0 <= ax as int <= 2_100_000_000,
        ;
        assert((ay as int) * (ay as int) <= 2_100_000_000 * 2_100_000_000) by (nonlinear_arith)
            requires
                0 <= ay as int <= 2_100_000_000,
        ;
    }
    let s: u64 = ax * ax + ay * ay;
    s as i64
}

/// Distance (fixed-point units, rounded down) from a position to the unit
/// square of a cell: zero on or inside the square, else the Euclidean
/// distance to the nearest point of the square.
pub fn closest_dist_to_tile(pos_in_map: Vec2Fx, map_tile_index: IVec2) -> (d: i64)
    requires
        -MAX_POS_FX <= pos_in_map.x <= MAX_POS_FX,
        -MAX_POS_FX <= pos_in_map.y <= MAX_POS_FX,
        -1_050_000 <= map_tile_index.x <= 1_050_000,
        -1_050_000 <= map_tile_index.y <= 1_050_000,
    ensures
        d as int == sqrt_floor(
            closest_dsq(
                pos_in_map.x as int,
                pos_in_map.y as int,
                map_tile_index.x as int,
                map_tile_index.y as int,
            ),
        ),
        d >= 0,
{
    let dsq: i64 = closest_dsq_to_tile(pos_in_map, map_tile_index);
    let r: u64 = isqrt64(dsq as u64);
    r as i64
}

/// A cell counts as free space for the probe: its tile is walkable, or it is
/// the exempted cell (the cell of a bomb its owner is still standing on).
pub open spec fn cell_walkable(g: Grid, x: int, y: int, extra: Option<IVec2>) -> bool {
    is_walkable_spec(g.spec_tile_at(x, y)) || (extra matches Some(e) && e.x == x && e.y == y)
}

/// The cell the probe scans around: the position's cell, or `(0, 0)` as the
/// deterministic fallback when the position rounds outside the grid.
pub open spec fn probe_center(g: Grid, pos: Vec2Fx) -> (int, int) {
    let x = round_fx(pos.x as int);
    let y = round_fx(pos.y as int);
    if g.spec_contains(x, y) {
        (x, y)
    } else {
        (0, 0)
    }
}

/// Whether the probe treats the target position as being in free space:
/// the walkability of the center cell, true when the center cell cannot be
/// looked up.
pub open spec fn probe_inside(g: Grid, pos: Vec2Fx, extra: Option<IVec2>) -> bool {
    let c = probe_center(g, pos);
    if g.spec_contains(c.0, c.1) {
        cell_walkable(g, c.0, c.1, extra)
    } else {
        true
    }
}

/// Horizontal offset of window slot `k` (0..25): the window is walked with
/// the vertical offset outermost.
pub open spec fn win_dx(k: int) -> int {
    k % 5 - 2
}

/// Vertical offset of window slot `k`.
pub open spec fn win_dy(k: int) -> int {
    k / 5 - 2
}

/// Whether window slot `k` holds a cell inside the grid whose walkability
/// differs from the region the probed position is in.
pub open spec fn differing_at(g: Grid, pos: Vec2Fx, extra: Option<IVec2>, k: int) -> bool {
    let c = probe_center(g, pos);
    let x = c.0 + win_dx(k);
    let y = c.1 + win_dy(k);
    g.spec_contains(x, y) && cell_walkable(g, x, y, extra) != probe_inside(g, pos, extra)
}

/// The minimum squared boundary distance over the first `k` window slots,
/// with the first cell attaining it (in window order): `(dsq, x, y)`.
pub open spec fn probe_min_upto(g: Grid, pos: Vec2Fx, extra: Option<IVec2>, k: int) -> Option<
    (int, int, int),
>
    decreases k,
{
    if k <= 0 {
        None
    } else {
        let prev = probe_min_upto(g, pos, extra, k - 1);
        if !differing_at(g, pos, extra, k - 1) {
            prev
        } else {
            let c = probe_center(g, pos);
            let x = c.0 + win_dx(k - 1);
            let y = c.1 + win_dy(k - 1);
            let d = closest_dsq(pos.x as int, pos.y as int, x, y);
            match prev {
                None => Some((d, x, y)),
                Some(p) => if d < p.0 {
                    Some((d, x, y))
                } else {
                    prev
                },
            }
        }
    }
}

/// Full specification of the probe: the signed distance (negative in free
/// space, saturating at two tiles with no boundary in the window) and the
/// fixed-point unit push direction from the boundary cell's center toward
/// the probed position (zero at distance zero or when saturated).
pub open spec fn map_sdf_spec(g: Grid, pos: Vec2Fx, extra: Option<IVec2>) -> (int, (int, int)) {
    let inside = probe_inside(g, pos, extra);
    match probe_min_upto(g, pos, extra, 25) {
        None => (
            (if inside {
                -(SDF_SATURATION_FX as int)
            } else {
                SDF_SATURATION_FX as int
            }),
            (0int, 0int),
        ),
        Some(m) => {
            let dist = sqrt_floor(m.0);
            let s = if inside { -dist } else { dist };
            if s == 0 {
                (0int, (0int, 0int))
            } else {
                (s, normalize_fx_spec(pos.x - m.1 * 1000, pos.y - m.2 * 1000))
            }
        },
    }
}

/// Scans the probe window around `pos_in_map` and returns the signed
/// distance to the nearest walkability boundary and the push-out direction,
/// as given by `map_sdf_spec`. The `extra_free_in_map` cell counts as free
/// space; callers pass the cell of the bomb an actor is still standing on.
pub fn map_sdf(map: &Grid, pos_in_map: Vec2Fx, extra_free_in_map: Option<IVec2>) -> (r: (
    i64,
    Vec2Fx,
))
    requires
        map.wf(),
        -MAX_POS_FX <= pos_in_map.x <= MAX_POS_FX,
        -MAX_POS_FX <= pos_in_map.y <= MAX_POS_FX,
    ensures
        r.0 as int == map_sdf_spec(*map, pos_in_map, extra_free_in_map).0,
        r.1.x as int == map_sdf_spec(*map, pos_in_map, extra_free_in_map).1.0,
        r.1.y as int == map_sdf_spec(*map, pos_in_map, extra_free_in_map).1.1,
        -1000 <= r.1.x <= 1000,
        -1000 <= r.1.y <= 1000,
{
    let ghost g = *map;
    let center: IVec2 = match map.get_index_from_position(pos_in_map) {
        Some(c) => c,
        None => IVec2 { x: 0, y: 0 },
    };
    proof {
        assert(center.x as int == probe_center(g, pos_in_map).0);
        assert(center.y as int == probe_center(g, pos_in_map).1);
    }
    let inside: bool = if map.contains(center) {
        let t = map.tile_at(center);
        is_walkable(&t) || (match extra_free_in_map {
            Some(e) => e == center,
            None => false,
        })
    } else {
        true
    };
    proof {
        assert(inside == probe_inside(g, pos_in_map, extra_free_in_map));
    }
    let mut best: Option<(i64, IVec2)> = None;
    let mut k: usize = 0;
    while k < 25
        invariant
            map.wf(),
            g == *map,
            k <= 25,
            -MAX_POS_FX <= pos_in_map.x <= MAX_POS_FX,
            -MAX_POS_FX <= pos_in_map.y <= MAX_POS_FX,
            center.x as int == probe_center(g, pos_in_map).0,
            center.y as int == probe_center(g, pos_in_map).1,
            0 <= center.x <= 1_000_000,
            0 <= center.y <= 1_000_000,
            inside == probe_inside(g, pos_in_map, extra_free_in_map),
            match best {
                None => probe_min_upto(g, pos_in_map, extra_free_in_map, k as int) is None,
                Some(b) => {
                    &&& probe_min_upto(g, pos_in_map, extra_free_in_map, k as int) matches Some(m)
                    &&& m.0 == b.0 as int
                    &&& m.1 == b.1.x as int
                    &&& m.2 == b.1.y as int
                    &&& 0 <= b.0
                    &&& 0 <= b.1.x < map.spec_width()
                    &&& 0 <= b.1.y < map.spec_height()
                },
            },
        decreases 25 - k,
    {
        let dxo: i32 = (k % 5) as i32 - 2;
        let dyo: i32 = (k / 5) as i32 - 2;
        proof {
            assert(dxo as int == win_dx(k as int));
            assert(dyo as int == win_dy(k as int));
        }
        let cell = IVec2 { x: center.x + dxo, y: center.y + dyo };
        if map.contains(cell) {
            let t = map.tile_at(cell);
            let walk = is_walkable(&t) || (match extra_free_in_map {
                Some(e) => e == cell,
                None => false,
            });
            if walk != inside {
                proof {
                    assert(differing_at(g, pos_in_map, extra_free_in_map, k as int));
                }
                let d: i64 = closest_dsq_to_tile(pos_in_map, cell);
                best = match best {
                    None => Some((d, cell)),
                    Some(b) => if d < b.0 {
                        Some((d, cell))
                    } else {
                        Some(b)
                    },
                };
            } else {
                proof {
                    assert(!differing_at(g, pos_in_map, extra_free_in_map, k as int));
                }
            }
        } else {
            proof {
                assert(!differing_at(g, pos_in_map, extra_free_in_map, k as int));
            }
        }
        k = k + 1;
    }
    match best {
        None => {
            let s: i64 = if inside {
                -SDF_SATURATION_FX
            } else {
                SDF_SATURATION_FX
            };
            (s, Vec2Fx { x: 0, y: 0 })
        },
        Some(b) => {
            let dist: u64 = isqrt64(b.0 as u64);
            let s: i64 = if inside {
                -(dist as i64)
            } else {
                dist as i64
            };
            if s == 0 {
                (s, Vec2Fx { x: 0, y: 0 })
            } else {
                let delta = Vec2Fx { x: pos_in_map.x - (b.1.x as i64) * 1000, y: pos_in_map.y - (
                b.1.y as i64) * 1000 };
                let dir = normalize_fx(delta);
                proof {
                    crate::geom::lemma_normalize_bounds(delta.x as int, delta.y as int);
                }
                (s, dir)
            }
        },
    }
}

/// While the probed position is in free space, the reported signed distance
/// is never positive.
pub proof fn lemma_sdf_nonpositive_in_walkable(g: Grid, pos: Vec2Fx, extra: Option<IVec2>)
    requires
        probe_inside(g, pos, extra),
    ensures
        map_sdf_spec(g, pos, extra).0 <= 0,
{
    match probe_min_upto(g, pos, extra, 25) {
        None => {},
        Some(m) => {
            lemma_sqrt_floor_nonneg(m.0);
        },
    }
}

proof fn lemma_probe_min_upto_none(g: Grid, pos: Vec2Fx, extra: Option<IVec2>, k: int)
    requires
        0 <= k <= 25,
        forall|j: int|
            0 <= j < 25 ==> !differing_at(g, pos, extra, j),
    ensures
        probe_min_upto(g, pos, extra, k) is None,
    decreases k,
{
    if k > 0 {
        lemma_probe_min_upto_none(g, pos, extra, k - 1);
    }
}

/// When every grid cell in the probe window is walkable (or exempt), the
/// probe saturates: it reports a signed distance of minus two tiles and a
/// zero push direction.
pub proof fn lemma_probe_saturates_in_open_space(g: Grid, pos: Vec2Fx, extra: Option<IVec2>)
    requires
        forall|j: int|
            0 <= j < 25 ==> (g.spec_contains(
                probe_center(g, pos).0 + #[trigger] win_dx(j),
                probe_center(g, pos).1 + win_dy(j),
            ) ==> cell_walkable(
                g,
                probe_center(g, pos).0 + win_dx(j),
                probe_center(g, pos).1 + win_dy(j),
                extra,
            )),
    ensures
        map_sdf_spec(g, pos, extra).0 == -2000,
        map_sdf_spec(g, pos, extra).1 == (0int, 0int),
{
    let c = probe_center(g, pos);
    assert(win_dx(12) == 0 && win_dy(12) == 0);
    assert(probe_inside(g, pos, extra));
    assert forall|j: int| 0 <= j < 25 implies !differing_at(g, pos, extra, j) by {
        assert(g.spec_contains(c.0 + win_dx(j), c.1 + win_dy(j)) ==> cell_walkable(
            g,
            c.0 + win_dx(j),
            c.1 + win_dy(j),
            extra,
        ));
    }
    lemma_probe_min_upto_none(g, pos, extra, 25);
}

/// The jet-style colormap used to visualize probe readings: a signed
/// distance, with one tile mapped to `FX_ONE` units, is normalized into
/// `[0, FX_ONE]` and ramped blue, through cyan, green and yellow, to red.
/// Channels are in thousandths of full intensity.
pub open spec fn jet_colormap_spec(sdf: int) -> (int, int, int) {
    let x = clamp_i((sdf + 1000) / 2, 0, 1000);
    if x < 250 {
        (0int, 4 * x, 1000int)
    } else if x < 500 {
        (0int, 1000int, 2000 - 4 * x)
    } else if x < 750 {
        (4 * x - 2000, 1000int, 0int)
    } else {
        (1000int, 4000 - 4 * x, 0int)
    }
}

/// Red, green and blue for a probe reading, each in `[0, 1000]`.
pub fn jet_colormap(sdf: i64) -> (rgb: (i64, i64, i64))
    requires
        -100_000 <= sdf <= 100_000,
    ensures
        rgb.0 as int == jet_colormap_spec(sdf as int).0,
        rgb.1 as int == jet_colormap_spec(sdf as int).1,
        rgb.2 as int == jet_colormap_spec(sdf as int).2,
{
    let shifted: i64 = sdf + 1000;
    let x: i64 = if shifted <= 0 {
        0
    } else {
        let half: u64 = (shifted as u64) / 2;
        if half > 1000 {
            1000
        } else {
            half as i64
        }
    };
    if x < 250 {
        (0, 4 * x, 1000)
    } else if x < 500 {
        (0, 1000, 2000 - 4 * x)
    } else if x < 750 {
        (4 * x - 2000, 1000, 0)
    } else {
        (1000, 4000 - 4 * x, 0)
    }
}

/// Position of sample `i` of an SDF sampling of the grid at `scale`
/// samples per tile: samples run row by row over a lattice of
/// `width * scale` by `height * scale` points, offset by half a tile so the
/// lattice starts at the corner of cell `(0, 0)`'s unit square.
pub open spec fn sample_pos(w: int, scale: int, i: int) -> Vec2Fx {
    let px = i % (w * scale);
    let py = i / (w * scale);
    Vec2Fx { x: ((px * 1000) / scale - 500) as i64, y: ((py * 1000) / scale - 500) as i64 }
}

/// The probe readings over a whole-grid sampling lattice, row by row:
/// sample `i` is the signed distance at `sample_pos(width, scale, i)`.
/// This is the field a visualization colors with `jet_colormap`.
pub fn map_sdf_samples(map: &Grid, scale: usize) -> (r: Vec<i64>)
    requires
        map.wf(),
        1 <= scale <= 100,
        (map.spec_width() * scale) * (map.spec_height() * scale) <= usize::MAX,
    ensures
        r@.len() == (map.spec_width() * scale) * (map.spec_height() * scale),
        forall|i: int|
            0 <= i < r@.len() ==> #[trigger] r@[i] as int == map_sdf_spec(
                *map,
                sample_pos(map.spec_width(), scale as int, i),
                None,
            ).0,
{
    let ghost w = map.spec_width();
    let ghost h = map.spec_height();
    proof {
        assert(w * scale <= 1_000_000 * 100) by (nonlinear_arith)
            requires
                w >= 0,
                w <= 1_000_000,
                scale >= 1,
                scale <= 100,
        ;
        assert(h * scale <= 1_000_000 * 100) by (nonlinear_arith)
            requires
                h >= 0,
                h <= 1_000_000,
                scale >= 1,
                scale <= 100,
        ;
    }
    let width_px: usize = map.width() * scale;
    let height_px: usize = map.height() * scale;
    proof {
        assert((w * scale) * (h * scale) >= 0) by (nonlinear_arith)
            requires
                w >= 0,
                h >= 0,
                scale >= 1,
        ;
        assert(w * scale <= (w * scale) * (h * scale) || h == 0) by (nonlinear_arith)
            requires
                w >= 0,
                h >= 0,
                scale >= 1,
        ;
        assert(h * scale <= (w * scale) * (h * scale) || w == 0) by (nonlinear_arith)
            requires
                w >= 0,
                h >= 0,
                scale >= 1,
        ;
    }
    let mut out: Vec<i64> = Vec::new();
    let mut py: usize = 0;
    while py < height_px
        invariant
            map.wf(),
            w == map.spec_width(),
            h == map.spec_height(),
            1 <= scale <= 100,
            width_px == w * scale,
            height_px == h * scale,
            width_px <= 100_000_000,
            height_px <= 100_000_000,
            (width_px * height_px) <= usize::MAX,
            py <= height_px,
            out@.len() == py * width_px,
            forall|i: int|
                0 <= i < out@.len() ==> #[trigger] out@[i] as int == map_sdf_spec(
                    *map,
                    sample_pos(w, scale as int, i),
                    None,
                ).0,
        decreases height_px - py,
    {
        let mut px: usize = 0;
        while px < width_px
            invariant
                map.wf(),
                w == map.spec_width(),
                h == map.spec_height(),
                1 <= scale <= 100,
                width_px == w * scale,
                height_px == h * scale,
                width_px <= 100_000_000,
                height_px <= 100_000_000,
                (width_px * height_px) <= usize::MAX,
                py < height_px,
                px <= width_px,
                out@.len() == py * width_px + px,
                forall|i: int|
                    0 <= i < out@.len() ==> #[trigger] out@[i] as int == map_sdf_spec(
                        *map,
                        sample_pos(w, scale as int, i),
                        None,
                    ).0,
            decreases width_px - px,
        {
            proof {
                assert(py * width_px + px < py * width_px + width_px);
                assert((py as int) * width_px + width_px == (py as int + 1) * width_px)
                    by (nonlinear_arith);
                assert((py as int + 1) * width_px <= (height_px as int) * width_px)
                    by (nonlinear_arith)
                    requires
                        py as int + 1 <= height_px as int,
                        width_px >= 0,
                ;
                assert((height_px as int) * width_px == (width_px as int) * height_px)
                    by (nonlinear_arith);
                vstd::arithmetic::div_mod::lemma_fundamental_div_mod_converse(
                    (py * width_px + px) as int,
                    width_px as int,
                    py as int,
                    px as int,
                );
                assert((px as int) * 1000 <= (scale as int) * (w * 1000)) by (nonlinear_arith)
                    requires
                        (0 <= px as int && px as int <= w * scale),
                        (scale as int >= 1),
                ;
                vstd::arithmetic::div_mod::lemma_div_pos_is_pos((px as int) * 1000, scale as int);
                vstd::arithmetic::div_mod::lemma_div_is_ordered(
                    (px as int) * 1000,
                    (scale as int) * (w * 1000),
                    scale as int,
                );
                vstd::arithmetic::div_mod::lemma_div_multiples_vanish(w * 1000, scale as int);
                assert((py as int) * 1000 <= (scale as int) * (h * 1000)) by (nonlinear_arith)
                    requires
                        (0 <= py as int && py as int <= h * scale),
                        (scale as int >= 1),
                ;
                vstd::arithmetic::div_mod::lemma_div_pos_is_pos((py as int) * 1000, scale as int);
                vstd::arithmetic::div_mod::lemma_div_is_ordered(
                    (py as int) * 1000,
                    (scale as int) * (h * 1000),
                    scale as int,
                );
                vstd::arithmetic::div_mod::lemma_div_multiples_vanish(h * 1000, scale as int);
            }
            let pos = Vec2Fx {
                x: ((px as i64) * 1000) / (scale as i64) - 500,
                y: ((py as i64) * 1000) / (scale as i64) - 500,
            };
            let sample = map_sdf(map, pos, None);
            out.push(sample.0);
            px = px + 1;
        }
        proof {
            assert((py as int) * width_px + width_px == (py as int + 1) * width_px)
                by (nonlinear_arith);
        }
        py = py + 1;
    }
    proof {
        assert((height_px as int) * width_px == (width_px as int) * height_px) by (nonlinear_arith);
        assert(out@.len() == (w * scale) * (h * scale)) by (nonlinear_arith)
            requires
                out@.len() == (height_px as int) * (width_px as int),
                width_px == w * scale,
                height_px == h * scale,
        ;
    }
    out
}

} // verus!
