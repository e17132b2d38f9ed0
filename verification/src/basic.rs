//! Map recipes: two tiny deterministic layouts used by tests and demos, and
//! the full procedural arena — solid border, pillar lattice on even-even
//! cells, random rubble seeded with hidden power-ups, and the four spawn
//! corners kept clear.

use vstd::prelude::*;

verus! {

use crate::geom::{IVec2, MAX_DIM};
use crate::grid::{Grid, spec_is_edge};
use crate::tile::{TileType, Residue, PowerUpType};

/// Probability 0.8 — the chance an eligible interior cell gets rubble —
/// scaled to the full `u32` range.
pub const PROB_RUBBLE_U32: u32 = 3435973836;

/// Probability 0.08 — the chance rubble hides a firepower power-up —
/// scaled to the full `u32` range.
pub const PROB_FIREPOWER_U32: u32 = 343597383;

/// Probability 0.08 — the chance rubble hides an extra-bomb power-up,
/// drawn only when the firepower draw failed — scaled to the full `u32`
/// range.
pub const PROB_EXTRABOMB_U32: u32 = 343597383;

/// Relies on rand::random: draws one sample from the thread-local
/// generator. Nothing can be promised of the value drawn.
pub assume_specification<T>[ rand::random::<T> ]() -> (r: T)
    where
        rand::distributions::Standard: rand::distributions::Distribution<T>,
;

/// Squared Euclidean distance between two cell coordinates.
pub open spec fn spec_dist_sq(a: IVec2, b: IVec2) -> int {
    (a.x - b.x) * (a.x - b.x) + (a.y - b.y) * (a.y - b.y)
}

/// Whether `pos` lies within `distance` (squared comparison) of some spawn
/// point.
pub open spec fn within_distance_spec(pos: IVec2, sps: Seq<IVec2>, distance: int) -> bool {
    exists|i: int| 0 <= i < sps.len() && spec_dist_sq(#[trigger] sps[i], pos) <= distance * distance
}

pub fn within_distance_of_spawn_points(pos: IVec2, spawn_points: &Vec<IVec2>, distance: i32) -> (r:
    bool)
    ensures
        r == within_distance_spec(pos, spawn_points@, distance as int),
{
    proof {
        assert((distance as int) * (distance as int) <= 4294967296 * 4294967296) by (nonlinear_arith)
            requires
                -4294967296 <= distance as int <= 4294967296,
        ;
        assert((distance as int) * (distance as int) >= 0) by (nonlinear_arith);
    }
    let dd: i128 = (distance as i128) * (distance as i128);
    let mut i: usize = 0;
    while i < spawn_points.len()
        invariant
            i <= spawn_points@.len(),
            dd == (distance as int) * (distance as int),
            forall|j: int|
                0 <= j < i ==> !(spec_dist_sq(#[trigger] spawn_points@[j], pos) <= (distance as int)
                    * (distance as int)),
        decreases spawn_points@.len() - i,
    {
        let sp = spawn_points[i];
        let dx: i128 = (sp.x as i128) - (pos.x as i128);
        let dy: i128 = (sp.y as i128) - (pos.y as i128);
        proof {
            assert(dx * dx <= 4294967296 * 4294967296) by (nonlinear_arith)
                requires
                    -4294967296 <= dx <= 4294967296,
            ;
            assert(dy * dy <= 4294967296 * 4294967296) by (nonlinear_arith)
                requires
                    -4294967296 <= dy <= 4294967296,
            ;
            assert(dx * dx >= 0) by (nonlinear_arith);
            assert(dy * dy >= 0) by (nonlinear_arith);
        }
        let dsq: i128 = dx * dx + dy * dy;
        if dsq <= dd {
            return true;
        }
        i = i + 1;
    }
    false
}

/// The spawn points of the full arena recipe: one step inward from each
/// corner.
pub open spec fn basic_map_spawns(width: int, height: int) -> Seq<IVec2> {
    seq![
        IVec2 { x: 1, y: 1 },
        IVec2 { x: 1, y: (height - 2) as i32 },
        IVec2 { x: (width - 2) as i32, y: 1 },
        IVec2 { x: (width - 2) as i32, y: (height - 2) as i32 },
    ]
}

/// What the full arena recipe guarantees of each cell: a solid border, a
/// solid pillar on every even-even interior cell, spawn-adjacent cells kept
/// clear, and every other cell either clear or rubble (with whatever the
/// random draws hid inside).
pub open spec fn basic_cell_ok(
    w: int,
    h: int,
    sps: Seq<IVec2>,
    x: int,
    y: int,
    t: TileType,
) -> bool {
    if spec_is_edge(w, h, x, y) {
        t is SolidWall
    } else if x % 2 == 0 && y % 2 == 0 {
        t is SolidWall
    } else if within_distance_spec(IVec2 { x: x as i32, y: y as i32 }, sps, 1) {
        t is Empty
    } else {
        t is Empty || t is BreakableWall
    }
}

/// The tile an eligible interior cell (neither border, nor pillar)
/// receives, as a function of the three random draws and whether the cell
/// touches a spawn point: rubble when the first draw is below the 0.8
/// threshold and the cell is clear of spawns; the rubble hides a firepower
/// power-up when the second draw is below the 0.08 threshold, else an
/// extra-bomb power-up when the third is (the extra-bomb draw is only
/// reached when the firepower draw failed), else nothing.
pub open spec fn rubble_tile_spec(r1: u32, r2: u32, r3: u32, spawn_adjacent: bool) -> TileType {
    if r1 < PROB_RUBBLE_U32 && !spawn_adjacent {
        TileType::BreakableWall(
            if r2 < PROB_FIREPOWER_U32 {
                Residue::PowerUp(PowerUpType::Firepower)
            } else if r3 < PROB_EXTRABOMB_U32 {
                Residue::PowerUp(PowerUpType::ExtraBomb)
            } else {
                Residue::Empty
            },
        )
    } else {
        TileType::Empty
    }
}

/// Decides one eligible cell's tile from its random draws, exactly as
/// `rubble_tile_spec` states.
pub fn rubble_tile(r1: u32, r2: u32, r3: u32, spawn_adjacent: bool) -> (t: TileType)
    ensures
        t == rubble_tile_spec(r1, r2, r3, spawn_adjacent),
{
    if r1 < PROB_RUBBLE_U32 && !spawn_adjacent {
        TileType::BreakableWall(
            if r2 < PROB_FIREPOWER_U32 {
                Residue::PowerUp(PowerUpType::Firepower)
            } else if r3 < PROB_EXTRABOMB_U32 {
                Residue::PowerUp(PowerUpType::ExtraBomb)
            } else {
                Residue::Empty
            },
        )
    } else {
        TileType::Empty
    }
}

/// How many draws deciding one eligible cell consumes, in the lazy order
/// the recipe draws them: the rubble draw always; the firepower draw only
/// for rubble clear of spawns; the extra-bomb draw only when the firepower
/// draw failed.
pub open spec fn rubble_draws_used(r1: u32, r2: u32, spawn_adjacent: bool) -> int {
    if r1 < PROB_RUBBLE_U32 && !spawn_adjacent {
        if r2 < PROB_FIREPOWER_U32 {
            2
        } else {
            3
        }
    } else {
        1
    }
}

/// The full arena generation as a deterministic function of a draw
/// sequence: cells in `pos_iter` order (cell `k` is `(k/h, k%h)`), borders
/// and even-even pillars solid, every other cell decided by
/// `rubble_tile_spec` on the next draws, consumed lazily from index `i` as
/// `rubble_draws_used` counts them. Returns the tiles and the next unread
/// draw index.
pub open spec fn spec_generate_from(
    t: Seq<TileType>,
    w: int,
    h: int,
    sps: Seq<IVec2>,
    draws: Seq<u32>,
    i: int,
    k: int,
) -> (Seq<TileType>, int)
    decreases w * h - k,
{
    if k < 0 || h <= 0 || k >= w * h {
        (t, i)
    } else {
        let x = k / h;
        let y = k % h;
        let idx = y * w + x;
        if spec_is_edge(w, h, x, y) {
            spec_generate_from(t.update(idx, TileType::SolidWall), w, h, sps, draws, i, k + 1)
        } else if x % 2 == 0 && y % 2 == 0 {
            spec_generate_from(t.update(idx, TileType::SolidWall), w, h, sps, draws, i, k + 1)
        } else {
            let r1 = draws[i];
            let r2 = draws[i + 1];
            let r3 = draws[i + 2];
            let adj = within_distance_spec(IVec2 { x: x as i32, y: y as i32 }, sps, 1);
            spec_generate_from(
                t.update(idx, rubble_tile_spec(r1, r2, r3, adj)),
                w,
                h,
                sps,
                draws,
                i + rubble_draws_used(r1, r2, adj),
                k + 1,
            )
        }
    }
}

/// The tiles of the full arena recipe for a draw sequence: the whole
/// generation pass starting from an all-empty grid, first cell, first
/// draw.
pub open spec fn generated_tiles(w: int, h: int, ds: Seq<u32>) -> Seq<TileType> {
    spec_generate_from(
        Seq::new((w * h) as nat, |i: int| TileType::Empty),
        w,
        h,
        basic_map_spawns(w, h),
        ds,
        0,
        0,
    ).0
}

/// The full arena from an injected draw sequence, reproducible in tests:
/// the tiles are exactly `generated_tiles` of the draws, and every cell
/// satisfies the structural guarantee `basic_cell_ok`.
pub fn make_basic_map_from_draws(width: usize, height: usize, draws: &Vec<u32>) -> (g: Grid)
    requires
        width <= MAX_DIM,
        height <= MAX_DIM,
        width * height <= usize::MAX,
        draws@.len() >= 3 * (width * height),
    ensures
        g.wf(),
        g.spec_width() == width,
        g.spec_height() == height,
        g.spec_spawn_points() == basic_map_spawns(width as int, height as int),
        g.tile_seq() == generated_tiles(width as int, height as int, draws@),
        forall|x: int, y: int|
            g.spec_contains(x, y) ==> basic_cell_ok(
                width as int,
                height as int,
                g.spec_spawn_points(),
                x,
                y,
                #[trigger] g.spec_tile_at(x, y),
            ),
{
    let mut map = Grid::new_empty(width, height);
    let wi: i32 = width as i32;
    let hi: i32 = height as i32;
    let mut spawns: Vec<IVec2> = Vec::new();
    spawns.push(IVec2 { x: 1, y: 1 });
    spawns.push(IVec2 { x: 1, y: hi - 2 });
    spawns.push(IVec2 { x: wi - 2, y: 1 });
    spawns.push(IVec2 { x: wi - 2, y: hi - 2 });
    proof {
        assert(spawns@ =~= basic_map_spawns(width as int, height as int));
    }
    map.set_spawn_points(spawns);
    let ghost sps = map.spec_spawn_points();
    let ghost t0 = Seq::new((width * height) as nat, |i: int| TileType::Empty);
    let ghost full = spec_generate_from(
        t0,
        width as int,
        height as int,
        sps,
        draws@,
        0,
        0,
    );
    proof {
        assert(map.tile_seq() =~= t0);
    }
    let dn: usize = draws.len();
    let mut di: usize = 0;
    let mut k: usize = 0;
    let mut x: usize = 0;
    while x < width
        invariant
            map.wf(),
            map.spec_width() == width,
            map.spec_height() == height,
            map.spec_spawn_points() == sps,
            width <= MAX_DIM,
            height <= MAX_DIM,
            draws@.len() >= 3 * (width * height),
            dn == draws@.len(),
            x <= width,
            k == x * height,
            di <= 3 * k,
            spec_generate_from(
                map.tile_seq(),
                width as int,
                height as int,
                sps,
                draws@,
                di as int,
                k as int,
            ) == full,
            forall|a: int, b: int|
                map.spec_contains(a, b) && (a < x) ==> basic_cell_ok(
                    width as int,
                    height as int,
                    sps,
                    a,
                    b,
                    #[trigger] map.spec_tile_at(a, b),
                ),
        decreases width - x,
    {
        let mut y: usize = 0;
        while y < height
            invariant
                map.wf(),
                map.spec_width() == width,
                map.spec_height() == height,
                map.spec_spawn_points() == sps,
                width <= MAX_DIM,
                height <= MAX_DIM,
                draws@.len() >= 3 * (width * height),
                dn == draws@.len(),
                x < width,
                y <= height,
                k == x * height + y,
                di <= 3 * k,
                spec_generate_from(
                    map.tile_seq(),
                    width as int,
                    height as int,
                    sps,
                    draws@,
                    di as int,
                    k as int,
                ) == full,
                forall|a: int, b: int|
                    map.spec_contains(a, b) && (a < x || (a == x && b < y)) ==> basic_cell_ok(
                        width as int,
                        height as int,
                        sps,
                        a,
                        b,
                        #[trigger] map.spec_tile_at(a, b),
                    ),
            decreases height - y,
        {
            proof {
                assert(k < width * height) by (nonlinear_arith)
                    requires
                        (k == x * height + y),
                        (0 <= y && (y as int) < height as int),
                        (x as int + 1 <= width as int),
                        (height as int >= 1),
                ;
                vstd::arithmetic::div_mod::lemma_fundamental_div_mod_converse(
                    k as int,
                    height as int,
                    x as int,
                    y as int,
                );
            }
            let pos = IVec2 { x: x as i32, y: y as i32 };
            let ghost before = map;
            proof {
                before.lemma_idx_bounds(x as int, y as int);
                assert(di as int + 2 < dn as int);
            }
            if map.is_edge(pos) || (x % 2 == 0 && y % 2 == 0) {
                map.set_tile(pos, TileType::SolidWall);
            } else {
                let r1: u32 = draws[di];
                let r2: u32 = draws[di + 1];
                let r3: u32 = draws[di + 2];
                let adj: bool = within_distance_of_spawn_points(pos, map.spawn_points(), 1);
                let tile = rubble_tile(r1, r2, r3, adj);
                map.set_tile(pos, tile);
                if r1 < PROB_RUBBLE_U32 && !adj {
                    if r2 < PROB_FIREPOWER_U32 {
                        di = di + 2;
                    } else {
                        di = di + 3;
                    }
                } else {
                    di = di + 1;
                }
            }
            proof {
                assert(map.tile_seq() == before.tile_seq().update(
                    before.idx_of(x as int, y as int),
                    map.spec_tile_at(x as int, y as int),
                ));
                assert(basic_cell_ok(
                    width as int,
                    height as int,
                    sps,
                    x as int,
                    y as int,
                    map.spec_tile_at(x as int, y as int),
                ));
                assert forall|a: int, b: int|
                    map.spec_contains(a, b) && (a < x || (a == x && b < y + 1)) implies basic_cell_ok(
                    width as int,
                    height as int,
                    sps,
                    a,
                    b,
                    #[trigger] map.spec_tile_at(a, b),
                ) by {
                    if a == x as int && b == y as int {
                    } else {
                        before.lemma_idx_of_injective(a, b, x as int, y as int);
                        before.lemma_idx_bounds(a, b);
                        before.lemma_idx_bounds(x as int, y as int);
                        assert(map.spec_tile_at(a, b) == before.spec_tile_at(a, b));
                    }
                }
            }
            k = k + 1;
            y = y + 1;
        }
        proof {
            assert((x as int) * height + height == (x as int + 1) * height) by (nonlinear_arith);
        }
        x = x + 1;
    }
    proof {
        assert(k == width * height) by (nonlinear_arith)
            requires
                (k == x * height),
                (x == width),
        ;
    }
    map
}

/// The full arena with ambient randomness: draws a sequence from the
/// thread-local generator and hands it to the deterministic
/// `make_basic_map_from_draws`, so the tiles are that function's result
/// for some draw sequence, and every cell satisfies `basic_cell_ok`.
pub fn make_basic_map(width: usize, height: usize) -> (g: Grid)
    requires
        width <= MAX_DIM,
        height <= MAX_DIM,
        3 * (width * height) <= usize::MAX,
    ensures
        g.wf(),
        g.spec_width() == width,
        g.spec_height() == height,
        g.spec_spawn_points() == basic_map_spawns(width as int, height as int),
        exists|ds: Seq<u32>|
            ds.len() >= 3 * (width * height) && g.tile_seq() == #[trigger] generated_tiles(
                width as int,
                height as int,
                ds,
            ),
        forall|x: int, y: int|
            g.spec_contains(x, y) ==> basic_cell_ok(
                width as int,
                height as int,
                g.spec_spawn_points(),
                x,
                y,
                #[trigger] g.spec_tile_at(x, y),
            ),
{
    let n: usize = 3 * (width * height);
    let mut draws: Vec<u32> = Vec::new();
    let mut j: usize = 0;
    while j < n
        invariant
            j <= n,
            draws@.len() == j,
        decreases n - j,
    {
        let r: u32 = rand::random();
        draws.push(r);
        j = j + 1;
    }
    let g = make_basic_map_from_draws(width, height, &draws);
    proof {
        assert(g.tile_seq() == generated_tiles(width as int, height as int, draws@));
    }
    g
}

/// A 3-by-3 test layout: solid border, open center, both spawn points on
/// the center cell.
pub fn make_really_basic_map1() -> (g: Grid)
    ensures
        g.wf(),
        g.spec_width() == 3,
        g.spec_height() == 3,
        g.spec_spawn_points() == seq![IVec2 { x: 1, y: 1 }, IVec2 { x: 1, y: 1 }],
        forall|x: int, y: int|
            g.spec_contains(x, y) ==> (#[trigger] g.spec_tile_at(x, y)) == (if spec_is_edge(
                3,
                3,
                x,
                y,
            ) {
                TileType::SolidWall
            } else {
                TileType::Empty
            }),
{
    make_walled_box(3, 1, false)
}

/// A 5-by-5 test layout: solid border plus a solid block in the center,
/// both spawn points at the upper-left open cell.
pub fn make_really_basic_map2() -> (g: Grid)
    ensures
        g.wf(),
        g.spec_width() == 5,
        g.spec_height() == 5,
        g.spec_spawn_points() == seq![IVec2 { x: 1, y: 1 }, IVec2 { x: 1, y: 1 }],
        forall|x: int, y: int|
            g.spec_contains(x, y) ==> (#[trigger] g.spec_tile_at(x, y)) == (if spec_is_edge(
                5,
                5,
                x,
                y,
            ) || (x == 2 && y == 2) {
                TileType::SolidWall
            } else {
                TileType::Empty
            }),
{
    make_walled_box(5, 2, true)
}

/// Shared body of the two tiny layouts: a walled box of the given size,
/// optionally with a solid block at the exact center, spawn points on
/// `(1, 1)`.
fn make_walled_box(side: usize, center: usize, center_solid: bool) -> (g: Grid)
    requires
        3 <= side <= 9,
        center == side / 2,
    ensures
        g.wf(),
        g.spec_width() == side,
        g.spec_height() == side,
        g.spec_spawn_points() == seq![IVec2 { x: 1, y: 1 }, IVec2 { x: 1, y: 1 }],
        forall|x: int, y: int|
            g.spec_contains(x, y) ==> (#[trigger] g.spec_tile_at(x, y)) == (if spec_is_edge(
                side as int,
                side as int,
                x,
                y,
            ) || (center_solid && x == center && y == center) {
                TileType::SolidWall
            } else {
                TileType::Empty
            }),
{
    proof {
        assert(side * side <= 81) by (nonlinear_arith)
            requires
                side <= 9,
        ;
    }
    let mut map = Grid::new_empty(side, side);
    let mut spawns: Vec<IVec2> = Vec::new();
    spawns.push(IVec2 { x: 1, y: 1 });
    spawns.push(IVec2 { x: 1, y: 1 });
    proof {
        assert(spawns@ =~= seq![IVec2 { x: 1, y: 1 }, IVec2 { x: 1, y: 1 }]);
    }
    map.set_spawn_points(spawns);
    let ghost sps = map.spec_spawn_points();
    let mut x: usize = 0;
    while x < side
        invariant
            map.wf(),
            map.spec_width() == side,
            map.spec_height() == side,
            map.spec_spawn_points() == sps,
            side <= 9,
            center == side / 2,
            x <= side,
            forall|a: int, b: int|
                map.spec_contains(a, b) && a < x ==> (#[trigger] map.spec_tile_at(a, b)) == (
                if spec_is_edge(side as int, side as int, a, b) || (center_solid && a == center && b
                    == center) {
                    TileType::SolidWall
                } else {
                    TileType::Empty
                }),
        decreases side - x,
    {
        let mut y: usize = 0;
        while y < side
            invariant
                map.wf(),
                map.spec_width() == side,
                map.spec_height() == side,
                map.spec_spawn_points() == sps,
                side <= 9,
                center == side / 2,
                x < side,
                y <= side,
                forall|a: int, b: int|
                    map.spec_contains(a, b) && (a < x || (a == x && b < y)) ==> (
                    #[trigger] map.spec_tile_at(a, b)) == (if spec_is_edge(
                        side as int,
                        side as int,
                        a,
                        b,
                    ) || (center_solid && a == center && b == center) {
                        TileType::SolidWall
                    } else {
                        TileType::Empty
                    }),
            decreases side - y,
        {
            let pos = IVec2 { x: x as i32, y: y as i32 };
            let tile: TileType = if map.is_edge(pos) || (center_solid && x == center && y
                == center) {
                TileType::SolidWall
            } else {
                TileType::Empty
            };
            let ghost before = map;
            map.set_tile(pos, tile);
            proof {
                assert(map.tile_seq() == before.tile_seq().update(
                    before.idx_of(x as int, y as int),
                    tile,
                ));
                before.lemma_idx_bounds(x as int, y as int);
                assert(map.spec_tile_at(x as int, y as int) == tile);
                assert forall|a: int, b: int|
                    map.spec_contains(a, b) && (a < x || (a == x && b < y + 1)) implies (
                #[trigger] map.spec_tile_at(a, b)) == (if spec_is_edge(
                    side as int,
                    side as int,
                    a,
                    b,
                ) || (center_solid && a == center && b == center) {
                    TileType::SolidWall
                } else {
                    TileType::Empty
                }) by {
                    if a == x as int && b == y as int {
                    } else {
                        before.lemma_idx_of_injective(a, b, x as int, y as int);
                        before.lemma_idx_bounds(a, b);
                        before.lemma_idx_bounds(x as int, y as int);
                        assert(map.spec_tile_at(a, b) == before.spec_tile_at(a, b));
                    }
                }
            }
            y = y + 1;
        }
        x = x + 1;
    }
    map
}

} // verus!
