//! The playing field: a dense width-by-height grid of tiles, addressed by
//! integer cell coordinates, together with the designated player spawn
//! points. Continuous positions are mapped onto cells by rounding each axis
//! to the nearest integer.

use vstd::prelude::*;

verus! {

use crate::geom::{IVec2, Vec2Fx, round_fx, round_fx_to_cell, MAX_DIM, MAX_POS_FX, FX_HALF};
use crate::tile::TileType;

/// Whether `(x, y)` lies on the outer boundary ring of a `w`-by-`h` grid.
pub open spec fn spec_is_edge(w: int, h: int, x: int, y: int) -> bool {
    x == 0 || y == 0 || x == w - 1 || y == h - 1
}

/// Distinct cells of a `w`-by-`h` grid occupy distinct row-major indices.
pub proof fn lemma_cell_index_injective(w: int, h: int, x1: int, y1: int, x2: int, y2: int)
    requires
        0 <= x1 < w,
        0 <= x2 < w,
        0 <= y1 < h,
        0 <= y2 < h,
        !(x1 == x2 && y1 == y2),
    ensures
        y1 * w + x1 != y2 * w + x2,
{
    if y1 != y2 {
        assert(y1 * w + x1 != y2 * w + x2) by (nonlinear_arith)
            requires
                y1 != y2,
                0 <= x1 < w,
                0 <= x2 < w,
        ;
    }
}

/// The cell visited at step `k` of a pass over a `w`-by-`h` grid: its
/// coordinates are in range and determine `k`.
pub proof fn lemma_visit_cell(w: int, h: int, k: int)
    requires
        h > 0,
        0 <= k < w * h,
    ensures
        0 <= k / h < w,
        0 <= k % h < h,
        k == (k / h) * h + k % h,
{
    vstd::arithmetic::div_mod::lemma_fundamental_div_mod(k, h);
    vstd::arithmetic::div_mod::lemma_mod_bound(k, h);
    vstd::arithmetic::div_mod::lemma_div_pos_is_pos(k, h);
    assert(h * (k / h) == (k / h) * h) by (nonlinear_arith);
    assert(k / h < w) by (nonlinear_arith)
        requires
            (k == (k / h) * h + k % h),
            (0 <= k % h && k % h < h),
            (k < w * h),
            (h > 0),
            (0 <= k / h),
    ;
}

pub struct Grid {
    width: usize,
    height: usize,
    tiles: Vec<TileType>,
    player_spawn_points: Vec<IVec2>,
}

impl Grid {
    pub closed spec fn spec_width(&self) -> int {
        self.width as int
    }

    pub closed spec fn spec_height(&self) -> int {
        self.height as int
    }

    /// The tiles as a sequence, indexed by `idx_of`.
    pub closed spec fn tile_seq(&self) -> Seq<TileType> {
        self.tiles@
    }

    pub closed spec fn spec_spawn_points(&self) -> Seq<IVec2> {
        self.player_spawn_points@
    }

    /// Every valid coordinate has exactly one tile slot, and the dimensions
    /// stay small enough that all cell-center coordinates fit the
    /// fixed-point range.
    pub open spec fn wf(&self) -> bool {
        &&& 0 <= self.spec_width() <= MAX_DIM as int
        &&& 0 <= self.spec_height() <= MAX_DIM as int
        &&& self.tile_seq().len() == self.spec_width() * self.spec_height()
        &&& self.tile_seq().len() <= usize::MAX
    }

    pub open spec fn spec_contains(&self, x: int, y: int) -> bool {
        0 <= x < self.spec_width() && 0 <= y < self.spec_height()
    }

    /// Index of cell `(x, y)` in `tile_seq`: row-major, `y` rows of `width`.
    pub open spec fn idx_of(&self, x: int, y: int) -> int {
        y * self.spec_width() + x
    }

    pub open spec fn spec_tile_at(&self, x: int, y: int) -> TileType {
        self.tile_seq()[self.idx_of(x, y)]
    }

    pub proof fn lemma_idx_bounds(&self, x: int, y: int)
        requires
            self.wf(),
            self.spec_contains(x, y),
        ensures
            0 <= self.idx_of(x, y) < self.tile_seq().len(),
    {
        let w = self.spec_width();
        let h = self.spec_height();
        assert(0 <= y * w + x < w * h) by (nonlinear_arith)
            requires
                0 <= x < w,
                0 <= y < h,
        ;
    }

    /// Distinct contained coordinates map to distinct tile slots.
    pub proof fn lemma_idx_of_injective(&self, x1: int, y1: int, x2: int, y2: int)
        requires
            self.wf(),
            self.spec_contains(x1, y1),
            self.spec_contains(x2, y2),
            !(x1 == x2 && y1 == y2),
        ensures
            self.idx_of(x1, y1) != self.idx_of(x2, y2),
    {
        let w = self.spec_width();
        if y1 != y2 {
            assert(y1 * w + x1 != y2 * w + x2) by (nonlinear_arith)
                requires
                    y1 != y2,
                    0 <= x1 < w,
                    0 <= x2 < w,
            ;
        }
    }

    /// A fresh grid of the given dimensions, every cell empty, no spawn
    /// points yet.
    pub fn new_empty(width: usize, height: usize) -> (g: Grid)
        requires
            width <= MAX_DIM,
            height <= MAX_DIM,
            width * height <= usize::MAX,
        ensures
            g.wf(),
            g.spec_width() == width,
            g.spec_height() == height,
            g.spec_spawn_points() == Seq::<IVec2>::empty(),
            forall|i: int|
                0 <= i < g.tile_seq().len() ==> #[trigger] g.tile_seq()[i] is Empty,
    {
        let total: usize = width * height;
        let mut tiles: Vec<TileType> = Vec::new();
        let mut i: usize = 0;
        while i < total
            invariant
                i <= total,
                tiles@.len() == i,
                forall|j: int| 0 <= j < i ==> #[trigger] tiles@[j] is Empty,
            decreases total - i,
        {
            tiles.push(TileType::Empty);
            i = i + 1;
        }
        Grid { width, height, tiles, player_spawn_points: Vec::new() }
    }

    pub fn width(&self) -> (w: usize)
        ensures
            w as int == self.spec_width(),
    {
        self.width
    }

    pub fn height(&self) -> (h: usize)
        ensures
            h as int == self.spec_height(),
    {
        self.height
    }

    pub fn spawn_points(&self) -> (s: &Vec<IVec2>)
        ensures
            s@ == self.spec_spawn_points(),
    {
        &self.player_spawn_points
    }

    pub fn set_spawn_points(&mut self, spawn_points: Vec<IVec2>)
        ensures
            final(self).spec_spawn_points() == spawn_points@,
            final(self).spec_width() == old(self).spec_width(),
            final(self).spec_height() == old(self).spec_height(),
            final(self).tile_seq() == old(self).tile_seq(),
    {
        self.player_spawn_points = spawn_points;
    }

    /// The grid's center point in fixed-point position units.
    pub fn center(&self) -> (c: Vec2Fx)
        requires
            self.wf(),
        ensures
            c.x == self.spec_width() * FX_HALF,
            c.y == self.spec_height() * FX_HALF,
    {
        proof {
            assert(self.spec_width() * 500 <= 1_000_000 * 500) by (nonlinear_arith)
                requires
                    0 <= self.spec_width() <= 1_000_000,
            ;
            assert(self.spec_height() * 500 <= 1_000_000 * 500) by (nonlinear_arith)
                requires
                    0 <= self.spec_height() <= 1_000_000,
            ;
        }
        Vec2Fx { x: (self.width as i64) * 500, y: (self.height as i64) * 500 }
    }

    /// A coordinate is inside the grid exactly when both components are
    /// within `[0, width)` and `[0, height)`.
    pub fn contains(&self, pos: IVec2) -> (r: bool)
        ensures
            r == self.spec_contains(pos.x as int, pos.y as int),
    {
        pos.x >= 0 && (pos.x as usize) < self.width && pos.y >= 0 && (pos.y as usize)
            < self.height
    }

    /// Whether a coordinate lies on the outer boundary ring.
    pub fn is_edge(&self, pos: IVec2) -> (r: bool)
        requires
            self.wf(),
        ensures
            r == spec_is_edge(
                self.spec_width(),
                self.spec_height(),
                pos.x as int,
                pos.y as int,
            ),
    {
        pos.x == 0 || pos.y == 0 || (pos.x as i64) == (self.width as i64) - 1 || (pos.y as i64)
            == (self.height as i64) - 1
    }

    /// The cell a continuous position rounds to, if it is inside the grid.
    pub open spec fn spec_index_from_position(&self, pos: Vec2Fx) -> Option<IVec2> {
        let x = round_fx(pos.x as int);
        let y = round_fx(pos.y as int);
        if self.spec_contains(x, y) {
            Some(IVec2 { x: x as i32, y: y as i32 })
        } else {
            None
        }
    }

    /// Rounds each axis of `pos` to the nearest integer and returns the
    /// resulting coordinate, or `None` if it falls outside the grid.
    pub fn get_index_from_position(&self, pos: Vec2Fx) -> (r: Option<IVec2>)
        requires
            -MAX_POS_FX <= pos.x <= MAX_POS_FX,
            -MAX_POS_FX <= pos.y <= MAX_POS_FX,
        ensures
            r == self.spec_index_from_position(pos),
    {
        let x: i32 = round_fx_to_cell(pos.x);
        let y: i32 = round_fx_to_cell(pos.y);
        let idx = IVec2 { x, y };
        if self.contains(idx) {
            Some(idx)
        } else {
            None
        }
    }

    /// All valid coordinates in a fixed column-major order: all `y` for
    /// `x = 0`, then `x = 1`, and so on. Element `i` is
    /// `(i / height, i % height)`.
    pub fn pos_iter(&self) -> (r: Vec<IVec2>)
        requires
            self.wf(),
        ensures
            r@.len() == self.spec_width() * self.spec_height(),
            forall|i: int|
                0 <= i < r@.len() ==> #[trigger] r@[i] == (IVec2 {
                    x: (i / self.spec_height()) as i32,
                    y: (i % self.spec_height()) as i32,
                }),
    {
        let ghost w = self.spec_width();
        let ghost h = self.spec_height();
        let mut out: Vec<IVec2> = Vec::new();
        let mut x: usize = 0;
        while x < self.width
            invariant
                self.wf(),
                w == self.spec_width(),
                h == self.spec_height(),
                x <= self.width,
                out@.len() == x * h,
                forall|i: int|
                    0 <= i < out@.len() ==> #[trigger] out@[i] == (IVec2 {
                        x: (i / h) as i32,
                        y: (i % h) as i32,
                    }),
            decreases self.width - x,
        {
            let mut y: usize = 0;
            while y < self.height
                invariant
                    self.wf(),
                    w == self.spec_width(),
                    h == self.spec_height(),
                    x < self.width,
                    y <= self.height,
                    out@.len() == x * h + y,
                    forall|i: int|
                        0 <= i < out@.len() ==> #[trigger] out@[i] == (IVec2 {
                            x: (i / h) as i32,
                            y: (i % h) as i32,
                        }),
                decreases self.height - y,
            {
                proof {
                    vstd::arithmetic::div_mod::lemma_fundamental_div_mod_converse(
                        (x * h + y) as int,
                        h,
                        x as int,
                        y as int,
                    );
                    assert(x * h + y < x * h + h);
                    assert((x as int) * h + h == (x as int + 1) * h) by (nonlinear_arith);
                    assert((x as int + 1) * h <= w * h) by (nonlinear_arith)
                        requires
                            x as int + 1 <= w,
                            h >= 0,
                    ;
                    assert(w * h <= MAX_DIM * MAX_DIM) by (nonlinear_arith)
                        requires
                            0 <= w <= MAX_DIM as int,
                            0 <= h <= MAX_DIM as int,
                    ;
                }
                out.push(IVec2 { x: x as i32, y: y as i32 });
                y = y + 1;
            }
            proof {
                assert((x as int) * h + h == (x as int + 1) * h) by (nonlinear_arith);
            }
            x = x + 1;
        }
        out
    }

    /// The tile currently at a contained coordinate.
    pub fn tile_at(&self, pos: IVec2) -> (t: TileType)
        requires
            self.wf(),
            self.spec_contains(pos.x as int, pos.y as int),
        ensures
            t == self.spec_tile_at(pos.x as int, pos.y as int),
    {
        proof {
            self.lemma_idx_bounds(pos.x as int, pos.y as int);
        }
        let idx: usize = (pos.y as usize) * self.width + (pos.x as usize);
        self.tiles[idx]
    }

    /// Replaces the tile at a contained coordinate.
    pub fn set_tile(&mut self, pos: IVec2, t: TileType)
        requires
            old(self).wf(),
            old(self).spec_contains(pos.x as int, pos.y as int),
        ensures
            final(self).wf(),
            final(self).spec_width() == old(self).spec_width(),
            final(self).spec_height() == old(self).spec_height(),
            final(self).spec_spawn_points() == old(self).spec_spawn_points(),
            final(self).tile_seq() == old(self).tile_seq().update(
                old(self).idx_of(pos.x as int, pos.y as int),
                t,
            ),
    {
        proof {
            self.lemma_idx_bounds(pos.x as int, pos.y as int);
        }
        let idx: usize = (pos.y as usize) * self.width + (pos.x as usize);
        self.tiles[idx] = t;
    }
}

/// Number of edge coordinates among the first `k` cells of a `w`-by-`h`
/// grid, enumerated in the `pos_iter` order (cell `i` is `(i/h, i%h)`).
pub open spec fn edge_cells_upto(w: int, h: int, k: int) -> int
    decreases k,
{
    if k <= 0 {
        0
    } else {
        edge_cells_upto(w, h, k - 1) + if spec_is_edge(w, h, (k - 1) / h, (k - 1) % h) {
            1int
        } else {
            0int
        }
    }
}

/// Edge cells in one full column `x`: a whole column on the left and right
/// borders, otherwise just the top and bottom cells.
pub open spec fn col_edge_cells(w: int, h: int, x: int) -> int {
    if x == 0 || x == w - 1 {
        h
    } else {
        2
    }
}

/// Edge cells in the first `x` full columns.
pub open spec fn cols_edge_cells(w: int, h: int, x: int) -> int
    decreases x,
{
    if x <= 0 {
        0
    } else {
        cols_edge_cells(w, h, x - 1) + col_edge_cells(w, h, x - 1)
    }
}

/// Edge cells among the first `y` rows of column `x`.
pub open spec fn partial_col_edge_cells(w: int, h: int, x: int, y: int) -> int {
    if x == 0 || x == w - 1 {
        y
    } else {
        (if y >= 1 {
            1int
        } else {
            0int
        }) + (if y >= h {
            1int
        } else {
            0int
        })
    }
}

proof fn lemma_edge_cells_upto_form(w: int, h: int, k: int)
    requires
        w >= 2,
        h >= 2,
        0 <= k <= w * h,
    ensures
        edge_cells_upto(w, h, k) == cols_edge_cells(w, h, k / h) + partial_col_edge_cells(
            w,
            h,
            k / h,
            k % h,
        ),
    decreases k,
{
    if k == 0 {
        assert(0int / h == 0) by {
            vstd::arithmetic::div_mod::lemma_fundamental_div_mod_converse(0, h, 0, 0);
        }
    } else {
        lemma_edge_cells_upto_form(w, h, k - 1);
        let x = (k - 1) / h;
        let y = (k - 1) % h;
        vstd::arithmetic::div_mod::lemma_fundamental_div_mod(k - 1, h);
        assert(k - 1 == h * x + y);
        assert(0 <= y < h) by {
            vstd::arithmetic::div_mod::lemma_mod_bound(k - 1, h);
        }
        assert(0 <= x) by (nonlinear_arith)
            requires
                k - 1 >= 0,
                h >= 1,
                k - 1 == h * x + y,
                0 <= y < h,
        ;
        assert(h * x == x * h) by (nonlinear_arith);
        if y + 1 < h {
            assert(k / h == x && k % h == y + 1) by {
                vstd::arithmetic::div_mod::lemma_fundamental_div_mod_converse(k, h, x, y + 1);
            }
        } else {
            assert(y == h - 1);
            assert(k == (x + 1) * h) by (nonlinear_arith)
                requires
                    k - 1 == h * x + h - 1,
            ;
            assert(k / h == x + 1 && k % h == 0) by {
                vstd::arithmetic::div_mod::lemma_fundamental_div_mod_converse(k, h, x + 1, 0);
            }
        }
    }
}

proof fn lemma_cols_edge_cells_form(w: int, h: int, x: int)
    requires
        w >= 2,
        h >= 2,
        1 <= x <= w - 1,
    ensures
        cols_edge_cells(w, h, x) == h + 2 * (x - 1),
    decreases x,
{
    if x == 1 {
        assert(cols_edge_cells(w, h, 0) == 0);
    } else {
        lemma_cols_edge_cells_form(w, h, x - 1);
    }
}

/// For any grid with both dimensions at least 2, the number of edge
/// coordinates is `2*w + 2*h - 4`: counted once per cell over the
/// `pos_iter` enumeration of all `w * h` coordinates.
pub proof fn lemma_edge_count(w: int, h: int)
    requires
        w >= 2,
        h >= 2,
    ensures
        edge_cells_upto(w, h, w * h) == 2 * w + 2 * h - 4,
{
    let k = w * h;
    assert(w * h >= 0) by (nonlinear_arith)
        requires
            w >= 2,
            h >= 2,
    ;
    lemma_edge_cells_upto_form(w, h, k);
    assert(w * h == h * w) by (nonlinear_arith);
    assert(k / h == w && k % h == 0) by {
        vstd::arithmetic::div_mod::lemma_fundamental_div_mod_converse(k, h, w, 0);
    }
    lemma_cols_edge_cells_form(w, h, w - 1);
}

} // verus!
