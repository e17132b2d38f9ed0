//! Fixed-point plane geometry: cell coordinates, continuous positions in
//! thousandths of a tile edge, rounding from positions to cells, truncating
//! scaled division, and an exact integer square root.

use vstd::prelude::*;

verus! {

/// Fixed-point units that make up one tile edge.
pub const FX_ONE: i64 = 1000;

/// Half a tile edge, in fixed-point units.
pub const FX_HALF: i64 = 500;

/// Largest magnitude of a position coordinate the collision code accepts;
/// keeps every squared distance within `i64`.
pub const MAX_POS_FX: i64 = 1_000_000_000;

/// Largest grid dimension; keeps cell centers within `MAX_POS_FX`.
pub const MAX_DIM: usize = 1_000_000;

/// An integer cell coordinate on the grid.
#[derive(Clone, Copy, PartialEq, Eq, Structural, Debug)]
pub struct IVec2 {
    pub x: i32,
    pub y: i32,
}

impl IVec2 {
    pub fn new(x: i32, y: i32) -> (r: IVec2)
        ensures
            r.x == x,
            r.y == y,
    {
        IVec2 { x, y }
    }
}

/// A continuous position, each coordinate in fixed-point units
/// (`FX_ONE` per tile edge).
#[derive(Clone, Copy, PartialEq, Eq, Structural, Debug)]
pub struct Vec2Fx {
    pub x: i64,
    pub y: i64,
}

impl Vec2Fx {
    pub fn new(x: i64, y: i64) -> (r: Vec2Fx)
        ensures
            r.x == x,
            r.y == y,
    {
        Vec2Fx { x, y }
    }

    pub fn zero() -> (r: Vec2Fx)
        ensures
            r.x == 0,
            r.y == 0,
    {
        Vec2Fx { x: 0, y: 0 }
    }
}

/// Nearest integer to `v / FX_ONE`, halves rounded away from zero; this is
/// how a continuous position picks the cell it lies in.
pub open spec fn round_fx(v: int) -> int {
    if v >= 0 {
        (v + 500) / 1000
    } else {
        -(((-v) + 500) / 1000)
    }
}

pub fn round_fx_to_cell(v: i64) -> (r: i32)
    requires
        -MAX_POS_FX <= v <= MAX_POS_FX,
    ensures
        r as int == round_fx(v as int),
{
    if v >= 0 {
        let q: u64 = ((v as u64) + 500) / 1000;
        q as i32
    } else {
        let q: u64 = (((-v) as u64) + 500) / 1000;
        -(q as i32)
    }
}

/// `v` clamped into `[lo, hi]`.
pub open spec fn clamp_i(v: int, lo: int, hi: int) -> int {
    if v < lo {
        lo
    } else if v > hi {
        hi
    } else {
        v
    }
}

/// Floor of the real square root of `n` (0 for negative `n`).
pub open spec fn sqrt_floor(n: int) -> int
    decreases n,
{
    if n <= 0 {
        0
    } else {
        let p = sqrt_floor(n - 1);
        if (p + 1) * (p + 1) <= n {
            p + 1
        } else {
            p
        }
    }
}

pub proof fn lemma_sqrt_floor_nonneg(n: int)
    ensures
        sqrt_floor(n) >= 0,
    decreases n,
{
    if n > 0 {
        lemma_sqrt_floor_nonneg(n - 1);
    }
}

pub proof fn lemma_sqrt_floor_bounds(n: int)
    requires
        n >= 0,
    ensures
        sqrt_floor(n) >= 0,
        sqrt_floor(n) * sqrt_floor(n) <= n,
        n < (sqrt_floor(n) + 1) * (sqrt_floor(n) + 1),
    decreases n,
{
    if n == 0 {
    } else {
        lemma_sqrt_floor_bounds(n - 1);
        let p = sqrt_floor(n - 1);
        if (p + 1) * (p + 1) <= n {
            assert(n <= (p + 1) * (p + 1)) by {
                assert(n - 1 < (p + 1) * (p + 1));
            }
            assert((p + 2) * (p + 2) > (p + 1) * (p + 1)) by (nonlinear_arith)
                requires
                    p >= 0,
            ;
        } else {
        }
    }
}

pub proof fn lemma_sqrt_floor_unique(n: int, r: int)
    requires
        n >= 0,
        r >= 0,
        r * r <= n,
        n < (r + 1) * (r + 1),
    ensures
        r == sqrt_floor(n),
{
    lemma_sqrt_floor_bounds(n);
    let s = sqrt_floor(n);
    if r < s {
        assert((r + 1) * (r + 1) <= s * s) by (nonlinear_arith)
            requires
                0 <= r + 1 <= s,
        ;
    }
    if s < r {
        assert((s + 1) * (s + 1) <= r * r) by (nonlinear_arith)
            requires
                0 <= s + 1 <= r,
        ;
    }
}

/// Exact integer square root by binary search.
pub fn isqrt64(n: u64) -> (r: u64)
    ensures
        r as int == sqrt_floor(n as int),
        r * r <= n,
        r <= 4294967295,
{
    let mut lo: u64 = 0;
    let mut hi: u64 = 4294967295;
    while lo < hi
        invariant
            lo <= hi <= 4294967295,
            (lo as int) * (lo as int) <= n as int,
            (n as int) < ((hi as int) + 1) * ((hi as int) + 1),
        decreases hi - lo,
    {
        let mid: u64 = lo + (hi - lo + 1) / 2;
        assert(lo < mid <= hi);
        assert((mid as int) * (mid as int) <= 4294967295 * 4294967295) by (nonlinear_arith)
            requires
                0 <= mid <= 4294967295,
        ;
        if mid * mid <= n {
            lo = mid;
        } else {
            hi = mid - 1;
        }
    }
    proof {
        lemma_sqrt_floor_unique(n as int, lo as int);
    }
    lo
}

/// Truncating `(a * m) / d` for `m >= 0`, `d > 0`: the fixed-point product
/// used for scaling a vector by a unit fraction.
pub open spec fn scale_div(a: int, m: int, d: int) -> int {
    if a >= 0 {
        (a * m) / d
    } else {
        -((((-a)) * m) / d)
    }
}

pub fn scale_div_exec(a: i64, m: i64, d: i64) -> (r: i64)
    requires
        0 <= m <= 1000,
        0 < d,
        -4_000_000_000 <= a <= 4_000_000_000,
    ensures
        r as int == scale_div(a as int, m as int, d as int),
{
    if a >= 0 {
        proof {
            assert((a as int) * (m as int) <= 4_000_000_000 * 1000) by (nonlinear_arith)
                requires
                    0 <= a <= 4_000_000_000,
                    0 <= m <= 1000,
            ;
            vstd::arithmetic::div_mod::lemma_div_is_ordered(
                (a as int) * (m as int),
                4_000_000_000_000,
                d as int,
            );
        }
        let p: u64 = (a as u64) * (m as u64);
        let q: u64 = p / (d as u64);
        q as i64
    } else {
        proof {
            assert(((-a) as int) * (m as int) <= 4_000_000_000 * 1000) by (nonlinear_arith)
                requires
                    0 <= (-a) as int <= 4_000_000_000,
                    0 <= m <= 1000,
            ;
            vstd::arithmetic::div_mod::lemma_div_is_ordered(
                ((-a) as int) * (m as int),
                4_000_000_000_000,
                d as int,
            );
        }
        let p: u64 = ((-a) as u64) * (m as u64);
        let q: u64 = p / (d as u64);
        -(q as i64)
    }
}

/// The unit vector along `(dx, dy)`, in fixed-point units (length `FX_ONE`),
/// truncated toward zero per coordinate; the zero vector stays zero.
pub open spec fn normalize_fx_spec(dx: int, dy: int) -> (int, int) {
    let len = sqrt_floor(dx * dx + dy * dy);
    if len == 0 {
        (0, 0)
    } else {
        (scale_div(dx, 1000, len), scale_div(dy, 1000, len))
    }
}

proof fn lemma_scale_div_unit_bound(d: int, len: int)
    requires
        0 < len,
        -len <= d <= len,
    ensures
        -1000 <= scale_div(d, 1000, len) <= 1000,
{
    vstd::arithmetic::div_mod::lemma_div_multiples_vanish(1000, len);
    assert((len * 1000) / len == 1000);
    if d >= 0 {
        assert(d * 1000 <= len * 1000) by (nonlinear_arith)
            requires
                0 <= d <= len,
        ;
        vstd::arithmetic::div_mod::lemma_div_is_ordered(d * 1000, len * 1000, len);
        assert(d * 1000 >= 0) by (nonlinear_arith)
            requires
                d >= 0,
        ;
        vstd::arithmetic::div_mod::lemma_div_pos_is_pos(d * 1000, len);
    } else {
        assert((-d) * 1000 <= len * 1000) by (nonlinear_arith)
            requires
                0 <= -d <= len,
        ;
        vstd::arithmetic::div_mod::lemma_div_is_ordered((-d) * 1000, len * 1000, len);
        assert((-d) * 1000 >= 0) by (nonlinear_arith)
            requires
                -d >= 0,
        ;
        vstd::arithmetic::div_mod::lemma_div_pos_is_pos((-d) * 1000, len);
    }
}

/// A normalized vector's coordinates never exceed one fixed-point unit in
/// magnitude.
pub proof fn lemma_normalize_bounds(dx: int, dy: int)
    ensures
        -1000 <= normalize_fx_spec(dx, dy).0 <= 1000,
        -1000 <= normalize_fx_spec(dx, dy).1 <= 1000,
{
    assert(dx * dx >= 0) by (nonlinear_arith);
    assert(dy * dy >= 0) by (nonlinear_arith);
    let n = dx * dx + dy * dy;
    let len = sqrt_floor(n);
    lemma_sqrt_floor_bounds(n);
    if len != 0 {
        if dx > len || dx < -len {
            assert(dx * dx >= (len + 1) * (len + 1)) by (nonlinear_arith)
                requires
                    len >= 0,
                    dx > len || dx < -len,
            ;
        }
        if dy > len || dy < -len {
            assert(dy * dy >= (len + 1) * (len + 1)) by (nonlinear_arith)
                requires
                    len >= 0,
                    dy > len || dy < -len,
            ;
        }
        lemma_scale_div_unit_bound(dx, len);
        lemma_scale_div_unit_bound(dy, len);
    }
}

pub fn normalize_fx(v: Vec2Fx) -> (r: Vec2Fx)
    requires
        -2_100_000_000 <= v.x <= 2_100_000_000,
        -2_100_000_000 <= v.y <= 2_100_000_000,
    ensures
        (r.x as int, r.y as int) == normalize_fx_spec(v.x as int, v.y as int),
{
    let ax: u64 = if v.x >= 0 {
        v.x as u64
    } else {
        (-v.x) as u64
    };
    let ay: u64 = if v.y >= 0 {
        v.y as u64
    } else {
        (-v.y) as u64
    };
    proof {
        assert((ax as int) * (ax as int) == (v.x as int) * (v.x as int)) by (nonlinear_arith)
            requires
                ax as int == v.x as int || ax as int == -(v.x as int),
        ;
        assert((ay as int) * (ay as int) == (v.y as int) * (v.y as int)) by (nonlinear_arith)
            requires
                ay as int == v.y as int || ay as int == -(v.y as int),
        ;
        assert((ax as int) * (ax as int) <= 2_100_000_000 * 2_100_000_000) by (nonlinear_arith)
            requires
                0 <= ax as int <= 2_100_000_000,
        ;
        assert((ay as int) * (ay as int) <= 2_100_000_000 * 2_100_000_000) by (nonlinear_arith)
            requires
                0 <= ay as int <= 2_100_000_000,
        ;
    }
    let dsq: u64 = ax * ax + ay * ay;
    let len: u64 = isqrt64(dsq);
    if len == 0 {
        Vec2Fx { x: 0, y: 0 }
    } else {
        proof {
            assert(len <= 4294967295) by {
                if len as int > 4294967295 {
                    assert((len as int) * (len as int) > 4294967295 * 4294967295) by (nonlinear_arith)
                        requires
                            len as int > 4294967295,
                    ;
                }
            }
        }
        Vec2Fx {
            x: scale_div_exec(v.x, 1000, len as i64),
            y: scale_div_exec(v.y, 1000, len as i64),
        }
    }
}

} // verus!
