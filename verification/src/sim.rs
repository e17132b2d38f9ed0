//! The bomb/explosion propagator: one pass per simulation tick over every
//! cell in `pos_iter` order. A due bomb becomes an explosion, credits its
//! owner a bomb, and casts four blast rays that burn open cells, break the
//! first breakable wall they meet, stop at solid walls, and retime any bomb
//! in their path to detonate now — so a bomb set off by the blast explodes
//! later in the same pass if its cell has not been visited yet, else on the
//! next pass. A burnt-out explosion reverts to its residue.

use vstd::prelude::*;

verus! {

use crate::geom::IVec2;
use crate::grid::Grid;
use crate::player::Player;
use crate::tile::{TileType, Residue, Bomb, EXPLOSION_DURATION_MS};

/// Number of bomb tiles in a sequence of cells.
pub open spec fn bomb_count(t: Seq<TileType>) -> int
    decreases t.len(),
{
    if t.len() == 0 {
        0
    } else {
        bomb_count(t.drop_last()) + if t.last() is Bomb {
            1int
        } else {
            0int
        }
    }
}

pub proof fn lemma_bomb_count_nonneg(t: Seq<TileType>)
    ensures
        bomb_count(t) >= 0,
    decreases t.len(),
{
    if t.len() > 0 {
        lemma_bomb_count_nonneg(t.drop_last());
    }
}

pub proof fn lemma_bomb_count_update(t: Seq<TileType>, i: int, v: TileType)
    requires
        0 <= i < t.len(),
    ensures
        bomb_count(t.update(i, v)) == bomb_count(t) - (if t[i] is Bomb {
            1int
        } else {
            0int
        }) + (if v is Bomb {
            1int
        } else {
            0int
        }),
    decreases t.len(),
{
    if i == t.len() - 1 {
        assert(t.update(i, v).drop_last() =~= t.drop_last());
        assert(t.update(i, v).last() == v);
    } else {
        lemma_bomb_count_update(t.drop_last(), i, v);
        assert(t.update(i, v).drop_last() =~= t.drop_last().update(i, v));
        assert(t.update(i, v).last() == t.last());
    }
}

pub proof fn lemma_bomb_count_at_least_one(t: Seq<TileType>, i: int)
    requires
        0 <= i < t.len(),
        t[i] is Bomb,
    ensures
        bomb_count(t) >= 1,
    decreases t.len(),
{
    lemma_bomb_count_nonneg(t.drop_last());
    if i < t.len() - 1 {
        lemma_bomb_count_at_least_one(t.drop_last(), i);
    }
}

/// One blast ray: from `(x, y)`, walk `remaining` more cells in direction
/// `(dx, dy)`. Open cells and power-ups burn (empty residue) and the ray
/// goes on; the first breakable wall burns keeping its hidden content as
/// residue and stops the ray; a solid wall stops the ray untouched; a bomb
/// in the path is retimed to detonate now and the ray passes over it;
/// anything else is passed over; the grid edge stops the ray.
pub open spec fn spec_blast_ray(
    t: Seq<TileType>,
    w: int,
    h: int,
    x: int,
    y: int,
    dx: int,
    dy: int,
    remaining: int,
    now: u64,
) -> Seq<TileType>
    decreases remaining,
{
    if remaining <= 0 {
        t
    } else {
        let nx = x + dx;
        let ny = y + dy;
        if !(0 <= nx < w && 0 <= ny < h) {
            t
        } else {
            let idx = ny * w + nx;
            match t[idx] {
                TileType::Empty => spec_blast_ray(
                    t.update(
                        idx,
                        TileType::Explosion(
                            Some((now + EXPLOSION_DURATION_MS) as u64),
                            Residue::Empty,
                        ),
                    ),
                    w,
                    h,
                    nx,
                    ny,
                    dx,
                    dy,
                    remaining - 1,
                    now,
                ),
                TileType::PowerUp(_) => spec_blast_ray(
                    t.update(
                        idx,
                        TileType::Explosion(
                            Some((now + EXPLOSION_DURATION_MS) as u64),
                            Residue::Empty,
                        ),
                    ),
                    w,
                    h,
                    nx,
                    ny,
                    dx,
                    dy,
                    remaining - 1,
                    now,
                ),
                TileType::BreakableWall(res) => t.update(
                    idx,
                    TileType::Explosion(Some((now + EXPLOSION_DURATION_MS) as u64), res),
                ),
                TileType::SolidWall => t,
                TileType::Bomb(ob) => match ob {
                    Some(b) => spec_blast_ray(
                        t.update(
                            idx,
                            TileType::Bomb(
                                Some(
                                    Bomb {
                                        when_to_explode: now,
                                        firepower: b.firepower,
                                        player_index: b.player_index,
                                    },
                                ),
                            ),
                        ),
                        w,
                        h,
                        nx,
                        ny,
                        dx,
                        dy,
                        remaining - 1,
                        now,
                    ),
                    None => spec_blast_ray(t, w, h, nx, ny, dx, dy, remaining - 1, now),
                },
                TileType::Explosion(_, _) => spec_blast_ray(
                    t,
                    w,
                    h,
                    nx,
                    ny,
                    dx,
                    dy,
                    remaining - 1,
                    now,
                ),
            }
        }
    }
}

/// A blast ray never creates or removes a bomb tile: it only burns cells,
/// breaks walls, or retimes bombs in place.
pub proof fn lemma_blast_ray_preserves_bomb_count(
    t: Seq<TileType>,
    w: int,
    h: int,
    x: int,
    y: int,
    dx: int,
    dy: int,
    remaining: int,
    now: u64,
)
    requires
        t.len() == w * h,
    ensures
        bomb_count(spec_blast_ray(t, w, h, x, y, dx, dy, remaining, now)) == bomb_count(t),
        spec_blast_ray(t, w, h, x, y, dx, dy, remaining, now).len() == t.len(),
    decreases remaining,
{
    if remaining <= 0 {
    } else {
        let nx = x + dx;
        let ny = y + dy;
        if 0 <= nx < w && 0 <= ny < h {
            let idx = ny * w + nx;
            assert(0 <= idx < w * h) by (nonlinear_arith)
                requires
                    0 <= nx < w,
                    0 <= ny < h,
                    idx == ny * w + nx,
            ;
            match t[idx] {
                TileType::Empty => {
                    let t1 = t.update(
                        idx,
                        TileType::Explosion(
                            Some((now + EXPLOSION_DURATION_MS) as u64),
                            Residue::Empty,
                        ),
                    );
                    lemma_bomb_count_update(
                        t,
                        idx,
                        TileType::Explosion(
                            Some((now + EXPLOSION_DURATION_MS) as u64),
                            Residue::Empty,
                        ),
                    );
                    lemma_blast_ray_preserves_bomb_count(t1, w, h, nx, ny, dx, dy, remaining - 1, now);
                },
                TileType::PowerUp(_) => {
                    let t1 = t.update(
                        idx,
                        TileType::Explosion(
                            Some((now + EXPLOSION_DURATION_MS) as u64),
                            Residue::Empty,
                        ),
                    );
                    lemma_bomb_count_update(
                        t,
                        idx,
                        TileType::Explosion(
                            Some((now + EXPLOSION_DURATION_MS) as u64),
                            Residue::Empty,
                        ),
                    );
                    lemma_blast_ray_preserves_bomb_count(t1, w, h, nx, ny, dx, dy, remaining - 1, now);
                },
                TileType::BreakableWall(res) => {
                    lemma_bomb_count_update(
                        t,
                        idx,
                        TileType::Explosion(Some((now + EXPLOSION_DURATION_MS) as u64), res),
                    );
                },
                TileType::SolidWall => {},
                TileType::Bomb(ob) => match ob {
                    Some(b) => {
                        let v = TileType::Bomb(
                            Some(
                                Bomb {
                                    when_to_explode: now,
                                    firepower: b.firepower,
                                    player_index: b.player_index,
                                },
                            ),
                        );
                        lemma_bomb_count_update(t, idx, v);
                        lemma_blast_ray_preserves_bomb_count(
                            t.update(idx, v),
                            w,
                            h,
                            nx,
                            ny,
                            dx,
                            dy,
                            remaining - 1,
                            now,
                        );
                    },
                    None => {
                        lemma_blast_ray_preserves_bomb_count(t, w, h, nx, ny, dx, dy, remaining - 1, now);
                    },
                },
                TileType::Explosion(_, _) => {
                    lemma_blast_ray_preserves_bomb_count(t, w, h, nx, ny, dx, dy, remaining - 1, now);
                },
            }
        }
    }
}

/// A blast ray whose very first cell is a solid wall changes nothing: the
/// wall is never converted, and no cell at or beyond it along the ray is
/// affected.
pub proof fn lemma_blast_stops_at_solid_wall(
    t: Seq<TileType>,
    w: int,
    h: int,
    x: int,
    y: int,
    dx: int,
    dy: int,
    remaining: int,
    now: u64,
)
    requires
        0 <= x + dx < w,
        0 <= y + dy < h,
        t[(y + dy) * w + (x + dx)] is SolidWall,
    ensures
        spec_blast_ray(t, w, h, x, y, dx, dy, remaining, now) == t,
{
}

/// A blast ray leaves inert cells — explosions and solid walls — exactly
/// as it found them: it only ever writes to cells it matched as open,
/// power-up, breakable wall, or bomb.
pub proof fn lemma_ray_preserves_inert(
    t: Seq<TileType>,
    w: int,
    h: int,
    x: int,
    y: int,
    dx: int,
    dy: int,
    remaining: int,
    now: u64,
    i: int,
)
    requires
        t.len() == w * h,
        0 <= i < t.len(),
        t[i] is Explosion || t[i] is SolidWall,
    ensures
        spec_blast_ray(t, w, h, x, y, dx, dy, remaining, now)[i] == t[i],
        spec_blast_ray(t, w, h, x, y, dx, dy, remaining, now).len() == t.len(),
    decreases remaining,
{
    if remaining <= 0 {
    } else {
        let nx = x + dx;
        let ny = y + dy;
        if 0 <= nx < w && 0 <= ny < h {
            let idx = ny * w + nx;
            assert(0 <= idx < w * h) by (nonlinear_arith)
                requires
                    (0 <= nx && nx < w),
                    (0 <= ny && ny < h),
                    (idx == ny * w + nx),
            ;
            match t[idx] {
                TileType::Empty => {
                    lemma_ray_preserves_inert(
                        t.update(
                            idx,
                            TileType::Explosion(
                                Some((now + EXPLOSION_DURATION_MS) as u64),
                                Residue::Empty,
                            ),
                        ),
                        w,
                        h,
                        nx,
                        ny,
                        dx,
                        dy,
                        remaining - 1,
                        now,
                        i,
                    );
                },
                TileType::PowerUp(_) => {
                    lemma_ray_preserves_inert(
                        t.update(
                            idx,
                            TileType::Explosion(
                                Some((now + EXPLOSION_DURATION_MS) as u64),
                                Residue::Empty,
                            ),
                        ),
                        w,
                        h,
                        nx,
                        ny,
                        dx,
                        dy,
                        remaining - 1,
                        now,
                        i,
                    );
                },
                TileType::BreakableWall(res) => {},
                TileType::SolidWall => {},
                TileType::Bomb(ob) => match ob {
                    Some(b) => {
                        lemma_ray_preserves_inert(
                            t.update(
                                idx,
                                TileType::Bomb(
                                    Some(
                                        Bomb {
                                            when_to_explode: now,
                                            firepower: b.firepower,
                                            player_index: b.player_index,
                                        },
                                    ),
                                ),
                            ),
                            w,
                            h,
                            nx,
                            ny,
                            dx,
                            dy,
                            remaining - 1,
                            now,
                            i,
                        );
                    },
                    None => {
                        lemma_ray_preserves_inert(t, w, h, nx, ny, dx, dy, remaining - 1, now, i);
                    },
                },
                TileType::Explosion(_, _) => {
                    lemma_ray_preserves_inert(t, w, h, nx, ny, dx, dy, remaining - 1, now, i);
                },
            }
        }
    }
}

/// A blast ray keeps a due bomb due: the cell still holds a bomb whose
/// fuse is at or before `now` (the ray either left it alone or retimed it
/// to `now`).
pub proof fn lemma_ray_keeps_due_bomb(
    t: Seq<TileType>,
    w: int,
    h: int,
    x: int,
    y: int,
    dx: int,
    dy: int,
    remaining: int,
    now: u64,
    i: int,
)
    requires
        t.len() == w * h,
        0 <= i < t.len(),
        t[i] matches TileType::Bomb(Some(b)) && b.when_to_explode <= now,
    ensures
        spec_blast_ray(t, w, h, x, y, dx, dy, remaining, now)[i] matches TileType::Bomb(Some(b2))
            && b2.when_to_explode <= now,
        spec_blast_ray(t, w, h, x, y, dx, dy, remaining, now).len() == t.len(),
    decreases remaining,
{
    if remaining <= 0 {
    } else {
        let nx = x + dx;
        let ny = y + dy;
        if 0 <= nx < w && 0 <= ny < h {
            let idx = ny * w + nx;
            assert(0 <= idx < w * h) by (nonlinear_arith)
                requires
                    (0 <= nx && nx < w),
                    (0 <= ny && ny < h),
                    (idx == ny * w + nx),
            ;
            match t[idx] {
                TileType::Empty => {
                    lemma_ray_keeps_due_bomb(
                        t.update(
                            idx,
                            TileType::Explosion(
                                Some((now + EXPLOSION_DURATION_MS) as u64),
                                Residue::Empty,
                            ),
                        ),
                        w,
                        h,
                        nx,
                        ny,
                        dx,
                        dy,
                        remaining - 1,
                        now,
                        i,
                    );
                },
                TileType::PowerUp(_) => {
                    lemma_ray_keeps_due_bomb(
                        t.update(
                            idx,
                            TileType::Explosion(
                                Some((now + EXPLOSION_DURATION_MS) as u64),
                                Residue::Empty,
                            ),
                        ),
                        w,
                        h,
                        nx,
                        ny,
                        dx,
                        dy,
                        remaining - 1,
                        now,
                        i,
                    );
                },
                TileType::BreakableWall(res) => {},
                TileType::SolidWall => {},
                TileType::Bomb(ob) => match ob {
                    Some(b) => {
                        lemma_ray_keeps_due_bomb(
                            t.update(
                                idx,
                                TileType::Bomb(
                                    Some(
                                        Bomb {
                                            when_to_explode: now,
                                            firepower: b.firepower,
                                            player_index: b.player_index,
                                        },
                                    ),
                                ),
                            ),
                            w,
                            h,
                            nx,
                            ny,
                            dx,
                            dy,
                            remaining - 1,
                            now,
                            i,
                        );
                    },
                    None => {
                        lemma_ray_keeps_due_bomb(t, w, h, nx, ny, dx, dy, remaining - 1, now, i);
                    },
                },
                TileType::Explosion(_, _) => {
                    lemma_ray_keeps_due_bomb(t, w, h, nx, ny, dx, dy, remaining - 1, now, i);
                },
            }
        }
    }
}

/// Effect of visiting one cell during a tick pass. A due bomb detonates:
/// the cell burns (empty residue), the owning player — if the index is
/// known — gets a bomb credited back, and four rays are cast, in the order
/// down, up, right, left. A due explosion reverts to its residue. Anything
/// else is left alone.
pub open spec fn spec_process_cell(
    t: Seq<TileType>,
    pl: Seq<Player>,
    w: int,
    h: int,
    x: int,
    y: int,
    now: u64,
) -> (Seq<TileType>, Seq<Player>) {
    let idx = y * w + x;
    match t[idx] {
        TileType::Bomb(ob) => match ob {
            Some(b) => if now >= b.when_to_explode {
                let t1 = t.update(
                    idx,
                    TileType::Explosion(Some((now + EXPLOSION_DURATION_MS) as u64), Residue::Empty),
                );
                let pl1 = if b.player_index < pl.len() {
                    pl.update(
                        b.player_index as int,
                        Player {
                            num_bombs: (pl[b.player_index as int].num_bombs + 1) as i32,
                            ..pl[b.player_index as int]
                        },
                    )
                } else {
                    pl
                };
                let fp = b.firepower as int;
                let t2 = spec_blast_ray(t1, w, h, x, y, 0, 1, fp, now);
                let t3 = spec_blast_ray(t2, w, h, x, y, 0, -1, fp, now);
                let t4 = spec_blast_ray(t3, w, h, x, y, 1, 0, fp, now);
                let t5 = spec_blast_ray(t4, w, h, x, y, -1, 0, fp, now);
                (t5, pl1)
            } else {
                (t, pl)
            },
            None => (t, pl),
        },
        TileType::Explosion(ot, res) => match ot {
            Some(tm) => if now >= tm {
                (t.update(idx, res.to_tile_spec()), pl)
            } else {
                (t, pl)
            },
            None => (t, pl),
        },
        _ => (t, pl),
    }
}

/// The tick pass from cell `k` on: cells are visited in `pos_iter` order
/// (cell `k` is `(k / h, k % h)`), each cell exactly once, reading the
/// state as left by the cells before it — which is what lets a bomb retimed
/// by an earlier blast detonate within the same pass.
pub open spec fn spec_tick_from(
    t: Seq<TileType>,
    pl: Seq<Player>,
    w: int,
    h: int,
    k: int,
    now: u64,
) -> (Seq<TileType>, Seq<Player>)
    decreases w * h - k,
{
    if k < 0 || h <= 0 || k >= w * h {
        (t, pl)
    } else {
        let r = spec_process_cell(t, pl, w, h, k / h, k % h, now);
        spec_tick_from(r.0, r.1, w, h, k + 1, now)
    }
}

/// One whole propagator pass over the grid at time `now`.
pub open spec fn spec_tick(t: Seq<TileType>, pl: Seq<Player>, w: int, h: int, now: u64) -> (
    Seq<TileType>,
    Seq<Player>,
) {
    spec_tick_from(t, pl, w, h, 0, now)
}

/// Casts one blast ray through the grid, as `spec_blast_ray` describes.
fn blast_ray(grid: &mut Grid, origin: IVec2, dx: i32, dy: i32, firepower: i32, now: u64)
    requires
        old(grid).wf(),
        old(grid).spec_contains(origin.x as int, origin.y as int),
        (dx == 0 && (dy == 1 || dy == -1)) || (dy == 0 && (dx == 1 || dx == -1)),
        now + EXPLOSION_DURATION_MS <= u64::MAX,
    ensures
        final(grid).wf(),
        final(grid).spec_width() == old(grid).spec_width(),
        final(grid).spec_height() == old(grid).spec_height(),
        final(grid).spec_spawn_points() == old(grid).spec_spawn_points(),
        final(grid).tile_seq() == spec_blast_ray(
            old(grid).tile_seq(),
            old(grid).spec_width(),
            old(grid).spec_height(),
            origin.x as int,
            origin.y as int,
            dx as int,
            dy as int,
            firepower as int,
            now,
        ),
{
    let ghost w = grid.spec_width();
    let ghost h = grid.spec_height();
    let ghost sp0 = grid.spec_spawn_points();
    let ghost t0 = grid.tile_seq();
    let ghost full = spec_blast_ray(
        t0,
        w,
        h,
        origin.x as int,
        origin.y as int,
        dx as int,
        dy as int,
        firepower as int,
        now,
    );
    let mut cx: i32 = origin.x;
    let mut cy: i32 = origin.y;
    let mut dist: i32 = 0;
    while dist < firepower
        invariant_except_break
            grid.wf(),
            grid.spec_width() == w,
            grid.spec_height() == h,
            grid.spec_spawn_points() == sp0,
            (dx == 0 && (dy == 1 || dy == -1)) || (dy == 0 && (dx == 1 || dx == -1)),
            now + EXPLOSION_DURATION_MS <= u64::MAX,
            0 <= dist,
            dist <= firepower || dist == 0,
            grid.spec_contains(cx as int, cy as int),
            spec_blast_ray(
                grid.tile_seq(),
                w,
                h,
                cx as int,
                cy as int,
                dx as int,
                dy as int,
                firepower - dist,
                now,
            ) == full,
        ensures
            grid.wf(),
            grid.spec_width() == w,
            grid.spec_height() == h,
            grid.spec_spawn_points() == sp0,
            grid.tile_seq() == full,
        decreases firepower - dist,
    {
        let nx: i32 = cx + dx;
        let ny: i32 = cy + dy;
        let next = IVec2 { x: nx, y: ny };
        if !grid.contains(next) {
            proof {
                assert(spec_blast_ray(
                    grid.tile_seq(),
                    w,
                    h,
                    cx as int,
                    cy as int,
                    dx as int,
                    dy as int,
                    firepower - dist,
                    now,
                ) == grid.tile_seq());
            }
            break ;
        }
        let tnext: TileType = grid.tile_at(next);
        let ghost tcur = grid.tile_seq();
        proof {
            grid.lemma_idx_bounds(nx as int, ny as int);
        }
        match tnext {
            TileType::Empty => {
                grid.set_tile(
                    next,
                    TileType::Explosion(Some(now + EXPLOSION_DURATION_MS), Residue::Empty),
                );
                cx = nx;
                cy = ny;
                dist = dist + 1;
            },
            TileType::PowerUp(_) => {
                grid.set_tile(
                    next,
                    TileType::Explosion(Some(now + EXPLOSION_DURATION_MS), Residue::Empty),
                );
                cx = nx;
                cy = ny;
                dist = dist + 1;
            },
            TileType::BreakableWall(res) => {
                grid.set_tile(
                    next,
                    TileType::Explosion(Some(now + EXPLOSION_DURATION_MS), res),
                );
                proof {
                    assert(grid.tile_seq() == full);
                }
                break ;
            },
            TileType::SolidWall => {
                proof {
                    assert(grid.tile_seq() == full);
                }
                break ;
            },
            TileType::Bomb(ob) => {
                match ob {
                    Some(b) => {
                        grid.set_tile(
                            next,
                            TileType::Bomb(
                                Some(
                                    Bomb {
                                        when_to_explode: now,
                                        firepower: b.firepower,
                                        player_index: b.player_index,
                                    },
                                ),
                            ),
                        );
                    },
                    None => {},
                }
                cx = nx;
                cy = ny;
                dist = dist + 1;
            },
            TileType::Explosion(_, _) => {
                cx = nx;
                cy = ny;
                dist = dist + 1;
            },
        }
    }
}

/// Advances the whole grid by one tick at time `now`: every due bomb
/// detonates (crediting its owner and blasting four rays), every burnt-out
/// explosion reverts to its residue, in a single in-place pass in
/// `pos_iter` order, exactly as `spec_tick` describes.
pub fn map_transitions(grid: &mut Grid, players: &mut Vec<Player>, now: u64)
    requires
        old(grid).wf(),
        now + EXPLOSION_DURATION_MS <= u64::MAX,
        forall|i: int|
            0 <= i < old(players)@.len() ==> (#[trigger] old(players)@[i]).num_bombs + bomb_count(
                old(grid).tile_seq(),
            ) <= i32::MAX,
    ensures
        final(grid).wf(),
        final(grid).spec_width() == old(grid).spec_width(),
        final(grid).spec_height() == old(grid).spec_height(),
        final(grid).spec_spawn_points() == old(grid).spec_spawn_points(),
        final(players)@.len() == old(players)@.len(),
        final(grid).tile_seq() == spec_tick(
            old(grid).tile_seq(),
            old(players)@,
            old(grid).spec_width(),
            old(grid).spec_height(),
            now,
        ).0,
        final(players)@ == spec_tick(
            old(grid).tile_seq(),
            old(players)@,
            old(grid).spec_width(),
            old(grid).spec_height(),
            now,
        ).1,
{
    let width = grid.width();
    let height = grid.height();
    let ghost w = grid.spec_width();
    let ghost h = grid.spec_height();
    let ghost sp0 = grid.spec_spawn_points();
    let ghost t0 = grid.tile_seq();
    let ghost pl0 = players@;
    let total: usize = width * height;
    let mut k: usize = 0;
    while k < total
        invariant
            grid.wf(),
            grid.spec_width() == w,
            grid.spec_height() == h,
            grid.spec_spawn_points() == sp0,
            players@.len() == pl0.len(),
            k <= total,
            total == w * h,
            width == w,
            height == h,
            now + EXPLOSION_DURATION_MS <= u64::MAX,
            forall|i: int|
                0 <= i < players@.len() ==> (#[trigger] players@[i]).num_bombs + bomb_count(
                    grid.tile_seq(),
                ) <= i32::MAX,
            spec_tick_from(grid.tile_seq(), players@, w, h, k as int, now) == spec_tick_from(
                t0,
                pl0,
                w,
                h,
                0,
                now,
            ),
        decreases total - k,
    {
        let x: usize = k / height;
        let y: usize = k % height;
        proof {
            vstd::arithmetic::div_mod::lemma_fundamental_div_mod(k as int, h);
            vstd::arithmetic::div_mod::lemma_mod_bound(k as int, h);
            assert(x as int == k as int / h);
            assert(y as int == k as int % h);
            assert(x < width) by (nonlinear_arith)
                requires
                    (k as int == h * (x as int) + y as int),
                    (0 <= (y as int) && (y as int) < h),
                    ((k as int) < (w * h)),
                    (width == w),
                    (h > 0),
            ;
        }
        let pos = IVec2 { x: x as i32, y: y as i32 };
        let ghost tk = grid.tile_seq();
        let ghost plk = players@;
        let ghost step = spec_process_cell(tk, plk, w, h, x as int, y as int, now);
        proof {
            grid.lemma_idx_bounds(x as int, y as int);
        }
        let tcur: TileType = grid.tile_at(pos);
        match tcur {
            TileType::Bomb(ob) => {
                match ob {
                    Some(bomb) => {
                        if now >= bomb.when_to_explode {
                            grid.set_tile(
                                pos,
                                TileType::Explosion(
                                    Some(now + EXPLOSION_DURATION_MS),
                                    Residue::Empty,
                                ),
                            );
                            proof {
                                lemma_bomb_count_update(
                                    tk,
                                    grid.idx_of(x as int, y as int),
                                    TileType::Explosion(
                                        Some((now + EXPLOSION_DURATION_MS) as u64),
                                        Residue::Empty,
                                    ),
                                );
                                lemma_bomb_count_at_least_one(tk, grid.idx_of(x as int, y as int));
                                lemma_bomb_count_nonneg(grid.tile_seq());
                            }
                            let ghost t1 = grid.tile_seq();
                            if bomb.player_index < players.len() {
                                let pi: usize = bomb.player_index;
                                let p: Player = players[pi];
                                players[pi] = Player { num_bombs: p.num_bombs + 1, ..p };
                            }
                            let ghost pl1 = players@;
                            blast_ray(grid, pos, 0, 1, bomb.firepower, now);
                            proof {
                                lemma_blast_ray_preserves_bomb_count(
                                    t1,
                                    w,
                                    h,
                                    x as int,
                                    y as int,
                                    0,
                                    1,
                                    bomb.firepower as int,
                                    now,
                                );
                            }
                            let ghost t2 = grid.tile_seq();
                            blast_ray(grid, pos, 0, -1, bomb.firepower, now);
                            proof {
                                lemma_blast_ray_preserves_bomb_count(
                                    t2,
                                    w,
                                    h,
                                    x as int,
                                    y as int,
                                    0,
                                    -1,
                                    bomb.firepower as int,
                                    now,
                                );
                            }
                            let ghost t3 = grid.tile_seq();
                            blast_ray(grid, pos, 1, 0, bomb.firepower, now);
                            proof {
                                lemma_blast_ray_preserves_bomb_count(
                                    t3,
                                    w,
                                    h,
                                    x as int,
                                    y as int,
                                    1,
                                    0,
                                    bomb.firepower as int,
                                    now,
                                );
                            }
                            let ghost t4 = grid.tile_seq();
                            blast_ray(grid, pos, -1, 0, bomb.firepower, now);
                            proof {
                                lemma_blast_ray_preserves_bomb_count(
                                    t4,
                                    w,
                                    h,
                                    x as int,
                                    y as int,
                                    -1,
                                    0,
                                    bomb.firepower as int,
                                    now,
                                );
                                assert(grid.tile_seq() == step.0);
                                assert(players@ == step.1);
                            }
                        }
                    },
                    None => {},
                }
            },
            TileType::Explosion(ot, res) => {
                match ot {
                    Some(tm) => {
                        if now >= tm {
                            grid.set_tile(pos, res.to_tile());
                            proof {
                                lemma_bomb_count_update(
                                    tk,
                                    grid.idx_of(x as int, y as int),
                                    res.to_tile_spec(),
                                );
                                assert(!(res.to_tile_spec() is Bomb));
                            }
                        }
                    },
                    None => {},
                }
            },
            _ => {},
        }
        proof {
            assert(grid.tile_seq() == step.0 && players@ == step.1);
            assert(spec_tick_from(tk, plk, w, h, k as int, now) == spec_tick_from(
                step.0,
                step.1,
                w,
                h,
                k as int + 1,
                now,
            ));
        }
        k = k + 1;
    }
    proof {
        assert(spec_tick_from(grid.tile_seq(), players@, w, h, total as int, now) == (
            grid.tile_seq(),
            players@,
        ));
    }
}

/// A propagator pass never touches a solid wall: whatever else the pass
/// does, a cell holding `SolidWall` at its start holds it at its end.
pub proof fn lemma_tick_preserves_solid_walls(
    t: Seq<TileType>,
    pl: Seq<Player>,
    w: int,
    h: int,
    k: int,
    now: u64,
    x: int,
    y: int,
)
    requires
        t.len() == w * h,
        0 <= x < w,
        0 <= y < h,
        t[y * w + x] is SolidWall,
    ensures
        spec_tick_from(t, pl, w, h, k, now).0[y * w + x] == t[y * w + x],
        spec_tick_from(t, pl, w, h, k, now).0.len() == t.len(),
    decreases w * h - k,
{
    let i = y * w + x;
    assert(0 <= i < w * h) by (nonlinear_arith)
        requires
            (0 <= x && x < w),
            (0 <= y && y < h),
            (i == y * w + x),
    ;
    if k < 0 || h <= 0 || k >= w * h {
    } else {
        crate::grid::lemma_visit_cell(w, h, k);
        let xc = k / h;
        let yc = k % h;
        let ic = yc * w + xc;
        assert(0 <= ic < w * h) by (nonlinear_arith)
            requires
                (0 <= xc && xc < w),
                (0 <= yc && yc < h),
                (ic == yc * w + xc),
        ;
        if xc != x || yc != y {
            crate::grid::lemma_cell_index_injective(w, h, xc, yc, x, y);
        }
        let r = spec_process_cell(t, pl, w, h, xc, yc, now);
        match t[ic] {
            TileType::Bomb(ob) => match ob {
                Some(b) => {
                    if now >= b.when_to_explode {
                        let t1 = t.update(
                            ic,
                            TileType::Explosion(
                                Some((now + EXPLOSION_DURATION_MS) as u64),
                                Residue::Empty,
                            ),
                        );
                        let fp = b.firepower as int;
                        lemma_ray_preserves_inert(t1, w, h, xc, yc, 0, 1, fp, now, i);
                        let t2 = spec_blast_ray(t1, w, h, xc, yc, 0, 1, fp, now);
                        lemma_ray_preserves_inert(t2, w, h, xc, yc, 0, -1, fp, now, i);
                        let t3 = spec_blast_ray(t2, w, h, xc, yc, 0, -1, fp, now);
                        lemma_ray_preserves_inert(t3, w, h, xc, yc, 1, 0, fp, now, i);
                        let t4 = spec_blast_ray(t3, w, h, xc, yc, 1, 0, fp, now);
                        lemma_ray_preserves_inert(t4, w, h, xc, yc, -1, 0, fp, now, i);
                    }
                },
                None => {},
            },
            _ => {},
        }
        lemma_tick_preserves_solid_walls(r.0, r.1, w, h, k + 1, now, x, y);
    }
}

/// A pass leaves an explosion that is not yet due to burn out exactly as
/// it stands: blast rays pass over explosions, and its own visit finds it
/// not yet expired.
pub proof fn lemma_tick_preserves_unripe_explosion(
    t: Seq<TileType>,
    pl: Seq<Player>,
    w: int,
    h: int,
    k: int,
    now: u64,
    x: int,
    y: int,
)
    requires
        t.len() == w * h,
        0 <= x < w,
        0 <= y < h,
        t[y * w + x] matches TileType::Explosion(ot, res) && (ot matches Some(tm) ==> tm > now),
    ensures
        spec_tick_from(t, pl, w, h, k, now).0[y * w + x] == t[y * w + x],
        spec_tick_from(t, pl, w, h, k, now).0.len() == t.len(),
    decreases w * h - k,
{
    let i = y * w + x;
    assert(0 <= i < w * h) by (nonlinear_arith)
        requires
            (0 <= x && x < w),
            (0 <= y && y < h),
            (i == y * w + x),
    ;
    if k < 0 || h <= 0 || k >= w * h {
    } else {
        crate::grid::lemma_visit_cell(w, h, k);
        let xc = k / h;
        let yc = k % h;
        let ic = yc * w + xc;
        assert(0 <= ic < w * h) by (nonlinear_arith)
            requires
                (0 <= xc && xc < w),
                (0 <= yc && yc < h),
                (ic == yc * w + xc),
        ;
        if xc != x || yc != y {
            crate::grid::lemma_cell_index_injective(w, h, xc, yc, x, y);
        }
        let r = spec_process_cell(t, pl, w, h, xc, yc, now);
        match t[ic] {
            TileType::Bomb(ob) => match ob {
                Some(b) => {
                    if now >= b.when_to_explode {
                        let t1 = t.update(
                            ic,
                            TileType::Explosion(
                                Some((now + EXPLOSION_DURATION_MS) as u64),
                                Residue::Empty,
                            ),
                        );
                        let fp = b.firepower as int;
                        lemma_ray_preserves_inert(t1, w, h, xc, yc, 0, 1, fp, now, i);
                        let t2 = spec_blast_ray(t1, w, h, xc, yc, 0, 1, fp, now);
                        lemma_ray_preserves_inert(t2, w, h, xc, yc, 0, -1, fp, now, i);
                        let t3 = spec_blast_ray(t2, w, h, xc, yc, 0, -1, fp, now);
                        lemma_ray_preserves_inert(t3, w, h, xc, yc, 1, 0, fp, now, i);
                        let t4 = spec_blast_ray(t3, w, h, xc, yc, 1, 0, fp, now);
                        lemma_ray_preserves_inert(t4, w, h, xc, yc, -1, 0, fp, now, i);
                    }
                },
                None => {},
            },
            _ => {},
        }
        lemma_tick_preserves_unripe_explosion(r.0, r.1, w, h, k + 1, now, x, y);
    }
}

/// A bomb whose fuse has expired, standing in a cell the pass (resumed at
/// step `k`) has not yet reached, ends the pass as a fresh explosion with
/// an empty residue. This is the detonation step of the bomb lifecycle,
/// and — since a blast retimes a bomb in its path to be due `now` — it is
/// also why a bomb set off by an earlier cell's blast detonates within
/// the same pass whenever its own cell is still ahead of the pass.
pub proof fn lemma_tick_detonates_due_bomb(
    t: Seq<TileType>,
    pl: Seq<Player>,
    w: int,
    h: int,
    k: int,
    now: u64,
    x: int,
    y: int,
)
    requires
        t.len() == w * h,
        0 <= x < w,
        0 <= y < h,
        0 <= k <= x * h + y,
        t[y * w + x] matches TileType::Bomb(Some(b)) && b.when_to_explode <= now,
        now + EXPLOSION_DURATION_MS <= u64::MAX,
    ensures
        spec_tick_from(t, pl, w, h, k, now).0[y * w + x] == TileType::Explosion(
            Some((now + EXPLOSION_DURATION_MS) as u64),
            Residue::Empty,
        ),
    decreases x * h + y - k,
{
    let i = y * w + x;
    assert(0 <= i < w * h) by (nonlinear_arith)
        requires
            (0 <= x && x < w),
            (0 <= y && y < h),
            (i == y * w + x),
    ;
    assert(x * h + y < w * h) by (nonlinear_arith)
        requires
            (0 <= x && x + 1 <= w),
            (0 <= y && y < h),
    ;
    crate::grid::lemma_visit_cell(w, h, k);
    let xc = k / h;
    let yc = k % h;
    let ic = yc * w + xc;
    assert(0 <= ic < w * h) by (nonlinear_arith)
        requires
            (0 <= xc && xc < w),
            (0 <= yc && yc < h),
            (ic == yc * w + xc),
    ;
    let r = spec_process_cell(t, pl, w, h, xc, yc, now);
    if k == x * h + y {
        vstd::arithmetic::div_mod::lemma_fundamental_div_mod_converse(k, h, x, y);
        assert(xc == x && yc == y);
        let b = t[i]->Bomb_0->0;
        let t1 = t.update(
            i,
            TileType::Explosion(Some((now + EXPLOSION_DURATION_MS) as u64), Residue::Empty),
        );
        let fp = b.firepower as int;
        lemma_ray_preserves_inert(t1, w, h, x, y, 0, 1, fp, now, i);
        let t2 = spec_blast_ray(t1, w, h, x, y, 0, 1, fp, now);
        lemma_ray_preserves_inert(t2, w, h, x, y, 0, -1, fp, now, i);
        let t3 = spec_blast_ray(t2, w, h, x, y, 0, -1, fp, now);
        lemma_ray_preserves_inert(t3, w, h, x, y, 1, 0, fp, now, i);
        let t4 = spec_blast_ray(t3, w, h, x, y, 1, 0, fp, now);
        lemma_ray_preserves_inert(t4, w, h, x, y, -1, 0, fp, now, i);
        lemma_tick_preserves_unripe_explosion(r.0, r.1, w, h, k + 1, now, x, y);
    } else {
        if xc == x && yc == y {
            assert(k == x * h + y);
        } else {
            crate::grid::lemma_cell_index_injective(w, h, xc, yc, x, y);
        }
        match t[ic] {
            TileType::Bomb(ob) => match ob {
                Some(b2) => {
                    if now >= b2.when_to_explode {
                        let t1 = t.update(
                            ic,
                            TileType::Explosion(
                                Some((now + EXPLOSION_DURATION_MS) as u64),
                                Residue::Empty,
                            ),
                        );
                        let fp = b2.firepower as int;
                        lemma_ray_keeps_due_bomb(t1, w, h, xc, yc, 0, 1, fp, now, i);
                        let t2 = spec_blast_ray(t1, w, h, xc, yc, 0, 1, fp, now);
                        lemma_ray_keeps_due_bomb(t2, w, h, xc, yc, 0, -1, fp, now, i);
                        let t3 = spec_blast_ray(t2, w, h, xc, yc, 0, -1, fp, now);
                        lemma_ray_keeps_due_bomb(t3, w, h, xc, yc, 1, 0, fp, now, i);
                        let t4 = spec_blast_ray(t3, w, h, xc, yc, 1, 0, fp, now);
                        lemma_ray_keeps_due_bomb(t4, w, h, xc, yc, -1, 0, fp, now, i);
                    }
                },
                None => {},
            },
            _ => {},
        }
        lemma_tick_detonates_due_bomb(r.0, r.1, w, h, k + 1, now, x, y);
    }
}

/// The explosion a blast or detonation writes at time `now`: burning until
/// the explosion duration elapses, leaving nothing behind.
pub open spec fn fresh_burn(now: u64) -> TileType {
    TileType::Explosion(Some((now + EXPLOSION_DURATION_MS) as u64), Residue::Empty)
}

/// A walkable cell (open or power-up) is either untouched by a blast ray
/// or burnt by it into a fresh explosion.
pub proof fn lemma_ray_walkable_or_burned(
    t: Seq<TileType>,
    w: int,
    h: int,
    x: int,
    y: int,
    dx: int,
    dy: int,
    remaining: int,
    now: u64,
    i: int,
)
    requires
        t.len() == w * h,
        0 <= i < t.len(),
        t[i] is Empty || t[i] is PowerUp,
    ensures
        spec_blast_ray(t, w, h, x, y, dx, dy, remaining, now)[i] == t[i] || spec_blast_ray(
            t,
            w,
            h,
            x,
            y,
            dx,
            dy,
            remaining,
            now,
        )[i] == fresh_burn(now),
        spec_blast_ray(t, w, h, x, y, dx, dy, remaining, now).len() == t.len(),
    decreases remaining,
{
    if remaining <= 0 {
    } else {
        let nx = x + dx;
        let ny = y + dy;
        if 0 <= nx < w && 0 <= ny < h {
            let idx = ny * w + nx;
            assert(0 <= idx < w * h) by (nonlinear_arith)
                requires
                    (0 <= nx && nx < w),
                    (0 <= ny && ny < h),
                    (idx == ny * w + nx),
            ;
            match t[idx] {
                TileType::Empty => {
                    let t1 = t.update(idx, fresh_burn(now));
                    if idx == i {
                        lemma_ray_preserves_inert(t1, w, h, nx, ny, dx, dy, remaining - 1, now, i);
                    } else {
                        lemma_ray_walkable_or_burned(
                            t1,
                            w,
                            h,
                            nx,
                            ny,
                            dx,
                            dy,
                            remaining - 1,
                            now,
                            i,
                        );
                    }
                },
                TileType::PowerUp(_) => {
                    let t1 = t.update(idx, fresh_burn(now));
                    if idx == i {
                        lemma_ray_preserves_inert(t1, w, h, nx, ny, dx, dy, remaining - 1, now, i);
                    } else {
                        lemma_ray_walkable_or_burned(
                            t1,
                            w,
                            h,
                            nx,
                            ny,
                            dx,
                            dy,
                            remaining - 1,
                            now,
                            i,
                        );
                    }
                },
                TileType::BreakableWall(res) => {},
                TileType::SolidWall => {},
                TileType::Bomb(ob) => match ob {
                    Some(b) => {
                        lemma_ray_walkable_or_burned(
                            t.update(
                                idx,
                                TileType::Bomb(
                                    Some(
                                        Bomb {
                                            when_to_explode: now,
                                            firepower: b.firepower,
                                            player_index: b.player_index,
                                        },
                                    ),
                                ),
                            ),
                            w,
                            h,
                            nx,
                            ny,
                            dx,
                            dy,
                            remaining - 1,
                            now,
                            i,
                        );
                    },
                    None => {
                        lemma_ray_walkable_or_burned(t, w, h, nx, ny, dx, dy, remaining - 1, now, i);
                    },
                },
                TileType::Explosion(_, _) => {
                    lemma_ray_walkable_or_burned(t, w, h, nx, ny, dx, dy, remaining - 1, now, i);
                },
            }
        }
    }
}

/// Over a whole pass, a cell that is walkable — or already a fresh burn of
/// this tick — either keeps its tile or holds a fresh burn at the end: a
/// later bomb of the same pass may burn it, and nothing else can touch it.
pub proof fn lemma_tick_walkable_or_burned(
    t: Seq<TileType>,
    pl: Seq<Player>,
    w: int,
    h: int,
    k: int,
    now: u64,
    x: int,
    y: int,
)
    requires
        t.len() == w * h,
        0 <= x < w,
        0 <= y < h,
        t[y * w + x] is Empty || t[y * w + x] is PowerUp || t[y * w + x] == fresh_burn(now),
        now + EXPLOSION_DURATION_MS <= u64::MAX,
    ensures
        spec_tick_from(t, pl, w, h, k, now).0[y * w + x] == t[y * w + x] || spec_tick_from(
            t,
            pl,
            w,
            h,
            k,
            now,
        ).0[y * w + x] == fresh_burn(now),
        spec_tick_from(t, pl, w, h, k, now).0.len() == t.len(),
    decreases w * h - k,
{
    let i = y * w + x;
    assert(0 <= i < w * h) by (nonlinear_arith)
        requires
            (0 <= x && x < w),
            (0 <= y && y < h),
            (i == y * w + x),
    ;
    if t[i] == fresh_burn(now) {
        lemma_tick_preserves_unripe_explosion(t, pl, w, h, k, now, x, y);
    } else if k < 0 || h <= 0 || k >= w * h {
    } else {
        crate::grid::lemma_visit_cell(w, h, k);
        let xc = k / h;
        let yc = k % h;
        let ic = yc * w + xc;
        assert(0 <= ic < w * h) by (nonlinear_arith)
            requires
                (0 <= xc && xc < w),
                (0 <= yc && yc < h),
                (ic == yc * w + xc),
        ;
        if xc != x || yc != y {
            crate::grid::lemma_cell_index_injective(w, h, xc, yc, x, y);
        }
        let r = spec_process_cell(t, pl, w, h, xc, yc, now);
        match t[ic] {
            TileType::Bomb(ob) => match ob {
                Some(b) => {
                    if now >= b.when_to_explode {
                        let t1 = t.update(ic, fresh_burn(now));
                        let fp = b.firepower as int;
                        lemma_ray_walkable_or_burned(t1, w, h, xc, yc, 0, 1, fp, now, i);
                        let t2 = spec_blast_ray(t1, w, h, xc, yc, 0, 1, fp, now);
                        if t2[i] == fresh_burn(now) {
                            lemma_ray_preserves_inert(t2, w, h, xc, yc, 0, -1, fp, now, i);
                        } else {
                            lemma_ray_walkable_or_burned(t2, w, h, xc, yc, 0, -1, fp, now, i);
                        }
                        let t3 = spec_blast_ray(t2, w, h, xc, yc, 0, -1, fp, now);
                        if t3[i] == fresh_burn(now) {
                            lemma_ray_preserves_inert(t3, w, h, xc, yc, 1, 0, fp, now, i);
                        } else {
                            lemma_ray_walkable_or_burned(t3, w, h, xc, yc, 1, 0, fp, now, i);
                        }
                        let t4 = spec_blast_ray(t3, w, h, xc, yc, 1, 0, fp, now);
                        if t4[i] == fresh_burn(now) {
                            lemma_ray_preserves_inert(t4, w, h, xc, yc, -1, 0, fp, now, i);
                        } else {
                            lemma_ray_walkable_or_burned(t4, w, h, xc, yc, -1, 0, fp, now, i);
                        }
                    }
                },
                None => {},
            },
            _ => {},
        }
        lemma_tick_walkable_or_burned(r.0, r.1, w, h, k + 1, now, x, y);
    }
}

/// An explosion whose burn has expired, in a cell the pass has not yet
/// reached, ends the pass holding its residue — or a fresh burn, when a
/// later bomb of the same pass catches the revealed cell. This is the
/// burn-out step of the bomb lifecycle and of the breakable-wall reveal:
/// an expired `Explosion(_, PowerUp(p))` ends the pass as `PowerUp(p)`
/// unless a new blast burns it again.
pub proof fn lemma_tick_burns_out_due_explosion(
    t: Seq<TileType>,
    pl: Seq<Player>,
    w: int,
    h: int,
    k: int,
    now: u64,
    x: int,
    y: int,
)
    requires
        t.len() == w * h,
        0 <= x < w,
        0 <= y < h,
        0 <= k <= x * h + y,
        t[y * w + x] matches TileType::Explosion(ot, res) && ot matches Some(tm) && tm <= now,
        now + EXPLOSION_DURATION_MS <= u64::MAX,
    ensures
        spec_tick_from(t, pl, w, h, k, now).0[y * w + x] == (t[y * w
            + x]->Explosion_1).to_tile_spec() || spec_tick_from(t, pl, w, h, k, now).0[y * w + x]
            == fresh_burn(now),
    decreases x * h + y - k,
{
    let i = y * w + x;
    assert(0 <= i < w * h) by (nonlinear_arith)
        requires
            (0 <= x && x < w),
            (0 <= y && y < h),
            (i == y * w + x),
    ;
    assert(x * h + y < w * h) by (nonlinear_arith)
        requires
            (0 <= x && x + 1 <= w),
            (0 <= y && y < h),
    ;
    crate::grid::lemma_visit_cell(w, h, k);
    let xc = k / h;
    let yc = k % h;
    let ic = yc * w + xc;
    assert(0 <= ic < w * h) by (nonlinear_arith)
        requires
            (0 <= xc && xc < w),
            (0 <= yc && yc < h),
            (ic == yc * w + xc),
    ;
    let r = spec_process_cell(t, pl, w, h, xc, yc, now);
    if k == x * h + y {
        vstd::arithmetic::div_mod::lemma_fundamental_div_mod_converse(k, h, x, y);
        assert(xc == x && yc == y);
        let res = t[i]->Explosion_1;
        assert(r.0 == t.update(i, res.to_tile_spec()));
        lemma_tick_walkable_or_burned(r.0, r.1, w, h, k + 1, now, x, y);
    } else {
        if xc == x && yc == y {
            assert(k == x * h + y);
        } else {
            crate::grid::lemma_cell_index_injective(w, h, xc, yc, x, y);
        }
        match t[ic] {
            TileType::Bomb(ob) => match ob {
                Some(b2) => {
                    if now >= b2.when_to_explode {
                        let t1 = t.update(ic, fresh_burn(now));
                        let fp = b2.firepower as int;
                        lemma_ray_preserves_inert(t1, w, h, xc, yc, 0, 1, fp, now, i);
                        let t2 = spec_blast_ray(t1, w, h, xc, yc, 0, 1, fp, now);
                        lemma_ray_preserves_inert(t2, w, h, xc, yc, 0, -1, fp, now, i);
                        let t3 = spec_blast_ray(t2, w, h, xc, yc, 0, -1, fp, now);
                        lemma_ray_preserves_inert(t3, w, h, xc, yc, 1, 0, fp, now, i);
                        let t4 = spec_blast_ray(t3, w, h, xc, yc, 1, 0, fp, now);
                        lemma_ray_preserves_inert(t4, w, h, xc, yc, -1, 0, fp, now, i);
                    }
                },
                None => {},
            },
            _ => {},
        }
        lemma_tick_burns_out_due_explosion(r.0, r.1, w, h, k + 1, now, x, y);
    }
}

/// A due bomb in a cell the pass has already left stays a due bomb to the
/// end of the pass: later blasts can only retime it to `now`, and its own
/// cell is never revisited. With `lemma_tick_detonates_due_bomb` this is
/// the chain reaction's other half: a bomb retimed after its cell was
/// visited keeps its expired fuse and detonates on the following pass.
pub proof fn lemma_tick_keeps_due_bomb_behind_pass(
    t: Seq<TileType>,
    pl: Seq<Player>,
    w: int,
    h: int,
    k: int,
    now: u64,
    x: int,
    y: int,
)
    requires
        t.len() == w * h,
        0 <= x < w,
        0 <= y < h,
        k > x * h + y,
        t[y * w + x] matches TileType::Bomb(Some(b)) && b.when_to_explode <= now,
    ensures
        spec_tick_from(t, pl, w, h, k, now).0[y * w + x] matches TileType::Bomb(Some(b2))
            && b2.when_to_explode <= now,
    decreases w * h - k,
{
    let i = y * w + x;
    assert(0 <= i < w * h) by (nonlinear_arith)
        requires
            (0 <= x && x < w),
            (0 <= y && y < h),
            (i == y * w + x),
    ;
    if k < 0 || h <= 0 || k >= w * h {
    } else {
        crate::grid::lemma_visit_cell(w, h, k);
        let xc = k / h;
        let yc = k % h;
        let ic = yc * w + xc;
        assert(0 <= ic < w * h) by (nonlinear_arith)
            requires
                (0 <= xc && xc < w),
                (0 <= yc && yc < h),
                (ic == yc * w + xc),
        ;
        if xc == x && yc == y {
            assert(k == x * h + y);
        } else {
            crate::grid::lemma_cell_index_injective(w, h, xc, yc, x, y);
        }
        let r = spec_process_cell(t, pl, w, h, xc, yc, now);
        match t[ic] {
            TileType::Bomb(ob) => match ob {
                Some(b2) => {
                    if now >= b2.when_to_explode {
                        let t1 = t.update(ic, fresh_burn(now));
                        let fp = b2.firepower as int;
                        lemma_ray_keeps_due_bomb(t1, w, h, xc, yc, 0, 1, fp, now, i);
                        let t2 = spec_blast_ray(t1, w, h, xc, yc, 0, 1, fp, now);
                        lemma_ray_keeps_due_bomb(t2, w, h, xc, yc, 0, -1, fp, now, i);
                        let t3 = spec_blast_ray(t2, w, h, xc, yc, 0, -1, fp, now);
                        lemma_ray_keeps_due_bomb(t3, w, h, xc, yc, 1, 0, fp, now, i);
                        let t4 = spec_blast_ray(t3, w, h, xc, yc, 1, 0, fp, now);
                        lemma_ray_keeps_due_bomb(t4, w, h, xc, yc, -1, 0, fp, now, i);
                    }
                },
                None => {},
            },
            _ => {},
        }
        lemma_tick_keeps_due_bomb_behind_pass(r.0, r.1, w, h, k + 1, now, x, y);
    }
}

proof fn lemma_bomb_count_two(t: Seq<TileType>, i: int, j: int)
    requires
        0 <= i < t.len(),
        0 <= j < t.len(),
        i != j,
        t[i] is Bomb,
        t[j] is Bomb,
    ensures
        bomb_count(t) >= 2,
    decreases t.len(),
{
    if i == t.len() - 1 {
        lemma_bomb_count_at_least_one(t.drop_last(), j);
    } else if j == t.len() - 1 {
        lemma_bomb_count_at_least_one(t.drop_last(), i);
    } else {
        lemma_bomb_count_two(t.drop_last(), i, j);
    }
}

/// With no bomb tile anywhere on the grid, a pass touches no player:
/// only detonations credit bombs back.
pub proof fn lemma_tick_no_bombs_keeps_players(
    t: Seq<TileType>,
    pl: Seq<Player>,
    w: int,
    h: int,
    k: int,
    now: u64,
)
    requires
        t.len() == w * h,
        bomb_count(t) == 0,
    ensures
        spec_tick_from(t, pl, w, h, k, now).1 == pl,
    decreases w * h - k,
{
    if k < 0 || h <= 0 || k >= w * h {
    } else {
        crate::grid::lemma_visit_cell(w, h, k);
        let xc = k / h;
        let yc = k % h;
        let ic = yc * w + xc;
        assert(0 <= ic < w * h) by (nonlinear_arith)
            requires
                (0 <= xc && xc < w),
                (0 <= yc && yc < h),
                (ic == yc * w + xc),
        ;
        if t[ic] is Bomb {
            lemma_bomb_count_at_least_one(t, ic);
        }
        let r = spec_process_cell(t, pl, w, h, xc, yc, now);
        match t[ic] {
            TileType::Explosion(ot, res) => match ot {
                Some(tm) => {
                    if now >= tm {
                        lemma_bomb_count_update(t, ic, res.to_tile_spec());
                    }
                },
                None => {},
            },
            _ => {},
        }
        lemma_tick_no_bombs_keeps_players(r.0, r.1, w, h, k + 1, now);
    }
}

/// A pass over a grid whose only bomb is due and owned by a known player
/// credits that player exactly one bomb, at the moment of detonation, and
/// changes no other player.
pub proof fn lemma_tick_credits_sole_bomb(
    t: Seq<TileType>,
    pl: Seq<Player>,
    w: int,
    h: int,
    k: int,
    now: u64,
    x: int,
    y: int,
)
    requires
        t.len() == w * h,
        0 <= x < w,
        0 <= y < h,
        0 <= k <= x * h + y,
        t[y * w + x] matches TileType::Bomb(Some(b)) && b.when_to_explode <= now
            && b.player_index < pl.len(),
        bomb_count(t) == 1,
        now + EXPLOSION_DURATION_MS <= u64::MAX,
    ensures
        ({
            let q = (t[y * w + x]->Bomb_0->0).player_index as int;
            spec_tick_from(t, pl, w, h, k, now).1 == pl.update(
                q,
                Player { num_bombs: (pl[q].num_bombs + 1) as i32, ..pl[q] },
            )
        }),
    decreases x * h + y - k,
{
    let i = y * w + x;
    assert(0 <= i < w * h) by (nonlinear_arith)
        requires
            (0 <= x && x < w),
            (0 <= y && y < h),
            (i == y * w + x),
    ;
    assert(x * h + y < w * h) by (nonlinear_arith)
        requires
            (0 <= x && x + 1 <= w),
            (0 <= y && y < h),
    ;
    crate::grid::lemma_visit_cell(w, h, k);
    let xc = k / h;
    let yc = k % h;
    let ic = yc * w + xc;
    assert(0 <= ic < w * h) by (nonlinear_arith)
        requires
            (0 <= xc && xc < w),
            (0 <= yc && yc < h),
            (ic == yc * w + xc),
    ;
    let b = t[i]->Bomb_0->0;
    let r = spec_process_cell(t, pl, w, h, xc, yc, now);
    if k == x * h + y {
        vstd::arithmetic::div_mod::lemma_fundamental_div_mod_converse(k, h, x, y);
        assert(xc == x && yc == y);
        let t1 = t.update(i, fresh_burn(now));
        lemma_bomb_count_update(t, i, fresh_burn(now));
        let fp = b.firepower as int;
        lemma_blast_ray_preserves_bomb_count(t1, w, h, x, y, 0, 1, fp, now);
        let t2 = spec_blast_ray(t1, w, h, x, y, 0, 1, fp, now);
        lemma_blast_ray_preserves_bomb_count(t2, w, h, x, y, 0, -1, fp, now);
        let t3 = spec_blast_ray(t2, w, h, x, y, 0, -1, fp, now);
        lemma_blast_ray_preserves_bomb_count(t3, w, h, x, y, 1, 0, fp, now);
        let t4 = spec_blast_ray(t3, w, h, x, y, 1, 0, fp, now);
        lemma_blast_ray_preserves_bomb_count(t4, w, h, x, y, -1, 0, fp, now);
        lemma_tick_no_bombs_keeps_players(r.0, r.1, w, h, k + 1, now);
    } else {
        if xc == x && yc == y {
            assert(k == x * h + y);
        } else {
            crate::grid::lemma_cell_index_injective(w, h, xc, yc, x, y);
        }
        if t[ic] is Bomb {
            lemma_bomb_count_two(t, i, ic);
        }
        match t[ic] {
            TileType::Explosion(ot, res) => match ot {
                Some(tm) => {
                    if now >= tm {
                        lemma_bomb_count_update(t, ic, res.to_tile_spec());
                    }
                },
                None => {},
            },
            _ => {},
        }
        lemma_tick_credits_sole_bomb(r.0, r.1, w, h, k + 1, now, x, y);
    }
}

} // verus!
