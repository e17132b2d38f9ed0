//! The thin boundary logic around the grid: applying one tick's movement
//! intent through the collision probe (with wall-sliding redirection),
//! dropping bombs, picking up power-ups on contact, and the per-tick
//! queries the driving layer makes (is a cell deadly, is the round over).

use vstd::prelude::*;

verus! {

use crate::geom::{IVec2, Vec2Fx, scale_div, scale_div_exec, round_fx, MAX_POS_FX};
use crate::grid::Grid;
use crate::player::{Player, PlayerControl};
use crate::sdf::{map_sdf, map_sdf_spec};
use crate::tile::{TileType, Bomb, PowerUpType, BOMB_EXPLOSION_DELAY_MS};

/// How far an actor moves in one frame, in fixed-point units: one
/// twentieth of a tile.
pub const PER_FRAME_MOTION_FX: i64 = 50;

/// Margin inside free space at which movement is redirected to slide along
/// the wall instead of penetrating it.
pub const FREE_SPACE_BORDER_FX: i64 = 400;

/// Everything one movement/action tick decides, from the state at its
/// start: the tiles (a bomb possibly placed), the new continuous position,
/// and the player (a bomb possibly spent). The target position is the old
/// one plus one frame of motion; if the probe puts it within the border
/// margin inside free space, motion is redirected along the push direction;
/// the bomb drop lands on the cell of the final position, only if that cell
/// is empty and a bomb is available. When either the current or the target
/// position rounds outside the grid, the actor just moves.
pub open spec fn spec_control_player(
    g: Grid,
    pos: Vec2Fx,
    pl: Player,
    c: PlayerControl,
    now: u64,
) -> (Seq<TileType>, Vec2Fx, Player) {
    let npos0 = Vec2Fx {
        x: (pos.x + scale_div(c.motion.x as int, PER_FRAME_MOTION_FX as int, 1000)) as i64,
        y: (pos.y + scale_div(c.motion.y as int, PER_FRAME_MOTION_FX as int, 1000)) as i64,
    };
    let icur = g.spec_index_from_position(pos);
    let inew0 = g.spec_index_from_position(npos0);
    if icur is Some && inew0 is Some {
        let cc = icur->0;
        let exempt = if g.spec_tile_at(cc.x as int, cc.y as int) is Bomb {
            Some(cc)
        } else {
            None::<IVec2>
        };
        let sdf = map_sdf_spec(g, npos0, exempt);
        let redirected = -(FREE_SPACE_BORDER_FX as int) < sdf.0 < 0;
        let npos = if redirected {
            Vec2Fx {
                x: (pos.x + scale_div(sdf.1.0, PER_FRAME_MOTION_FX as int, 1000)) as i64,
                y: (pos.y + scale_div(sdf.1.1, PER_FRAME_MOTION_FX as int, 1000)) as i64,
            }
        } else {
            npos0
        };
        let inew = if redirected {
            g.spec_index_from_position(npos)
        } else {
            inew0
        };
        match inew {
            Some(target) => {
                let ti = g.idx_of(target.x as int, target.y as int);
                if c.action is DropBomb && g.tile_seq()[ti] is Empty && pl.num_bombs > 0 {
                    (
                        g.tile_seq().update(
                            ti,
                            TileType::Bomb(
                                Some(
                                    Bomb {
                                        when_to_explode: (now + BOMB_EXPLOSION_DELAY_MS) as u64,
                                        firepower: pl.firepower,
                                        player_index: pl.player_index,
                                    },
                                ),
                            ),
                        ),
                        npos,
                        Player { num_bombs: (pl.num_bombs - 1) as i32, ..pl },
                    )
                } else {
                    (g.tile_seq(), npos, pl)
                }
            },
            None => (g.tile_seq(), npos, pl),
        }
    } else {
        (g.tile_seq(), npos0, pl)
    }
}

/// Applies one tick of a player's movement and action intent, exactly as
/// `spec_control_player` describes: move (sliding along walls within the
/// border margin), then drop a bomb on the destination cell if asked,
/// possible, and affordable.
pub fn control_player(
    grid: &mut Grid,
    pos: &mut Vec2Fx,
    player: &mut Player,
    control: &PlayerControl,
    now: u64,
)
    requires
        old(grid).wf(),
        -(MAX_POS_FX - 1000) <= old(pos).x <= MAX_POS_FX - 1000,
        -(MAX_POS_FX - 1000) <= old(pos).y <= MAX_POS_FX - 1000,
        -1000 <= control.motion.x <= 1000,
        -1000 <= control.motion.y <= 1000,
        now + BOMB_EXPLOSION_DELAY_MS <= u64::MAX,
    ensures
        final(grid).wf(),
        final(grid).spec_width() == old(grid).spec_width(),
        final(grid).spec_height() == old(grid).spec_height(),
        final(grid).spec_spawn_points() == old(grid).spec_spawn_points(),
        final(grid).tile_seq() == spec_control_player(
            *old(grid),
            *old(pos),
            *old(player),
            *control,
            now,
        ).0,
        *final(pos) == spec_control_player(*old(grid), *old(pos), *old(player), *control, now).1,
        *final(player) == spec_control_player(
            *old(grid),
            *old(pos),
            *old(player),
            *control,
            now,
        ).2,
{
    let mx: i64 = scale_div_exec(control.motion.x, PER_FRAME_MOTION_FX, 1000);
    let my: i64 = scale_div_exec(control.motion.y, PER_FRAME_MOTION_FX, 1000);
    let npos0 = Vec2Fx { x: pos.x + mx, y: pos.y + my };
    let icur = grid.get_index_from_position(*pos);
    let inew0 = grid.get_index_from_position(npos0);
    let mut npos = npos0;
    match (icur, inew0) {
        (Some(cc), Some(n0)) => {
            let cur_tile = grid.tile_at(cc);
            let exempt: Option<IVec2> = match cur_tile {
                TileType::Bomb(_) => Some(cc),
                _ => None,
            };
            let probe = map_sdf(grid, npos0, exempt);
            let sdf: i64 = probe.0;
            let dir: Vec2Fx = probe.1;
            let mut inew: Option<IVec2> = Some(n0);
            if -FREE_SPACE_BORDER_FX < sdf && sdf < 0 {
                let rx: i64 = scale_div_exec(dir.x, PER_FRAME_MOTION_FX, 1000);
                let ry: i64 = scale_div_exec(dir.y, PER_FRAME_MOTION_FX, 1000);
                npos = Vec2Fx { x: pos.x + rx, y: pos.y + ry };
                inew = grid.get_index_from_position(npos);
            }
            match inew {
                Some(target) => {
                    let t = grid.tile_at(target);
                    let drop_here = match (control.action, t) {
                        (crate::player::PlayerAction::DropBomb, TileType::Empty) => true,
                        _ => false,
                    };
                    if drop_here && player.num_bombs > 0 {
                        grid.set_tile(
                            target,
                            TileType::Bomb(
                                Some(
                                    Bomb {
                                        when_to_explode: now + BOMB_EXPLOSION_DELAY_MS,
                                        firepower: player.firepower,
                                        player_index: player.player_index,
                                    },
                                ),
                            ),
                        );
                        player.num_bombs = player.num_bombs - 1;
                    }
                },
                None => {},
            }
        },
        _ => {},
    }
    *pos = npos;
}

/// One pickup attempt as a function of the tiles alone: if the position's
/// cell holds a power-up, the effect is applied to the player and the cell
/// becomes empty; otherwise nothing changes.
pub open spec fn spec_pickup(t: Seq<TileType>, w: int, h: int, pos: Vec2Fx, pl: Player) -> (
    Seq<TileType>,
    Player,
) {
    let x = round_fx(pos.x as int);
    let y = round_fx(pos.y as int);
    if 0 <= x < w && 0 <= y < h {
        let idx = y * w + x;
        match t[idx] {
            TileType::PowerUp(PowerUpType::Firepower) => (
                t.update(idx, TileType::Empty),
                Player { firepower: (pl.firepower + 1) as i32, ..pl },
            ),
            TileType::PowerUp(PowerUpType::ExtraBomb) => (
                t.update(idx, TileType::Empty),
                Player { num_bombs: (pl.num_bombs + 1) as i32, ..pl },
            ),
            _ => (t, pl),
        }
    } else {
        (t, pl)
    }
}

/// Applies the cell-visit pickup rule at the player's position: a firepower
/// power-up raises the blast radius, an extra-bomb power-up the bomb count,
/// and the consumed cell becomes empty; anything else is a no-op.
pub fn check_pickup(grid: &mut Grid, pos: Vec2Fx, player: &mut Player)
    requires
        old(grid).wf(),
        -MAX_POS_FX <= pos.x <= MAX_POS_FX,
        -MAX_POS_FX <= pos.y <= MAX_POS_FX,
        ({
            let x = round_fx(pos.x as int);
            let y = round_fx(pos.y as int);
            (0 <= x < old(grid).spec_width() && 0 <= y < old(grid).spec_height() && old(
                grid,
            ).tile_seq()[y * old(grid).spec_width() + x] == TileType::PowerUp(
                PowerUpType::Firepower,
            )) ==> old(player).firepower < i32::MAX
        }),
        ({
            let x = round_fx(pos.x as int);
            let y = round_fx(pos.y as int);
            (0 <= x < old(grid).spec_width() && 0 <= y < old(grid).spec_height() && old(
                grid,
            ).tile_seq()[y * old(grid).spec_width() + x] == TileType::PowerUp(
                PowerUpType::ExtraBomb,
            )) ==> old(player).num_bombs < i32::MAX
        }),
    ensures
        final(grid).wf(),
        final(grid).spec_width() == old(grid).spec_width(),
        final(grid).spec_height() == old(grid).spec_height(),
        final(grid).spec_spawn_points() == old(grid).spec_spawn_points(),
        final(grid).tile_seq() == spec_pickup(
            old(grid).tile_seq(),
            old(grid).spec_width(),
            old(grid).spec_height(),
            pos,
            *old(player),
        ).0,
        *final(player) == spec_pickup(
            old(grid).tile_seq(),
            old(grid).spec_width(),
            old(grid).spec_height(),
            pos,
            *old(player),
        ).1,
{
    match grid.get_index_from_position(pos) {
        Some(c) => {
            let t = grid.tile_at(c);
            match t {
                TileType::PowerUp(PowerUpType::Firepower) => {
                    player.firepower = player.firepower + 1;
                    grid.set_tile(c, TileType::Empty);
                },
                TileType::PowerUp(PowerUpType::ExtraBomb) => {
                    player.num_bombs = player.num_bombs + 1;
                    grid.set_tile(c, TileType::Empty);
                },
                _ => {},
            }
        },
        None => {},
    }
}

/// Picking up from a cell that holds no power-up — an empty cell among
/// them — changes neither the tiles nor the player.
pub proof fn lemma_pickup_no_powerup_is_noop(
    t: Seq<TileType>,
    w: int,
    h: int,
    pos: Vec2Fx,
    pl: Player,
)
    requires
        ({
            let x = round_fx(pos.x as int);
            let y = round_fx(pos.y as int);
            (0 <= x < w && 0 <= y < h) ==> !(t[y * w + x] is PowerUp)
        }),
    ensures
        spec_pickup(t, w, h, pos, pl) == (t, pl),
{
}

/// Picking up twice from the same position applies the effect at most
/// once: after the first pickup the cell is empty, so the second changes
/// nothing.
pub proof fn lemma_pickup_idempotent(t: Seq<TileType>, w: int, h: int, pos: Vec2Fx, pl: Player)
    requires
        t.len() == w * h,
    ensures
        ({
            let once = spec_pickup(t, w, h, pos, pl);
            spec_pickup(once.0, w, h, pos, once.1) == once
        }),
{
    let x = round_fx(pos.x as int);
    let y = round_fx(pos.y as int);
    if 0 <= x < w && 0 <= y < h {
        let idx = y * w + x;
        assert(0 <= idx < w * h) by (nonlinear_arith)
            requires
                0 <= x < w,
                0 <= y < h,
                idx == y * w + x,
        ;
        let once = spec_pickup(t, w, h, pos, pl);
        if t[idx] is PowerUp {
            assert(once.0[idx] is Empty);
        }
    }
}

/// Whether the tile at the position's cell is an explosion — the query an
/// external death check makes once per tick; a position outside the grid is
/// never deadly.
pub open spec fn spec_deadly(g: Grid, pos: Vec2Fx) -> bool {
    match g.spec_index_from_position(pos) {
        Some(c) => g.spec_tile_at(c.x as int, c.y as int) is Explosion,
        None => false,
    }
}

/// True exactly when the actor at `pos` is standing in an explosion.
pub fn check_for_death(grid: &Grid, pos: Vec2Fx) -> (dead: bool)
    requires
        grid.wf(),
        -MAX_POS_FX <= pos.x <= MAX_POS_FX,
        -MAX_POS_FX <= pos.y <= MAX_POS_FX,
    ensures
        dead == spec_deadly(*grid, pos),
{
    match grid.get_index_from_position(pos) {
        Some(c) => {
            let t = grid.tile_at(c);
            match t {
                TileType::Explosion(_, _) => true,
                _ => false,
            }
        },
        None => false,
    }
}

/// Whether the round is over: with more than one player in it, it ends as
/// soon as at most one is still alive (one winner, or a draw at zero).
pub fn check_for_win(num_alive: usize, num_dead: usize) -> (over: bool)
    requires
        num_alive + num_dead <= usize::MAX,
    ensures
        over == (num_alive + num_dead > 1 && num_alive <= 1),
{
    let num_players: usize = num_alive + num_dead;
    num_players > 1 && num_alive <= 1
}

} // verus!
