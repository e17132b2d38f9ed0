//! Player records: the fields the simulation reads and writes (available
//! bombs, blast radius), the input-source tag, and the per-tick control
//! intent handed in by the input layer.

use vstd::prelude::*;

verus! {

use crate::geom::{Vec2Fx, normalize_fx, normalize_fx_spec};

pub const STARTING_BOMBS: i32 = 1;

pub const STARTING_FIREPOWER: i32 = 1;

/// Which input source drives a player.
#[derive(Clone, Copy, PartialEq, Eq, Structural, Debug)]
pub enum PlayerController {
    KeyboardArrows,
    KeyboardWASD,
    Gamepad(usize),
}

/// Marker the driving layer attaches to players still in the round; the
/// simulation itself only reports deadly cells (see `check_for_death`).
pub struct Alive {}

/// The per-player state the simulation owns. The continuous position is
/// kept by the caller and passed alongside, mirroring how the record is
/// split from the transform it moves.
#[derive(Clone, Copy, PartialEq, Eq, Structural, Debug)]
pub struct Player {
    pub player_index: usize,
    pub controller: PlayerController,
    pub num_bombs: i32,
    pub firepower: i32,
}

impl Player {
    pub fn new(player_index: usize, controller: PlayerController) -> (p: Player)
        ensures
            p.player_index == player_index,
            p.controller == controller,
            p.num_bombs == STARTING_BOMBS,
            p.firepower == STARTING_FIREPOWER,
    {
        Player { player_index, controller, num_bombs: STARTING_BOMBS, firepower: STARTING_FIREPOWER }
    }

    /// Restores the starting resources, keeping identity and input source.
    pub fn reset(&mut self)
        ensures
            final(self).player_index == old(self).player_index,
            final(self).controller == old(self).controller,
            final(self).num_bombs == STARTING_BOMBS,
            final(self).firepower == STARTING_FIREPOWER,
    {
        self.num_bombs = STARTING_BOMBS;
        self.firepower = STARTING_FIREPOWER;
    }
}

#[derive(Clone, Copy, PartialEq, Eq, Structural, Debug)]
pub enum PlayerAction {
    Idle,
    DropBomb,
}

/// One tick's intent from one input source: a motion vector of magnitude at
/// most one tile, and an optional action.
#[derive(Clone, Copy, PartialEq, Eq, Structural, Debug)]
pub struct PlayerControl {
    pub motion: Vec2Fx,
    pub action: PlayerAction,
}

impl PlayerControl {
    /// Whether this intent asks for anything at all.
    pub fn is_something(&self) -> (r: bool)
        ensures
            r == (self.motion.x != 0 || self.motion.y != 0 || self.action is DropBomb),
    {
        self.motion.x != 0 || self.motion.y != 0 || match self.action {
            PlayerAction::Idle => false,
            PlayerAction::DropBomb => true,
        }
    }
}

/// The motion vector encoded by four direction buttons: one fixed-point
/// unit along each pressed axis, opposite presses cancelling, the result
/// normalized to unit length (so diagonals do not move faster).
pub open spec fn control_from_buttons_spec(up: bool, down: bool, left: bool, right: bool) -> (
    int,
    int,
) {
    let mx = (if left { -1000int } else { 0int }) + (if right { 1000int } else { 0int });
    let my = (if up { -1000int } else { 0int }) + (if down { 1000int } else { 0int });
    if mx == 0 && my == 0 {
        (0int, 0int)
    } else {
        normalize_fx_spec(mx, my)
    }
}

/// Builds the per-tick intent from the pressed state of the four direction
/// buttons and the action button, as the keyboard layer samples them.
pub fn control_from_buttons(up: bool, down: bool, left: bool, right: bool, drop: bool) -> (c:
    PlayerControl)
    ensures
        c.motion.x as int == control_from_buttons_spec(up, down, left, right).0,
        c.motion.y as int == control_from_buttons_spec(up, down, left, right).1,
        c.action == (if drop {
            PlayerAction::DropBomb
        } else {
            PlayerAction::Idle
        }),
{
    let mut mx: i64 = 0;
    let mut my: i64 = 0;
    if up {
        my = my - 1000;
    }
    if down {
        my = my + 1000;
    }
    if left {
        mx = mx - 1000;
    }
    if right {
        mx = mx + 1000;
    }
    let motion = if mx == 0 && my == 0 {
        Vec2Fx { x: 0, y: 0 }
    } else {
        normalize_fx(Vec2Fx { x: mx, y: my })
    };
    let action = if drop {
        PlayerAction::DropBomb
    } else {
        PlayerAction::Idle
    };
    PlayerControl { motion, action }
}

} // verus!
