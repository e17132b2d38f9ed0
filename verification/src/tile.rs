//! The per-cell tile state: what occupies a cell, what a breakable wall
//! hides, and the bomb record that a cell can carry. Timestamps are
//! milliseconds of simulation time, supplied explicitly by the caller so the
//! simulation stays deterministic.

use vstd::prelude::*;

verus! {

/// How long a cell keeps burning once it has become an `Explosion`,
/// in milliseconds.
pub const EXPLOSION_DURATION_MS: u64 = 100;

/// Delay between placing a bomb and its scheduled detonation, in
/// milliseconds.
pub const BOMB_EXPLOSION_DELAY_MS: u64 = 3000;

/// A bomb occupying a cell: when it is due, how far its blast reaches,
/// and which player placed it (and is credited back a bomb on detonation).
#[derive(Clone, Copy, PartialEq, Eq, Debug)]
pub struct Bomb {
    pub when_to_explode: u64,
    pub firepower: i32,
    pub player_index: usize,
}

#[derive(Clone, Copy, PartialEq, Eq, Structural, Debug)]
pub enum PowerUpType {
    Firepower,
    ExtraBomb,
}

/// What a breakable wall hides, and what an explosion reverts to once it
/// burns out. Walls and explosions only ever conceal an empty cell or a
/// power-up, so the nesting is one level deep by construction.
#[derive(Clone, Copy, PartialEq, Eq, Structural, Debug)]
pub enum Residue {
    Empty,
    PowerUp(PowerUpType),
}

impl Residue {
    /// The tile a residue turns into when it is revealed.
    pub open spec fn to_tile_spec(self) -> TileType {
        match self {
            Residue::Empty => TileType::Empty,
            Residue::PowerUp(p) => TileType::PowerUp(p),
        }
    }

    pub fn to_tile(self) -> (t: TileType)
        ensures
            t == self.to_tile_spec(),
    {
        match self {
            Residue::Empty => TileType::Empty,
            Residue::PowerUp(p) => TileType::PowerUp(p),
        }
    }
}

/// The state of one grid cell.
#[derive(Clone, Copy, PartialEq, Eq, Debug)]
pub enum TileType {
    Empty,
    SolidWall,
    BreakableWall(Residue),
    Bomb(Option<Bomb>),
    Explosion(Option<u64>, Residue),
    PowerUp(PowerUpType),
}

/// A cell an actor may stand in: empty or holding a power-up. Bombs are not
/// themselves in the blocking set checked by the collision probe; standing
/// on one's own freshly placed bomb is handled by the probe's exemption.
pub open spec fn is_walkable_spec(t: TileType) -> bool {
    t is Empty || t is PowerUp
}

pub fn is_walkable(t: &TileType) -> (r: bool)
    ensures
        r == is_walkable_spec(*t),
{
    match t {
        TileType::Empty => true,
        TileType::PowerUp(_) => true,
        _ => false,
    }
}

} // verus!
