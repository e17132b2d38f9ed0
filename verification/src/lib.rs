//! Core simulation of a grid-based arena game: a tile grid with walls, bombs
//! and power-ups, a signed-distance collision probe for continuous movement
//! against the grid, a procedural map generator, and the bomb/explosion
//! state machine that advances the world once per simulation tick.
//!
//! Continuous quantities (positions, distances) are held in fixed-point
//! units of one thousandth of a tile edge, so that the collision geometry
//! can be stated and proved exactly over the integers.

pub mod basic;
pub mod control;
pub mod geom;
pub mod grid;
pub mod models;
pub mod player;
pub mod sdf;
pub mod sim;
pub mod tile;
