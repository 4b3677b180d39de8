//! Simulation core of a falling-block puzzle game: a fixed-size grid of
//! cells, a piece under the player's control, and the rules for moving,
//! rotating, locking pieces and clearing rows.

pub mod board;
pub mod grid;
pub mod piece;

pub use board::Board;
pub use grid::{Grid, TileType};
pub use piece::{FallingTile, Shape, TileChange};
