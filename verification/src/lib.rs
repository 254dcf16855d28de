//! Rule engine of a grid-based snake game.
//!
//! A [`GameBoard`] is a rectangular grid of tiles ringed by a death zone; a
//! [`Snake`] is a path of occupied tiles on it that grows by eating food and
//! dies on collision. Every function carries a contract stated over the
//! mathematical model in [`grid`] and [`rules`]; [`laws`] proves what holds of
//! every tick.

pub mod tile;
pub mod grid;
pub mod board;
pub mod rules;
pub mod snake;
pub mod laws;
mod random;

pub use crate::board::GameBoard;
pub use crate::snake::Snake;
pub use crate::tile::{Direction, GameError, MoveOutcome, Position, Tile, TileState};
