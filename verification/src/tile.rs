//! The small value types shared by the board and the snake.

use vstd::prelude::*;
use crate::grid::Cell;

verus! {

/// What currently occupies a tile. Exactly one variant holds at any time.
#[derive(Copy, Clone, PartialEq, Eq, Structural, Debug)]
pub enum TileState {
    SnakeOccupied,
    FoodOccupied,
    BorderDeathZone,
    Free,
}

/// One tile of the board: its fixed coordinates and its current state.
#[derive(Copy, Clone, PartialEq, Eq, Structural, Debug)]
pub struct Tile {
    pub state: TileState,
    pub x_coordinate: usize,
    pub y_coordinate: usize,
}

/// The coordinates of a tile: column `x` and row `y`.
#[derive(Copy, Clone, PartialEq, Eq, Structural, Debug)]
pub struct Position {
    pub x: usize,
    pub y: usize,
}

impl Position {
    /// The cell of the grid that the position names.
    pub open spec fn cell(self) -> Cell {
        Cell { x: self.x as int, y: self.y as int }
    }
}

/// The input of one tick. `Neutral` stands for any input that is not one of
/// the four directions: it leaves the head where it is, so the head is asked
/// to enter the tile that it occupies itself.
#[derive(Copy, Clone, PartialEq, Eq, Structural, Debug)]
pub enum Direction {
    Up,
    Down,
    Left,
    Right,
    Neutral,
}

/// What one tick did to the snake.
#[derive(Copy, Clone, PartialEq, Eq, Structural, Debug)]
pub enum MoveOutcome {
    /// The head advanced onto a free tile.
    Moved,
    /// The head advanced onto the food and the snake grew by one.
    Ate,
    /// The head hit the border, the snake itself, or left the grid.
    Died,
}

/// The failures that the game reports.
#[derive(Copy, Clone, PartialEq, Eq, Structural, Debug)]
pub enum GameError {
    /// The requested board has no interior: a side is shorter than 3.
    ConstructionError,
    /// Food was to be placed but no tile of the board is free.
    FoodSpawnError,
}

} // verus!
