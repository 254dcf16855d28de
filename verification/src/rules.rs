//! The mathematical model of the snake and of one tick of the game.

use vstd::prelude::*;
use crate::grid::{
    free_cells, grid_put, grid_release, grid_width, has_one_food, in_grid, on_ring, spawn_at,
    state_at, valid_grid, Cell, Grid,
};
use crate::tile::{Direction, MoveOutcome, TileState};

verus! {

/// What a snake is: the cells of its body from tail to head, the length it
/// may reach, and whether it lives.
pub struct SnakeView {
    pub body: Seq<Cell>,
    pub maxlength: nat,
    pub alive: bool,
}

impl SnakeView {
    /// The head: the cell that was entered last.
    pub open spec fn head(self) -> Cell {
        self.body.last()
    }
}

/// A snake has a head, and its body is as long as it may be.
pub open spec fn valid_snake(s: SnakeView) -> bool {
    s.body.len() >= 1 && s.body.len() == s.maxlength
}

/// The snake lives on the grid: each cell of its body is a cell of the grid
/// marked as occupied by the snake, and no cell occurs twice in the body.
pub open spec fn lives_on(s: SnakeView, g: Grid) -> bool {
    &&& forall|i: int|
        0 <= i < s.body.len() ==> in_grid(g, #[trigger] s.body[i]) && state_at(g, s.body[i])
            == TileState::SnakeOccupied
    &&& forall|i: int, j: int| 0 <= i < j < s.body.len() ==> s.body[i] != s.body[j]
}

/// The snake is alone on the grid: each cell that the grid marks as occupied
/// by the snake belongs to its body.
pub open spec fn alone_on(s: SnakeView, g: Grid) -> bool {
    forall|c: Cell|
        in_grid(g, c) && #[trigger] state_at(g, c) == TileState::SnakeOccupied ==> s.body.contains(
            c,
        )
}

/// A game in play: a valid snake, alone on a grid that can be played on and
/// that holds exactly one food.
pub open spec fn in_play(s: SnakeView, g: Grid) -> bool {
    &&& valid_grid(g)
    &&& valid_snake(s)
    &&& lives_on(s, g)
    &&& alone_on(s, g)
    &&& has_one_food(g)
}

/// The snake covers the grid: every cell inside the ring belongs to its
/// body. No cell is free and none holds food.
pub open spec fn covers(s: SnakeView, g: Grid) -> bool {
    forall|c: Cell|
        in_grid(g, c) && !on_ring(grid_width(g) as int, g.len() as int, c) ==> #[trigger] state_at(
            g,
            c,
        ) == TileState::SnakeOccupied && s.body.contains(c)
}

/// The cell that the head is asked to enter: one step from the head in the
/// given direction, or the head itself for `Neutral`.
pub open spec fn target(head: Cell, d: Direction) -> Cell {
    match d {
        Direction::Up => Cell { x: head.x, y: head.y - 1 },
        Direction::Down => Cell { x: head.x, y: head.y + 1 },
        Direction::Left => Cell { x: head.x - 1, y: head.y },
        Direction::Right => Cell { x: head.x + 1, y: head.y },
        Direction::Neutral => head,
    }
}

/// What entering the cell `t` does to the snake: a free cell lets it move,
/// food lets it grow, and the death zone, the snake itself and every cell
/// off the grid kill it.
pub open spec fn outcome_at(g: Grid, t: Cell) -> MoveOutcome {
    if !in_grid(g, t) {
        MoveOutcome::Died
    } else {
        match state_at(g, t) {
            TileState::Free => MoveOutcome::Moved,
            TileState::FoodOccupied => MoveOutcome::Ate,
            _ => MoveOutcome::Died,
        }
    }
}

/// What the tick does to the snake, by the direction it is given.
pub open spec fn outcome(s: SnakeView, g: Grid, d: Direction) -> MoveOutcome {
    outcome_at(g, target(s.head(), d))
}

/// A body longer than it may be loses its oldest cell, and the grid frees
/// that cell.
pub open spec fn trim(s: SnakeView, g: Grid) -> (SnakeView, Grid) {
    if s.body.len() > s.maxlength {
        (SnakeView { body: s.body.drop_first(), ..s }, grid_release(g, s.body.first()))
    } else {
        (s, g)
    }
}

/// The snake and the grid after the head is asked to go in direction `d`,
/// before any food is placed again.
///
/// A snake that dies keeps its body, and the grid stays as it is. A snake
/// that moves or eats enters the target cell; one that eats may also be one
/// cell longer from now on. Then the body is trimmed.
pub open spec fn advance(s: SnakeView, g: Grid, d: Direction) -> (SnakeView, Grid) {
    let t = target(s.head(), d);
    match outcome(s, g, d) {
        MoveOutcome::Died => (SnakeView { alive: false, ..s }, g),
        MoveOutcome::Moved => trim(
            SnakeView { body: s.body.push(t), ..s },
            grid_put(g, t, TileState::SnakeOccupied),
        ),
        MoveOutcome::Ate => trim(
            SnakeView { body: s.body.push(t), maxlength: s.maxlength + 1, ..s },
            grid_put(g, t, TileState::SnakeOccupied),
        ),
    }
}

/// The tick asks for new food, and the grid has no free cell for it: the
/// snake has eaten and now fills every cell that was free.
pub open spec fn board_full_after(s: SnakeView, g: Grid, d: Direction) -> bool {
    outcome(s, g, d) == MoveOutcome::Ate && free_cells(advance(s, g, d).1).len() == 0
}

/// The snake and the grid after one whole tick in which `pick` selects the
/// cell of the new food, should the snake eat: the free cells are counted
/// in reading order and `pick` is taken modulo their number.
pub open spec fn tick(s: SnakeView, g: Grid, d: Direction, pick: int) -> (SnakeView, Grid) {
    let (s1, g1) = advance(s, g, d);
    if outcome(s, g, d) == MoveOutcome::Ate && free_cells(g1).len() > 0 {
        (s1, spawn_at(g1, pick % free_cells(g1).len() as int))
    } else {
        (s1, g1)
    }
}

} // verus!
