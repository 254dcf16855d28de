//! What holds of every tick of the game, proved of the model in `rules`.

use vstd::prelude::*;
use crate::grid::{
    free_cells, grid_put, grid_width, has_no_food, has_one_food, in_grid, lemma_free_cells,
    lemma_grid_put, lemma_grid_release, lemma_put_off_ring, lemma_spawn_at, on_ring,
    only_food_at, state_at, valid_grid, Cell, Grid,
};
use crate::rules::{
    advance, alone_on, board_full_after, covers, in_play, lives_on, outcome, target, tick,
    valid_snake, SnakeView,
};
use crate::tile::{Direction, MoveOutcome, TileState};

verus! {

/// The length law: a tick leaves a valid snake valid, so its body is never
/// longer than `maxlength` when the tick is over.
pub proof fn lemma_length_bounded(s: SnakeView, g: Grid, d: Direction, pick: int)
    requires
        valid_snake(s),
    ensures
        tick(s, g, d, pick).0 == advance(s, g, d).0,
        valid_snake(tick(s, g, d, pick).0),
        tick(s, g, d, pick).0.body.len() <= tick(s, g, d, pick).0.maxlength,
{
}

/// The growth law: a snake that eats may be exactly one cell longer, and
/// its body is the old body with the eaten cell added: nothing is trimmed
/// in that tick.
pub proof fn lemma_growth(s: SnakeView, g: Grid, d: Direction, pick: int)
    requires
        valid_snake(s),
        outcome(s, g, d) == MoveOutcome::Ate,
    ensures
        tick(s, g, d, pick).0.maxlength == s.maxlength + 1,
        tick(s, g, d, pick).0.body == s.body.push(target(s.head(), d)),
        tick(s, g, d, pick).0.body.len() == s.body.len() + 1,
        tick(s, g, d, pick).0.alive == s.alive,
{
}

/// The border law: no tick changes the shape of the grid or a cell of its
/// ring. The ring is death zone before the tick and after it.
pub proof fn lemma_ring_stays(s: SnakeView, g: Grid, d: Direction, pick: int)
    requires
        valid_grid(g),
    ensures
        valid_grid(advance(s, g, d).1),
        valid_grid(tick(s, g, d, pick).1),
        tick(s, g, d, pick).1.len() == g.len(),
        grid_width(tick(s, g, d, pick).1) == grid_width(g),
        forall|c: Cell|
            on_ring(grid_width(g) as int, g.len() as int, c) ==> #[trigger] state_at(
                tick(s, g, d, pick).1,
                c,
            ) == TileState::BorderDeathZone,
{
    let t = target(s.head(), d);
    let (s1, g1) = advance(s, g, d);
    if outcome(s, g, d) != MoveOutcome::Died {
        let entered = grid_put(g, t, TileState::SnakeOccupied);
        lemma_put_off_ring(g, t, TileState::SnakeOccupied);
        lemma_grid_release(entered, s.body.push(t).first());
    }
    if outcome(s, g, d) == MoveOutcome::Ate && free_cells(g1).len() > 0 {
        lemma_spawn_at(g1, pick % free_cells(g1).len() as int);
    }
}

/// What a step does to the food: a snake that eats leaves no food on the
/// grid, and any other step leaves the one food where it was.
pub proof fn lemma_food_after_advance(s: SnakeView, g: Grid, d: Direction)
    requires
        has_one_food(g),
    ensures
        outcome(s, g, d) == MoveOutcome::Ate ==> has_no_food(advance(s, g, d).1),
        outcome(s, g, d) != MoveOutcome::Ate ==> has_one_food(advance(s, g, d).1),
{
    let t = target(s.head(), d);
    let c = choose|c: Cell| only_food_at(g, c);
    let g1 = advance(s, g, d).1;
    if outcome(s, g, d) != MoveOutcome::Died {
        let entered = grid_put(g, t, TileState::SnakeOccupied);
        lemma_grid_put(g, t, TileState::SnakeOccupied);
        lemma_grid_release(entered, s.body.push(t).first());
        if outcome(s, g, d) == MoveOutcome::Ate {
            // the food was on the target alone, and the target is the snake's now
            assert forall|e: Cell| in_grid(g1, e) implies #[trigger] state_at(g1, e)
                != TileState::FoodOccupied by {}
        } else {
            // the food is where it was: no step frees or enters its cell
            assert forall|e: Cell|
                in_grid(g1, e) && #[trigger] state_at(g1, e) == TileState::FoodOccupied implies e
                == c by {}
            assert(only_food_at(g1, c));
        }
    }
}

/// The food law: on a grid with exactly one food, a tick leaves exactly one
/// food, unless the snake ate and the grid had no free cell left for new
/// food.
pub proof fn lemma_one_food(s: SnakeView, g: Grid, d: Direction, pick: int)
    requires
        valid_grid(g),
        has_one_food(g),
        !board_full_after(s, g, d),
    ensures
        has_one_food(tick(s, g, d, pick).1),
{
    lemma_food_after_advance(s, g, d);
    lemma_ring_stays(s, g, d, pick);
    let g1 = advance(s, g, d).1;
    if outcome(s, g, d) == MoveOutcome::Ate {
        lemma_spawn_at(g1, pick % free_cells(g1).len() as int);
    }
}

/// The occupancy law: a snake that lives on the grid before a tick lives on
/// it after the tick. Each cell that joins the body is marked as occupied
/// in the same step, and each cell that leaves it is freed.
pub proof fn lemma_snake_stays_on_grid(s: SnakeView, g: Grid, d: Direction, pick: int)
    requires
        lives_on(s, g),
    ensures
        lives_on(advance(s, g, d).0, advance(s, g, d).1),
        lives_on(tick(s, g, d, pick).0, tick(s, g, d, pick).1),
{
    let t = target(s.head(), d);
    let (s1, g1) = advance(s, g, d);
    if outcome(s, g, d) != MoveOutcome::Died {
        // the body with the target added lives on the grid with the target marked
        let entered = grid_put(g, t, TileState::SnakeOccupied);
        let grown = s.body.push(t);
        assert forall|i: int| 0 <= i < grown.len() implies in_grid(entered, #[trigger] grown[i])
            && state_at(entered, grown[i]) == TileState::SnakeOccupied by {}
        assert forall|i: int, j: int| 0 <= i < j < grown.len() implies grown[i] != grown[j] by {}
        // and so does what is left of it once the oldest cell is freed
        assert(lives_on(s1, g1));
    }
    if outcome(s, g, d) == MoveOutcome::Ate && free_cells(g1).len() > 0 {
        lemma_free_cells(g1);
    }
}

/// The solitude law: a snake that is alone on the grid before a tick is
/// alone on it after the tick. No cell stays marked as occupied once the
/// body has left it.
pub proof fn lemma_snake_stays_alone(s: SnakeView, g: Grid, d: Direction, pick: int)
    requires
        alone_on(s, g),
    ensures
        alone_on(advance(s, g, d).0, advance(s, g, d).1),
        alone_on(tick(s, g, d, pick).0, tick(s, g, d, pick).1),
{
    let t = target(s.head(), d);
    let (s1, g1) = advance(s, g, d);
    if outcome(s, g, d) != MoveOutcome::Died {
        let entered = grid_put(g, t, TileState::SnakeOccupied);
        let grown = s.body.push(t);
        lemma_grid_put(g, t, TileState::SnakeOccupied);
        lemma_grid_release(entered, grown.first());
        assert forall|c: Cell|
            in_grid(g1, c) && #[trigger] state_at(g1, c)
                == TileState::SnakeOccupied implies s1.body.contains(c) by {
            // where the cell stands in the body with the target added
            let i = if c == t {
                s.body.len() as int
            } else {
                choose|i: int| 0 <= i < s.body.len() && s.body[i] == c
            };
            assert(grown[i] == c);
            if s1.body.len() < grown.len() {
                assert(s1.body[i - 1] == c);
            }
        }
    }
    if outcome(s, g, d) == MoveOutcome::Ate && free_cells(g1).len() > 0 {
        lemma_grid_put(g1, free_cells(g1)[pick % free_cells(g1).len() as int], TileState::FoodOccupied);
    }
}

/// The game goes on: a tick of a game in play leaves a game in play, unless
/// the snake ate and the grid had no free cell left for new food.
pub proof fn lemma_play_goes_on(s: SnakeView, g: Grid, d: Direction, pick: int)
    requires
        in_play(s, g),
        !board_full_after(s, g, d),
    ensures
        in_play(tick(s, g, d, pick).0, tick(s, g, d, pick).1),
{
    lemma_ring_stays(s, g, d, pick);
    lemma_one_food(s, g, d, pick);
    lemma_snake_stays_on_grid(s, g, d, pick);
    lemma_snake_stays_alone(s, g, d, pick);
}

/// The game is won: when the snake of a game in play eats and the grid has
/// no free cell left for new food, the snake covers the grid. That tick
/// places no food, and the snake is as alive as it was.
pub proof fn lemma_full_board_is_won(s: SnakeView, g: Grid, d: Direction, pick: int)
    requires
        in_play(s, g),
        board_full_after(s, g, d),
    ensures
        tick(s, g, d, pick) == advance(s, g, d),
        covers(tick(s, g, d, pick).0, tick(s, g, d, pick).1),
        has_no_food(tick(s, g, d, pick).1),
        valid_grid(tick(s, g, d, pick).1),
        valid_snake(tick(s, g, d, pick).0),
        lives_on(tick(s, g, d, pick).0, tick(s, g, d, pick).1),
        alone_on(tick(s, g, d, pick).0, tick(s, g, d, pick).1),
        tick(s, g, d, pick).0.alive == s.alive,
{
    lemma_ring_stays(s, g, d, pick);
    lemma_food_after_advance(s, g, d);
    lemma_snake_stays_alone(s, g, d, pick);
    lemma_free_cells(advance(s, g, d).1);
}

/// The rest law: a dead snake that lives on the grid and is given `Neutral`
/// stays as it is, and so does the grid.
pub proof fn lemma_dead_neutral_rests(s: SnakeView, g: Grid, pick: int)
    requires
        valid_snake(s),
        lives_on(s, g),
        !s.alive,
    ensures
        tick(s, g, Direction::Neutral, pick) == (s, g),
{
}

/// The death law: a snake that dies in a tick keeps its body, and the grid
/// stays as it was; a snake that does not die stays as alive as it was.
pub proof fn lemma_death(s: SnakeView, g: Grid, d: Direction, pick: int)
    ensures
        outcome(s, g, d) == MoveOutcome::Died ==> tick(s, g, d, pick) == (
            SnakeView { alive: false, ..s },
            g,
        ),
        outcome(s, g, d) != MoveOutcome::Died ==> tick(s, g, d, pick).0.alive == s.alive,
        !s.alive ==> !tick(s, g, d, pick).0.alive,
{
}

} // verus!
