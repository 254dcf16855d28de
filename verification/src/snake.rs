//! The snake: a path of occupied tiles that moves over a board.

use std::collections::VecDeque;
use vstd::prelude::*;
use vstd::arithmetic::div_mod::lemma_small_mod;
use crate::board::GameBoard;
use crate::grid::{
    center, free_cells, grid_put, grid_width, has_one_food, in_grid, only_at, spawn_at, state_at,
    Cell,
};
use crate::laws::{
    lemma_dead_neutral_rests, lemma_full_board_is_won, lemma_one_food, lemma_play_goes_on,
    lemma_ring_stays, lemma_snake_stays_on_grid,
};
use crate::rules::{
    advance, board_full_after, covers, in_play, lives_on, outcome, target, tick, valid_snake,
    SnakeView,
};
use crate::tile::{Direction, GameError, MoveOutcome, Position, TileState};

verus! {

/// A snake on a board. It stores the positions of its tiles, oldest first;
/// the states of those tiles are the board's alone.
pub struct Snake {
    head: Position,
    body: VecDeque<Position>,
    maxlength: usize,
    alive: bool,
}

/// The position one step from `head` in the given direction; `None` where
/// that step leaves the range of machine integers.
fn step_from(head: Position, dir: Direction) -> (next: Option<Position>)
    ensures
        match next {
            Some(p) => p.cell() == target(head.cell(), dir),
            None => {
                let t = target(head.cell(), dir);
                t.x < 0 || t.y < 0 || t.x > usize::MAX || t.y > usize::MAX
            },
        },
{
    match dir {
        Direction::Up => match head.y.checked_sub(1) {
            Some(y) => Some(Position { x: head.x, y }),
            None => None,
        },
        Direction::Down => match head.y.checked_add(1) {
            Some(y) => Some(Position { x: head.x, y }),
            None => None,
        },
        Direction::Left => match head.x.checked_sub(1) {
            Some(x) => Some(Position { x, y: head.y }),
            None => None,
        },
        Direction::Right => match head.x.checked_add(1) {
            Some(x) => Some(Position { x, y: head.y }),
            None => None,
        },
        Direction::Neutral => Some(head),
    }
}

impl Snake {
    /// The snake that the stored fields stand for.
    pub closed spec fn view(&self) -> SnakeView {
        SnakeView {
            body: Seq::new(self.body@.len(), |i: int| self.body@[i].cell()),
            maxlength: self.maxlength as nat,
            alive: self.alive,
        }
    }

    /// The stored head is the last position of the stored body.
    pub closed spec fn coherent(&self) -> bool {
        self.body@.len() >= 1 && self.head == self.body@.last()
    }

    /// The snake is well formed: its storage is coherent and it is a valid
    /// snake.
    pub open spec fn wf(&self) -> bool {
        self.coherent() && valid_snake(self@)
    }

    /// The snake lives on the board.
    pub open spec fn inhabits(&self, board: &GameBoard) -> bool {
        lives_on(self@, board@)
    }

    /// The snake and the board are a game in play.
    pub open spec fn in_play(&self, board: &GameBoard) -> bool {
        in_play(self@, board@)
    }

    /// A snake of one tile on the center of the board, alive, with
    /// `maxlength` 1. The center tile is marked as occupied by the snake; on
    /// a new board it already is, and the board does not change.
    pub fn new(board: &mut GameBoard) -> (snake: Snake)
        requires
            old(board).wf(),
        ensures
            final(board).wf(),
            snake.wf(),
            snake.inhabits(final(board)),
            snake@.body == seq![center(grid_width(old(board)@) as int, old(board)@.len() as int)],
            snake@.maxlength == 1,
            snake@.alive,
            final(board)@ == grid_put(
                old(board)@,
                center(grid_width(old(board)@) as int, old(board)@.len() as int),
                TileState::SnakeOccupied,
            ),
            state_at(
                old(board)@,
                center(grid_width(old(board)@) as int, old(board)@.len() as int),
            ) == TileState::SnakeOccupied ==> final(board)@ == old(board)@,
            has_one_food(old(board)@) && only_at(
                old(board)@,
                TileState::SnakeOccupied,
                center(grid_width(old(board)@) as int, old(board)@.len() as int),
            ) ==> snake.in_play(final(board)),
    {
        let head = board.center();
        board.mark(head, TileState::SnakeOccupied);
        let mut body: VecDeque<Position> = VecDeque::new();
        body.push_back(head);
        let snake = Snake { head, body, maxlength: 1, alive: true };
        proof {
            let c = center(grid_width(old(board)@) as int, old(board)@.len() as int);
            if state_at(old(board)@, c) == TileState::SnakeOccupied {
                assert(board@ =~~= old(board)@);
            }
            if only_at(old(board)@, TileState::SnakeOccupied, c) {
                assert forall|e: Cell|
                    in_grid(board@, e) && #[trigger] state_at(board@, e)
                        == TileState::SnakeOccupied implies snake@.body.contains(e) by {
                    assert(snake@.body[0] == c);
                }
            }
        }
        snake
    }

    /// Moves the head one step and trims the body; places no food.
    fn advance(&mut self, board: &mut GameBoard, dir: Direction) -> (done: MoveOutcome)
        requires
            old(self).wf(),
            old(board).wf(),
        ensures
            final(self).wf(),
            final(board).wf(),
            done == outcome(old(self)@, old(board)@, dir),
            final(self)@ == advance(old(self)@, old(board)@, dir).0,
            final(board)@ == advance(old(self)@, old(board)@, dir).1,
    {
        proof {
            board.lemma_sides_fit();
        }
        let ghost t = target(self@.head(), dir);
        let next = step_from(self.head, dir);
        let seen = match next {
            Some(p) => board.get_state(p.x, p.y),
            None => None,
        };
        let done = match (next, seen) {
            (Some(p), Some(TileState::FoodOccupied)) => {
                board.mark(p, TileState::SnakeOccupied);
                self.body.push_back(p);
                self.head = p;
                assert(self.body.len() == self.body@.len());
                self.maxlength += 1;
                assert(self@.body =~= old(self)@.body.push(t));
                MoveOutcome::Ate
            },
            (Some(p), Some(TileState::Free)) => {
                board.mark(p, TileState::SnakeOccupied);
                self.body.push_back(p);
                self.head = p;
                assert(self@.body =~= old(self)@.body.push(t));
                MoveOutcome::Moved
            },
            _ => {
                self.alive = false;
                MoveOutcome::Died
            },
        };
        let ghost grown = self@;
        if self.body.len() > self.maxlength {
            if let Some(tail) = self.body.pop_front() {
                board.release(tail);
                assert(self@.body =~= grown.body.drop_first());
            }
        }
        done
    }

    /// One tick of the game: the head is asked to go in direction `dir`.
    ///
    /// The head enters a free tile, and the snake leaves its oldest tile. It
    /// enters the food and grows by one, and new food is placed on a free
    /// tile chosen at random. It dies, and nothing else changes, where the
    /// tile is death zone, part of the snake, or off the board. `Neutral`
    /// asks the head to enter the tile it is on.
    ///
    /// The result is that of `move_snake_with` for some `pick`. It is an
    /// error, `FoodSpawnError`, exactly when the snake ate and no tile was
    /// left for new food: the snake has grown all the same.
    pub fn move_snake(&mut self, board: &mut GameBoard, dir: Direction) -> (r: Result<
        (),
        GameError,
    >)
        requires
            old(self).wf(),
            old(board).wf(),
        ensures
            final(self).wf(),
            final(board).wf(),
            exists|pick: int|
                (final(self)@, final(board)@) == #[trigger] tick(
                    old(self)@,
                    old(board)@,
                    dir,
                    pick,
                ),
            r is Err <==> board_full_after(old(self)@, old(board)@, dir),
            r matches Err(e) ==> e == GameError::FoodSpawnError,
            final(self)@.body.len() <= final(self)@.maxlength,
            final(board)@.len() == old(board)@.len(),
            grid_width(final(board)@) == grid_width(old(board)@),
            has_one_food(old(board)@) && r is Ok ==> has_one_food(final(board)@),
            old(self).inhabits(old(board)) ==> final(self).inhabits(final(board)),
            outcome(old(self)@, old(board)@, dir) == MoveOutcome::Ate ==> {
                &&& final(self)@.maxlength == old(self)@.maxlength + 1
                &&& final(self)@.body.len() == old(self)@.body.len() + 1
            },
            dir == Direction::Neutral && !old(self)@.alive && old(self).inhabits(old(board)) ==> {
                &&& r is Ok
                &&& final(self)@ == old(self)@
                &&& final(board)@ == old(board)@
            },
            old(self).in_play(old(board)) ==> if r is Ok {
                final(self).in_play(final(board))
            } else {
                covers(final(self)@, final(board)@)
            },
    {
        let ghost s0 = self@;
        let ghost g0 = board@;
        let done = self.advance(board, dir);
        let ghost g1 = board@;
        let r = match done {
            MoveOutcome::Ate => board.spawn_food(),
            _ => Ok(()),
        };
        proof {
            let pick: int = if done == MoveOutcome::Ate && r is Ok {
                choose|k: int| 0 <= k < free_cells(g1).len() && board@ == #[trigger] spawn_at(g1, k)
            } else {
                0
            };
            if done == MoveOutcome::Ate && r is Ok {
                lemma_small_mod(pick as nat, free_cells(g1).len());
            }
            assert((self@, board@) == tick(s0, g0, dir, pick));
            lemma_ring_stays(s0, g0, dir, pick);
            if has_one_food(g0) && r is Ok {
                lemma_one_food(s0, g0, dir, pick);
            }
            if lives_on(s0, g0) {
                lemma_snake_stays_on_grid(s0, g0, dir, pick);
                if dir == Direction::Neutral && !s0.alive {
                    lemma_dead_neutral_rests(s0, g0, pick);
                }
            }
            if in_play(s0, g0) {
                if r is Ok {
                    lemma_play_goes_on(s0, g0, dir, pick);
                } else {
                    lemma_full_board_is_won(s0, g0, dir, pick);
                }
            }
        }
        r
    }

    /// As `move_snake`, but new food goes on the free tile that `pick`
    /// selects: the free tiles are counted in reading order and `pick` is
    /// taken modulo their number.
    pub fn move_snake_with(&mut self, board: &mut GameBoard, dir: Direction, pick: usize) -> (r:
        Result<(), GameError>)
        requires
            old(self).wf(),
            old(board).wf(),
        ensures
            final(self).wf(),
            final(board).wf(),
            (final(self)@, final(board)@) == tick(old(self)@, old(board)@, dir, pick as int),
            r is Err <==> board_full_after(old(self)@, old(board)@, dir),
            r matches Err(e) ==> e == GameError::FoodSpawnError,
            final(self)@.body.len() <= final(self)@.maxlength,
            final(board)@.len() == old(board)@.len(),
            grid_width(final(board)@) == grid_width(old(board)@),
            has_one_food(old(board)@) && r is Ok ==> has_one_food(final(board)@),
            old(self).inhabits(old(board)) ==> final(self).inhabits(final(board)),
            outcome(old(self)@, old(board)@, dir) == MoveOutcome::Ate ==> {
                &&& final(self)@.maxlength == old(self)@.maxlength + 1
                &&& final(self)@.body.len() == old(self)@.body.len() + 1
            },
            dir == Direction::Neutral && !old(self)@.alive && old(self).inhabits(old(board)) ==> {
                &&& r is Ok
                &&& final(self)@ == old(self)@
                &&& final(board)@ == old(board)@
            },
            old(self).in_play(old(board)) ==> if r is Ok {
                final(self).in_play(final(board))
            } else {
                covers(final(self)@, final(board)@)
            },
    {
        let ghost s0 = self@;
        let ghost g0 = board@;
        let done = self.advance(board, dir);
        let r = match done {
            MoveOutcome::Ate => board.spawn_food_with(pick),
            _ => Ok(()),
        };
        proof {
            assert((self@, board@) == tick(s0, g0, dir, pick as int));
            lemma_ring_stays(s0, g0, dir, pick as int);
            if has_one_food(g0) && r is Ok {
                lemma_one_food(s0, g0, dir, pick as int);
            }
            if lives_on(s0, g0) {
                lemma_snake_stays_on_grid(s0, g0, dir, pick as int);
                if dir == Direction::Neutral && !s0.alive {
                    lemma_dead_neutral_rests(s0, g0, pick as int);
                }
            }
            if in_play(s0, g0) {
                if r is Ok {
                    lemma_play_goes_on(s0, g0, dir, pick as int);
                } else {
                    lemma_full_board_is_won(s0, g0, dir, pick as int);
                }
            }
        }
        r
    }

    /// Whether the snake lives. A snake that has died stays dead.
    pub fn alive(&self) -> (a: bool)
        ensures
            a == self@.alive,
    {
        self.alive
    }

    /// The length that the body may reach: 1 and the number of foods eaten.
    pub fn maxlength(&self) -> (n: usize)
        ensures
            n == self@.maxlength,
    {
        self.maxlength
    }

    /// The position of the head.
    pub fn head(&self) -> (p: Position)
        requires
            self.wf(),
        ensures
            p.cell() == self@.head(),
    {
        self.head
    }

    /// The positions of the body, from the oldest tile to the head.
    pub fn body(&self) -> (v: Vec<Position>)
        ensures
            v@.len() == self@.body.len(),
            forall|i: int| 0 <= i < v@.len() ==> (#[trigger] v@[i]).cell() == self@.body[i],
    {
        let mut v: Vec<Position> = Vec::new();
        let mut i: usize = 0;
        while i < self.body.len()
            invariant
                i <= self.body@.len(),
                v@.len() == i,
                forall|j: int| 0 <= j < i ==> (#[trigger] v@[j]) == self.body@[j],
            decreases self.body@.len() - i,
        {
            v.push(self.body[i]);
            i += 1;
        }
        v
    }
}

} // verus!
