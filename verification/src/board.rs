//! The board: a grid of tiles that owns every tile state.

use vstd::prelude::*;
use crate::grid::{
    center, free_cells, free_in_row, free_in_rows, grid_put, grid_release, grid_width, has_one_food,
    has_room, in_grid, initial_grid, is_rectangle, lemma_grid_put, lemma_initial_grid,
    lemma_put_off_ring, lemma_spawn_at, on_ring, only_at, spawn_at, state_at, valid_grid,
    with_ring, Cell, Grid,
};
use crate::random::choose_tile;
use crate::tile::{GameError, Position, Tile, TileState};

verus! {

/// A rectangular grid of tiles, `length` rows of `width` tiles each.
pub struct GameBoard {
    board: Vec<Vec<Tile>>,
    length: usize,
    width: usize,
}

/// The tile that a free cell is stored as.
pub open spec fn free_tile(c: Cell) -> Tile {
    Tile { state: TileState::Free, x_coordinate: c.x as usize, y_coordinate: c.y as usize }
}

/// The tiles are the free tiles of the given cells, in the same order.
pub open spec fn tiles_of(tiles: Seq<Tile>, cells: Seq<Cell>) -> bool {
    &&& tiles.len() == cells.len()
    &&& forall|i: int| 0 <= i < tiles.len() ==> #[trigger] tiles[i] == free_tile(cells[i])
}

impl GameBoard {
    /// The grid of tile states that the board stands for.
    pub closed spec fn view(&self) -> Grid {
        Seq::new(
            self.board@.len(),
            |y: int| Seq::new(self.board@[y]@.len(), |x: int| self.board@[y]@[x].state),
        )
    }

    /// The stored tiles form a `length` by `width` rectangle and each tile
    /// carries its own coordinates.
    pub closed spec fn coherent(&self) -> bool {
        &&& self.board@.len() == self.length
        &&& forall|y: int| 0 <= y < self.length ==> (#[trigger] self.board@[y])@.len() == self.width
        &&& forall|y: int, x: int|
            0 <= y < self.length && 0 <= x < self.width ==> {
                &&& (#[trigger] self.board@[y]@[x]).x_coordinate == x
                &&& self.board@[y]@[x].y_coordinate == y
            }
    }

    /// The board is well formed: its storage is coherent and its grid can be
    /// played on.
    pub open spec fn wf(&self) -> bool {
        self.coherent() && valid_grid(self@)
    }

    /// Sets the state of a tile inside the ring; the state is not death zone.
    pub(crate) fn mark(&mut self, p: Position, s: TileState)
        requires
            old(self).wf(),
            in_grid(old(self)@, p.cell()),
            !on_ring(grid_width(old(self)@) as int, old(self)@.len() as int, p.cell()),
            s != TileState::BorderDeathZone,
        ensures
            final(self).wf(),
            final(self)@ == grid_put(old(self)@, p.cell(), s),
    {
        proof {
            lemma_put_off_ring(self@, p.cell(), s);
        }
        self.set_state(p, s);
    }

    /// Frees the tile at `p` if the snake occupies it; any other tile, and a
    /// position off the board, is left alone.
    pub(crate) fn release(&mut self, p: Position)
        requires
            old(self).wf(),
        ensures
            final(self).wf(),
            final(self)@ == grid_release(old(self)@, p.cell()),
    {
        if p.y < self.length && p.x < self.width {
            if self.board[p.y][p.x].state == TileState::SnakeOccupied {
                assert(state_at(self@, p.cell()) == TileState::SnakeOccupied);
                self.mark(p, TileState::Free);
            }
        }
    }

    /// The sides of a well-formed board are machine integers.
    pub proof fn lemma_sides_fit(&self)
        requires
            self.wf(),
        ensures
            self@.len() <= usize::MAX,
            grid_width(self@) <= usize::MAX,
    {
    }

    fn set_state(&mut self, p: Position, s: TileState)
        requires
            old(self).coherent(),
            in_grid(old(self)@, p.cell()),
        ensures
            final(self).coherent(),
            final(self).length == old(self).length,
            final(self).width == old(self).width,
            final(self)@ == grid_put(old(self)@, p.cell(), s),
    {
        self.board[p.y][p.x].state = s;
        assert(self@ =~~= grid_put(old(self)@, p.cell(), s));
    }

    /// A board of free tiles only.
    fn blank(length: usize, width: usize) -> (b: GameBoard)
        ensures
            b.coherent(),
            b.length == length,
            b.width == width,
            b@ == Seq::new(length as nat, |y: int| Seq::new(width as nat, |x: int| TileState::Free)),
    {
        let mut board: Vec<Vec<Tile>> = Vec::new();
        let mut y: usize = 0;
        while y < length
            invariant
                y <= length,
                board@.len() == y,
                forall|j: int| 0 <= j < y ==> (#[trigger] board@[j])@.len() == width,
                forall|j: int, i: int|
                    0 <= j < y && 0 <= i < width ==> (#[trigger] board@[j]@[i]) == free_tile(
                        Cell { x: i, y: j },
                    ),
            decreases length - y,
        {
            let mut row: Vec<Tile> = Vec::new();
            let mut x: usize = 0;
            while x < width
                invariant
                    x <= width,
                    row@.len() == x,
                    forall|i: int|
                        0 <= i < x ==> (#[trigger] row@[i]) == free_tile(
                            Cell { x: i, y: y as int },
                        ),
                decreases width - x,
            {
                row.push(Tile { state: TileState::Free, x_coordinate: x, y_coordinate: y });
                x += 1;
            }
            board.push(row);
            y += 1;
        }
        let b = GameBoard { board, length, width };
        assert(b@ =~~= Seq::new(
            length as nat,
            |y: int| Seq::new(width as nat, |x: int| TileState::Free),
        ));
        b
    }

    /// Marks the outermost ring as death zone: the whole first and last row,
    /// and the first and last tile of every row between them.
    fn generate_borders(&mut self)
        requires
            old(self).coherent(),
            old(self).length >= 1,
            old(self).width >= 1,
        ensures
            final(self).coherent(),
            final(self).length == old(self).length,
            final(self).width == old(self).width,
            final(self)@ == with_ring(old(self)@, old(self).width as int, old(self).length as int),
    {
        let ghost g0 = self@;
        let length: usize = self.length;
        let width: usize = self.width;
        let mut x: usize = 0;
        while x < width
            invariant
                x <= width,
                length >= 1,
                self.coherent(),
                self.length == length,
                self.width == width,
                is_rectangle(g0, width as int, length as int),
                is_rectangle(self@, width as int, length as int),
                forall|c: Cell|
                    in_grid(g0, c) ==> #[trigger] state_at(self@, c) == if c.y == 0 && c.x < x {
                        TileState::BorderDeathZone
                    } else {
                        state_at(g0, c)
                    },
            decreases width - x,
        {
            proof {
                lemma_grid_put(self@, Cell { x: x as int, y: 0 }, TileState::BorderDeathZone);
            }
            self.set_state(Position { x, y: 0 }, TileState::BorderDeathZone);
            x += 1;
        }
        x = 0;
        while x < width
            invariant
                x <= width,
                length >= 1,
                self.coherent(),
                self.length == length,
                self.width == width,
                is_rectangle(g0, width as int, length as int),
                is_rectangle(self@, width as int, length as int),
                forall|c: Cell|
                    in_grid(g0, c) ==> #[trigger] state_at(self@, c) == if c.y == 0 || (c.y
                        == length - 1 && c.x < x) {
                        TileState::BorderDeathZone
                    } else {
                        state_at(g0, c)
                    },
            decreases width - x,
        {
            proof {
                lemma_grid_put(
                    self@,
                    Cell { x: x as int, y: length - 1 },
                    TileState::BorderDeathZone,
                );
            }
            self.set_state(Position { x, y: length - 1 }, TileState::BorderDeathZone);
            x += 1;
        }
        let mut y: usize = 1;
        while y < length - 1
            invariant
                1 <= y,
                length >= 1,
                width >= 1,
                self.coherent(),
                self.length == length,
                self.width == width,
                is_rectangle(g0, width as int, length as int),
                is_rectangle(self@, width as int, length as int),
                forall|c: Cell|
                    in_grid(g0, c) ==> #[trigger] state_at(self@, c) == if c.y == 0 || c.y
                        == length - 1 || (c.y < y && (c.x == 0 || c.x == width - 1)) {
                        TileState::BorderDeathZone
                    } else {
                        state_at(g0, c)
                    },
            decreases length - y,
        {
            proof {
                lemma_grid_put(self@, Cell { x: 0, y: y as int }, TileState::BorderDeathZone);
            }
            self.set_state(Position { x: 0, y }, TileState::BorderDeathZone);
            proof {
                lemma_grid_put(
                    self@,
                    Cell { x: width - 1, y: y as int },
                    TileState::BorderDeathZone,
                );
            }
            self.set_state(Position { x: width - 1, y }, TileState::BorderDeathZone);
            y += 1;
        }
        proof {
            let ringed = with_ring(g0, width as int, length as int);
            assert forall|j: int, i: int| 0 <= j < length && 0 <= i < width implies self@[j][i]
                == ringed[j][i] by {
                let c = Cell { x: i, y: j };
                assert(state_at(self@, c) == self@[j][i]);
            }
            assert(self@ =~~= ringed);
        }
    }

    /// The board before any food is placed: free tiles, the ring of death
    /// zone, and the snake's first tile on the center.
    fn lay_out(length: usize, width: usize) -> (r: Result<GameBoard, GameError>)
        ensures
            match r {
                Ok(b) => {
                    &&& length >= 3 && width >= 3
                    &&& b.wf()
                    &&& b@ == initial_grid(width as int, length as int)
                },
                Err(e) => (length < 3 || width < 3) && e == GameError::ConstructionError,
            },
    {
        if length < 3 || width < 3 {
            return Err(GameError::ConstructionError);
        }
        let mut b = GameBoard::blank(length, width);
        b.generate_borders();
        b.set_state(Position { x: width / 2, y: length / 2 }, TileState::SnakeOccupied);
        assert(b@ =~~= initial_grid(width as int, length as int));
        Ok(b)
    }

    /// A new board of `length` rows and `width` columns: the ring is death
    /// zone, the snake's first tile lies on the center, and food lies on one
    /// of the other tiles, chosen at random.
    ///
    /// A side shorter than 3 is refused with `ConstructionError`. On a 3 by 3
    /// board the center is the only tile inside the ring, so no tile is left
    /// for the food: that is a `FoodSpawnError`.
    pub fn new(length: usize, width: usize) -> (r: Result<GameBoard, GameError>)
        ensures
            r is Ok <==> has_room(width as int, length as int),
            match r {
                Ok(b) => {
                    &&& b.wf()
                    &&& has_one_food(b@)
                    &&& only_at(
                        b@,
                        TileState::SnakeOccupied,
                        center(width as int, length as int),
                    )
                    &&& exists|k: int|
                        0 <= k < free_cells(initial_grid(width as int, length as int)).len() && b@
                            == #[trigger] spawn_at(initial_grid(width as int, length as int), k)
                },
                Err(e) => e == if length < 3 || width < 3 {
                    GameError::ConstructionError
                } else {
                    GameError::FoodSpawnError
                },
            },
    {
        let mut b = GameBoard::lay_out(length, width)?;
        proof {
            lemma_initial_grid(width as int, length as int);
        }
        b.spawn_food()?;
        proof {
            let k = choose|k: int|
                0 <= k < free_cells(initial_grid(width as int, length as int)).len() && b@
                    == #[trigger] spawn_at(initial_grid(width as int, length as int), k);
            lemma_spawn_at(initial_grid(width as int, length as int), k);
        }
        Ok(b)
    }

    /// As `new`, but the food goes on the free tile that `pick` selects: the
    /// free tiles are counted in reading order and `pick` is taken modulo
    /// their number.
    pub fn new_with(length: usize, width: usize, pick: usize) -> (r: Result<GameBoard, GameError>)
        ensures
            r is Ok <==> has_room(width as int, length as int),
            match r {
                Ok(b) => {
                    &&& b.wf()
                    &&& has_one_food(b@)
                    &&& only_at(
                        b@,
                        TileState::SnakeOccupied,
                        center(width as int, length as int),
                    )
                    &&& b@ == spawn_at(
                        initial_grid(width as int, length as int),
                        pick as int % free_cells(
                            initial_grid(width as int, length as int),
                        ).len() as int,
                    )
                },
                Err(e) => e == if length < 3 || width < 3 {
                    GameError::ConstructionError
                } else {
                    GameError::FoodSpawnError
                },
            },
    {
        let mut b = GameBoard::lay_out(length, width)?;
        proof {
            lemma_initial_grid(width as int, length as int);
        }
        b.spawn_food_with(pick)?;
        proof {
            let n = free_cells(initial_grid(width as int, length as int)).len() as int;
            lemma_spawn_at(initial_grid(width as int, length as int), pick as int % n);
        }
        Ok(b)
    }

    /// The free tiles of the board in reading order: row by row from the
    /// top, each row from left to right.
    pub fn free_tiles(&self) -> (pool: Vec<Tile>)
        requires
            self.wf(),
        ensures
            tiles_of(pool@, free_cells(self@)),
    {
        let mut pool: Vec<Tile> = Vec::new();
        let mut y: usize = 0;
        while y < self.length
            invariant
                y <= self.length,
                self.coherent(),
                tiles_of(pool@, free_in_rows(self@, y as int)),
            decreases self.length - y,
        {
            let mut x: usize = 0;
            while x < self.width
                invariant
                    x <= self.width,
                    y < self.length,
                    self.coherent(),
                    tiles_of(
                        pool@,
                        free_in_rows(self@, y as int) + free_in_row(self@[y as int], y as int, x as int),
                    ),
                decreases self.width - x,
            {
                let tile = self.board[y][x];
                let ghost above = free_in_rows(self@, y as int);
                let ghost left = free_in_row(self@[y as int], y as int, x as int);
                if tile.state == TileState::Free {
                    pool.push(tile);
                    assert(above + left.push(Cell { x: x as int, y: y as int }) =~= (above
                        + left).push(Cell { x: x as int, y: y as int }));
                }
                x += 1;
            }
            y += 1;
        }
        pool
    }

    /// Places food on the free tile that `pick` selects: the free tiles are
    /// counted in reading order and `pick` is taken modulo their number.
    /// Fails, and changes nothing, when no tile is free.
    pub fn spawn_food_with(&mut self, pick: usize) -> (r: Result<(), GameError>)
        requires
            old(self).wf(),
        ensures
            final(self).wf(),
            r is Ok <==> free_cells(old(self)@).len() > 0,
            match r {
                Ok(_) => final(self)@ == spawn_at(
                    old(self)@,
                    pick as int % free_cells(old(self)@).len() as int,
                ),
                Err(e) => e == GameError::FoodSpawnError && final(self)@ == old(self)@,
            },
    {
        let pool = self.free_tiles();
        if pool.len() == 0 {
            return Err(GameError::FoodSpawnError);
        }
        let tile = pool[pick % pool.len()];
        proof {
            lemma_spawn_at(self@, pick as int % pool.len() as int);
        }
        self.set_state(
            Position { x: tile.x_coordinate, y: tile.y_coordinate },
            TileState::FoodOccupied,
        );
        Ok(())
    }

    /// Places food on one of the free tiles, chosen at random. Fails, and
    /// changes nothing, when no tile is free.
    pub fn spawn_food(&mut self) -> (r: Result<(), GameError>)
        requires
            old(self).wf(),
        ensures
            final(self).wf(),
            r is Ok <==> free_cells(old(self)@).len() > 0,
            match r {
                Ok(_) => exists|k: int|
                    0 <= k < free_cells(old(self)@).len() && final(self)@ == #[trigger] spawn_at(
                        old(self)@,
                        k,
                    ),
                Err(e) => e == GameError::FoodSpawnError && final(self)@ == old(self)@,
            },
    {
        let pool = self.free_tiles();
        match choose_tile(&pool) {
            Some(tile) => {
                let ghost k = choose|k: int| 0 <= k < pool@.len() && pool@[k] == tile;
                proof {
                    lemma_spawn_at(self@, k);
                }
                self.set_state(
                    Position { x: tile.x_coordinate, y: tile.y_coordinate },
                    TileState::FoodOccupied,
                );
                Ok(())
            },
            None => Err(GameError::FoodSpawnError),
        }
    }

    /// The number of rows.
    pub fn length(&self) -> (n: usize)
        requires
            self.wf(),
        ensures
            n == self@.len(),
    {
        self.length
    }

    /// The number of columns.
    pub fn width(&self) -> (n: usize)
        requires
            self.wf(),
        ensures
            n == grid_width(self@),
    {
        self.width
    }

    /// The position of the center tile, where the snake starts: column
    /// `width / 2` of row `length / 2`.
    pub fn center(&self) -> (p: Position)
        requires
            self.wf(),
        ensures
            p.cell() == center(grid_width(self@) as int, self@.len() as int),
    {
        Position { x: self.width / 2, y: self.length / 2 }
    }

    /// The state of the tile in column `x` of row `y`, or `None` where the
    /// board has no such tile.
    pub fn get_state(&self, x: usize, y: usize) -> (s: Option<TileState>)
        requires
            self.wf(),
        ensures
            s == if in_grid(self@, Cell { x: x as int, y: y as int }) {
                Some(state_at(self@, Cell { x: x as int, y: y as int }))
            } else {
                None
            },
    {
        if y < self.length && x < self.width {
            Some(self.board[y][x].state)
        } else {
            None
        }
    }
}

} // verus!
