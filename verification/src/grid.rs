//! The mathematical model of the board: a grid of tile states.

use vstd::prelude::*;
use crate::tile::TileState;

verus! {

/// A cell of the grid: column `x`, row `y`. Coordinates are mathematical
/// integers, so a cell may lie outside every grid.
pub struct Cell {
    pub x: int,
    pub y: int,
}

/// Rows of tile states; `g[y][x]` is the state of the cell `(x, y)`.
pub type Grid = Seq<Seq<TileState>>;

/// The cell lies on the grid.
pub open spec fn in_grid(g: Grid, c: Cell) -> bool {
    0 <= c.y < g.len() && 0 <= c.x < g[c.y].len()
}

/// The state of a cell of the grid.
pub open spec fn state_at(g: Grid, c: Cell) -> TileState
    recommends
        in_grid(g, c),
{
    g[c.y][c.x]
}

/// The grid with the state of one cell replaced. A cell outside the grid
/// changes nothing.
pub open spec fn grid_put(g: Grid, c: Cell, s: TileState) -> Grid {
    if in_grid(g, c) {
        g.update(c.y, g[c.y].update(c.x, s))
    } else {
        g
    }
}

/// The grid after the snake leaves a cell: a cell that the snake occupies
/// becomes free, any other cell stays as it is.
pub open spec fn grid_release(g: Grid, c: Cell) -> Grid {
    if in_grid(g, c) && state_at(g, c) == TileState::SnakeOccupied {
        grid_put(g, c, TileState::Free)
    } else {
        g
    }
}

/// The number of columns: the length of the first row.
pub open spec fn grid_width(g: Grid) -> nat {
    if g.len() > 0 {
        g[0].len()
    } else {
        0
    }
}

/// Every row has `width` cells and there are `length` rows.
pub open spec fn is_rectangle(g: Grid, width: int, length: int) -> bool {
    &&& g.len() == length
    &&& forall|y: int| 0 <= y < length ==> (#[trigger] g[y]).len() == width
}

/// The cell lies on the outermost ring of a `width` by `length` rectangle.
pub open spec fn on_ring(width: int, length: int, c: Cell) -> bool {
    &&& 0 <= c.x < width
    &&& 0 <= c.y < length
    &&& (c.x == 0 || c.y == 0 || c.x == width - 1 || c.y == length - 1)
}

/// The cell where the snake starts.
pub open spec fn center(width: int, length: int) -> Cell {
    Cell { x: width / 2, y: length / 2 }
}

/// A grid that a game can be played on: a rectangle with at least three rows
/// and three columns whose outermost ring, and no other cell, is death zone.
pub open spec fn valid_grid(g: Grid) -> bool {
    &&& g.len() >= 3
    &&& grid_width(g) >= 3
    &&& is_rectangle(g, grid_width(g) as int, g.len() as int)
    &&& forall|c: Cell|
        in_grid(g, c) ==> (#[trigger] state_at(g, c) == TileState::BorderDeathZone <==> on_ring(
            grid_width(g) as int,
            g.len() as int,
            c,
        ))
}

/// The grid in which every cell of the ring of a `width` by `length`
/// rectangle is death zone and every other cell is as in `g`.
pub open spec fn with_ring(g: Grid, width: int, length: int) -> Grid {
    Seq::new(
        length as nat,
        |y: int|
            Seq::new(
                width as nat,
                |x: int|
                    if on_ring(width, length, Cell { x, y }) {
                        TileState::BorderDeathZone
                    } else {
                        g[y][x]
                    },
            ),
    )
}

/// The state of a cell before any food is placed: death zone on the ring,
/// the snake on the center, free elsewhere.
pub open spec fn initial_state(width: int, length: int, c: Cell) -> TileState {
    if on_ring(width, length, c) {
        TileState::BorderDeathZone
    } else if c == center(width, length) {
        TileState::SnakeOccupied
    } else {
        TileState::Free
    }
}

/// The grid of a new board before any food is placed.
pub open spec fn initial_grid(width: int, length: int) -> Grid {
    Seq::new(
        length as nat,
        |y: int| Seq::new(width as nat, |x: int| initial_state(width, length, Cell { x, y })),
    )
}

/// The sides leave room for the ring, the snake and the food: each is at
/// least 3, and not both are 3.
pub open spec fn has_room(width: int, length: int) -> bool {
    width >= 3 && length >= 3 && !(width == 3 && length == 3)
}

/// The free cells among the first `n` cells of row `y`, from left to right.
pub open spec fn free_in_row(row: Seq<TileState>, y: int, n: int) -> Seq<Cell>
    decreases n,
{
    if n <= 0 {
        Seq::empty()
    } else if row[n - 1] == TileState::Free {
        free_in_row(row, y, n - 1).push(Cell { x: n - 1, y })
    } else {
        free_in_row(row, y, n - 1)
    }
}

/// The free cells of the first `m` rows: row by row from the top, each row
/// from left to right.
pub open spec fn free_in_rows(g: Grid, m: int) -> Seq<Cell>
    decreases m,
{
    if m <= 0 {
        Seq::empty()
    } else {
        free_in_rows(g, m - 1) + free_in_row(g[m - 1], m - 1, g[m - 1].len() as int)
    }
}

/// All free cells of the grid in reading order.
pub open spec fn free_cells(g: Grid) -> Seq<Cell> {
    free_in_rows(g, g.len() as int)
}

/// The cell `a` comes before the cell `b` in reading order: it lies in a
/// row above, or in the same row further left.
pub open spec fn reads_before(a: Cell, b: Cell) -> bool {
    a.y < b.y || (a.y == b.y && a.x < b.x)
}

/// The grid after food is placed on the `k`-th free cell.
pub open spec fn spawn_at(g: Grid, k: int) -> Grid
    recommends
        0 <= k < free_cells(g).len(),
{
    grid_put(g, free_cells(g)[k], TileState::FoodOccupied)
}

/// The state `s` is found on the cell `c` and on no other cell of the grid.
pub open spec fn only_at(g: Grid, s: TileState, c: Cell) -> bool {
    &&& in_grid(g, c)
    &&& state_at(g, c) == s
    &&& forall|d: Cell| in_grid(g, d) && #[trigger] state_at(g, d) == s ==> d == c
}

/// The food lies on `c` and nowhere else.
pub open spec fn only_food_at(g: Grid, c: Cell) -> bool {
    only_at(g, TileState::FoodOccupied, c)
}

/// Exactly one cell of the grid holds food.
pub open spec fn has_one_food(g: Grid) -> bool {
    exists|c: Cell| only_food_at(g, c)
}

/// No cell of the grid holds food.
pub open spec fn has_no_food(g: Grid) -> bool {
    forall|d: Cell| in_grid(g, d) ==> #[trigger] state_at(g, d) != TileState::FoodOccupied
}

/// Replacing the state of one cell keeps the shape of the grid and the state
/// of every other cell.
pub proof fn lemma_grid_put(g: Grid, p: Cell, s: TileState)
    ensures
        grid_put(g, p, s).len() == g.len(),
        forall|y: int| 0 <= y < g.len() ==> (#[trigger] grid_put(g, p, s)[y]).len() == g[y].len(),
        forall|c: Cell| #[trigger] in_grid(grid_put(g, p, s), c) == in_grid(g, c),
        forall|c: Cell|
            in_grid(g, c) ==> #[trigger] state_at(grid_put(g, p, s), c) == if c == p {
                s
            } else {
                state_at(g, c)
            },
{
}

/// Giving a cell off the ring a state other than death zone leaves a grid
/// that can be played on.
pub proof fn lemma_put_off_ring(g: Grid, p: Cell, s: TileState)
    requires
        valid_grid(g),
        in_grid(g, p),
        !on_ring(grid_width(g) as int, g.len() as int, p),
        s != TileState::BorderDeathZone,
    ensures
        valid_grid(grid_put(g, p, s)),
{
    let h = grid_put(g, p, s);
    assert forall|d: Cell| in_grid(h, d) implies (#[trigger] state_at(h, d)
        == TileState::BorderDeathZone <==> on_ring(grid_width(h) as int, h.len() as int, d)) by {
        assert(state_at(g, d) == TileState::BorderDeathZone <==> on_ring(
            grid_width(g) as int,
            g.len() as int,
            d,
        ));
    }
}

/// Freeing the cell that the snake leaves keeps the shape of the grid and
/// the state of every other cell.
pub proof fn lemma_grid_release(g: Grid, p: Cell)
    ensures
        grid_release(g, p).len() == g.len(),
        grid_width(grid_release(g, p)) == grid_width(g),
        forall|c: Cell| #[trigger] in_grid(grid_release(g, p), c) == in_grid(g, c),
        forall|c: Cell|
            in_grid(g, c) ==> #[trigger] state_at(grid_release(g, p), c) == if c == p && state_at(
                g,
                c,
            ) == TileState::SnakeOccupied {
                TileState::Free
            } else {
                state_at(g, c)
            },
        valid_grid(g) ==> valid_grid(grid_release(g, p)),
{
    lemma_grid_put(g, p, TileState::Free);
    if valid_grid(g) && in_grid(g, p) && state_at(g, p) == TileState::SnakeOccupied {
        lemma_put_off_ring(g, p, TileState::Free);
    }
}

/// The free cells of the first `n` cells of a row are exactly its cells left
/// of `n` that are free.
proof fn lemma_free_in_row(row: Seq<TileState>, y: int, n: int)
    requires
        0 <= n <= row.len(),
    ensures
        forall|i: int|
            0 <= i < free_in_row(row, y, n).len() ==> {
                let c = #[trigger] free_in_row(row, y, n)[i];
                c.y == y && 0 <= c.x < n && row[c.x] == TileState::Free
            },
        forall|x: int|
            0 <= x < n && #[trigger] row[x] == TileState::Free ==> free_in_row(row, y, n).contains(
                Cell { x, y },
            ),
    decreases n,
{
    if n > 0 {
        lemma_free_in_row(row, y, n - 1);
        let before = free_in_row(row, y, n - 1);
        let now = free_in_row(row, y, n);
        assert forall|x: int| 0 <= x < n && #[trigger] row[x] == TileState::Free implies now.contains(
            Cell { x, y },
        ) by {
            if x < n - 1 {
                let i = choose|i: int| 0 <= i < before.len() && before[i] == Cell { x, y };
                assert(now[i] == Cell { x, y });
            } else {
                assert(now[now.len() - 1] == Cell { x, y });
            }
        }
    }
}

/// The free cells of the first `m` rows are exactly the cells of those rows
/// that are free.
proof fn lemma_free_in_rows(g: Grid, m: int)
    requires
        0 <= m <= g.len(),
    ensures
        forall|i: int|
            0 <= i < free_in_rows(g, m).len() ==> {
                let c = #[trigger] free_in_rows(g, m)[i];
                0 <= c.y < m && in_grid(g, c) && state_at(g, c) == TileState::Free
            },
        forall|c: Cell|
            0 <= c.y < m && in_grid(g, c) && #[trigger] state_at(g, c) == TileState::Free
                ==> free_in_rows(g, m).contains(c),
    decreases m,
{
    if m > 0 {
        lemma_free_in_rows(g, m - 1);
        let row = g[m - 1];
        lemma_free_in_row(row, m - 1, row.len() as int);
        let above = free_in_rows(g, m - 1);
        let last = free_in_row(row, m - 1, row.len() as int);
        let now = free_in_rows(g, m);
        assert forall|i: int| 0 <= i < now.len() implies ({
            let c = #[trigger] now[i];
            0 <= c.y < m && in_grid(g, c) && state_at(g, c) == TileState::Free
        }) by {}
        assert forall|c: Cell|
            0 <= c.y < m && in_grid(g, c) && #[trigger] state_at(g, c)
                == TileState::Free implies now.contains(c) by {
            if c.y < m - 1 {
                let i = choose|i: int| 0 <= i < above.len() && above[i] == c;
                assert(now[i] == c);
            } else {
                let i = choose|i: int| 0 <= i < last.len() && last[i] == Cell { x: c.x, y: m - 1 };
                assert(now[above.len() + i] == c);
            }
        }
    }
}

/// The free cells of a grid are exactly its cells that are free: each entry
/// of `free_cells` is a free cell of the grid, and each free cell of the grid
/// is an entry.
pub proof fn lemma_free_cells(g: Grid)
    ensures
        forall|i: int|
            0 <= i < free_cells(g).len() ==> {
                let c = #[trigger] free_cells(g)[i];
                in_grid(g, c) && state_at(g, c) == TileState::Free
            },
        forall|c: Cell|
            in_grid(g, c) && #[trigger] state_at(g, c) == TileState::Free ==> free_cells(
                g,
            ).contains(c),
{
    lemma_free_in_rows(g, g.len() as int);
}

/// The free cells of the first `n` cells of a row go from left to right.
proof fn lemma_free_in_row_ordered(row: Seq<TileState>, y: int, n: int)
    requires
        0 <= n <= row.len(),
    ensures
        forall|i: int, j: int|
            0 <= i < j < free_in_row(row, y, n).len() ==> reads_before(
                #[trigger] free_in_row(row, y, n)[i],
                #[trigger] free_in_row(row, y, n)[j],
            ),
    decreases n,
{
    if n > 0 {
        lemma_free_in_row_ordered(row, y, n - 1);
        lemma_free_in_row(row, y, n - 1);
    }
}

/// The free cells of the first `m` rows go in reading order.
proof fn lemma_free_in_rows_ordered(g: Grid, m: int)
    requires
        0 <= m <= g.len(),
    ensures
        forall|i: int, j: int|
            0 <= i < j < free_in_rows(g, m).len() ==> reads_before(
                #[trigger] free_in_rows(g, m)[i],
                #[trigger] free_in_rows(g, m)[j],
            ),
    decreases m,
{
    if m > 0 {
        lemma_free_in_rows_ordered(g, m - 1);
        lemma_free_in_rows(g, m - 1);
        let row = g[m - 1];
        lemma_free_in_row_ordered(row, m - 1, row.len() as int);
        lemma_free_in_row(row, m - 1, row.len() as int);
    }
}

/// The free cells of a grid come in reading order: of two entries of
/// `free_cells`, the earlier one lies in a row above the later one, or in the
/// same row further left. So no cell occurs twice.
pub proof fn lemma_free_cells_in_reading_order(g: Grid)
    ensures
        forall|i: int, j: int|
            0 <= i < j < free_cells(g).len() ==> reads_before(
                #[trigger] free_cells(g)[i],
                #[trigger] free_cells(g)[j],
            ),
{
    lemma_free_in_rows_ordered(g, g.len() as int);
}

/// The grid of a new board can be played on, holds no food, and holds the
/// snake on its center only; it has a free cell exactly when its sides leave
/// room for one.
pub proof fn lemma_initial_grid(width: int, length: int)
    requires
        width >= 3,
        length >= 3,
    ensures
        valid_grid(initial_grid(width, length)),
        has_no_food(initial_grid(width, length)),
        only_at(initial_grid(width, length), TileState::SnakeOccupied, center(width, length)),
        free_cells(initial_grid(width, length)).len() > 0 <==> has_room(width, length),
{
    let g = initial_grid(width, length);
    lemma_free_cells(g);
    if has_room(width, length) {
        // the cell next to the top left corner is free
        assert(state_at(g, Cell { x: 1, y: 1 }) == TileState::Free);
    } else if free_cells(g).len() > 0 {
        // the one cell inside the ring is the center, so none is free
        let c = free_cells(g)[0];
        assert(on_ring(width, length, c) || c == center(width, length));
    }
}

/// Food placed on the `k`-th free cell of a grid that can be played on leaves
/// a grid that can be played on. If the grid held no food, the food now
/// lies on that cell and nowhere else; and where the snake was found on one
/// cell only, it still is.
pub proof fn lemma_spawn_at(g: Grid, k: int)
    requires
        valid_grid(g),
        0 <= k < free_cells(g).len(),
    ensures
        in_grid(g, free_cells(g)[k]),
        state_at(g, free_cells(g)[k]) == TileState::Free,
        valid_grid(spawn_at(g, k)),
        has_no_food(g) ==> only_food_at(spawn_at(g, k), free_cells(g)[k]),
        forall|c: Cell|
            only_at(g, TileState::SnakeOccupied, c) ==> #[trigger] only_at(
                spawn_at(g, k),
                TileState::SnakeOccupied,
                c,
            ),
{
    lemma_free_cells(g);
    let c = free_cells(g)[k];
    lemma_grid_put(g, c, TileState::FoodOccupied);
    lemma_put_off_ring(g, c, TileState::FoodOccupied);
    let h = spawn_at(g, k);
    if has_no_food(g) {
        assert forall|d: Cell|
            in_grid(h, d) && #[trigger] state_at(h, d) == TileState::FoodOccupied implies d
            == c by {}
    }
    assert forall|e: Cell| only_at(g, TileState::SnakeOccupied, e) implies #[trigger] only_at(
        h,
        TileState::SnakeOccupied,
        e,
    ) by {
        assert forall|d: Cell|
            in_grid(h, d) && #[trigger] state_at(h, d) == TileState::SnakeOccupied implies d
            == e by {}
    }
}

} // verus!
