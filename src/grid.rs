//! The mathematical model of a board: a rectangle of cells, the live
//! neighbours of each cell, and the rule that gives the next generation.
use vstd::prelude::*;

use crate::cell::CellState;

verus! {

/// The cells of a board held as rows.
pub open spec fn cells(board: Vec<Vec<CellState>>) -> Seq<Seq<CellState>> {
    board@.map_values(|row: Vec<CellState>| row@)
}

/// Every row of `g` has `cols` cells, and there are `rows` rows.
pub open spec fn is_rect<T>(g: Seq<Seq<T>>, rows: int, cols: int) -> bool {
    &&& g.len() == rows
    &&& forall|i: int| 0 <= i < rows ==> #[trigger] g[i].len() == cols
}

/// Whether each cell is alive.
pub open spec fn alive_grid(g: Seq<Seq<CellState>>) -> Seq<Seq<bool>> {
    Seq::new(g.len(), |i: int| Seq::new(g[i].len(), |j: int| g[i][j].alive))
}

/// 1 where `(i, j)` lies on the board and is alive, 0 elsewhere: the board
/// has hard edges, and nothing outside it is alive.
pub open spec fn lit(a: Seq<Seq<bool>>, i: int, j: int) -> int {
    if 0 <= i < a.len() && 0 <= j < a[i].len() && a[i][j] {
        1
    } else {
        0
    }
}

/// The number of live cells among the eight around `(i, j)`.
pub open spec fn live_neighbours(a: Seq<Seq<bool>>, i: int, j: int) -> int {
    lit(a, i - 1, j - 1) + lit(a, i - 1, j) + lit(a, i - 1, j + 1) + lit(a, i, j - 1) + lit(
        a,
        i,
        j + 1,
    ) + lit(a, i + 1, j - 1) + lit(a, i + 1, j) + lit(a, i + 1, j + 1)
}

/// `(i, j)` is one of the eight cells around `(x, y)`.
pub open spec fn is_neighbour(x: int, y: int, i: int, j: int) -> bool {
    &&& x - 1 <= i <= x + 1
    &&& y - 1 <= j <= y + 1
    &&& !(i == x && j == y)
}

/// Every cell's stored count is the number of its live neighbours.
pub open spec fn counts_exact(g: Seq<Seq<CellState>>) -> bool {
    forall|i: int, j: int|
        0 <= i < g.len() && 0 <= j < g[i].len() ==> #[trigger] g[i][j].neighbours_count
            == live_neighbours(alive_grid(g), i, j)
}

/// Whether `(i, j)` is alive in the generation after `a`: a live cell with
/// two or three live neighbours survives, a dead one with exactly three is born.
pub open spec fn next_alive(a: Seq<Seq<bool>>, i: int, j: int) -> bool {
    let n = live_neighbours(a, i, j);
    if a[i][j] {
        n == 2 || n == 3
    } else {
        n == 3
    }
}

/// The generation after `a`.
pub open spec fn step(a: Seq<Seq<bool>>) -> Seq<Seq<bool>> {
    Seq::new(a.len(), |i: int| Seq::new(a[i].len(), |j: int| next_alive(a, i, j)))
}

/// `a` with the cell `(x, y)` flipped.
pub open spec fn flip(a: Seq<Seq<bool>>, x: int, y: int) -> Seq<Seq<bool>> {
    a.update(x, a[x].update(y, !a[x][y]))
}

/// Every live cell of `a` lies in its first `rows` rows and `cols` columns.
pub open spec fn alive_within(a: Seq<Seq<bool>>, rows: int, cols: int) -> bool {
    forall|i: int, j: int|
        0 <= i < a.len() && 0 <= j < a[i].len() && #[trigger] a[i][j] ==> i < rows && j < cols
}

/// The number of live cells in a row.
pub open spec fn row_population(s: Seq<bool>) -> int
    decreases s.len(),
{
    if s.len() == 0 {
        0
    } else {
        row_population(s.drop_last()) + if s.last() {
            1int
        } else {
            0int
        }
    }
}

/// The number of live cells on a board.
pub open spec fn population(a: Seq<Seq<bool>>) -> int
    decreases a.len(),
{
    if a.len() == 0 {
        0
    } else {
        population(a.drop_last()) + row_population(a.last())
    }
}

/// Flipping one cell changes the live count of each of its neighbours by one
/// and leaves every other count alone.
pub proof fn lemma_flip_neighbours(a: Seq<Seq<bool>>, rows: int, cols: int, x: int, y: int)
    requires
        is_rect(a, rows, cols),
        0 <= x < rows,
        0 <= y < cols,
    ensures
        is_rect(flip(a, x, y), rows, cols),
        forall|i: int, j: int|
            #[trigger] live_neighbours(flip(a, x, y), i, j) == live_neighbours(a, i, j) + if is_neighbour(
                x,
                y,
                i,
                j,
            ) {
                if a[x][y] {
                    -1int
                } else {
                    1int
                }
            } else {
                0int
            },
{
    let b = flip(a, x, y);
    assert forall|i: int| 0 <= i < rows implies #[trigger] b[i].len() == cols by {
        if i == x {
        } else {
        }
    }
    assert forall|p: int, q: int|
        #[trigger] lit(b, p, q) == lit(a, p, q) + if p == x && q == y {
            if a[x][y] {
                -1int
            } else {
                1int
            }
        } else {
            0int
        } by {
        if 0 <= p < rows && 0 <= q < cols {
            if p == x {
            }
        }
    }
}

/// Setting a dead cell alive adds one to the population of its row.
pub proof fn lemma_row_population_set(s: Seq<bool>, y: int)
    requires
        0 <= y < s.len(),
        !s[y],
    ensures
        row_population(s.update(y, true)) == row_population(s) + 1,
    decreases s.len(),
{
    let t = s.update(y, true);
    if y == s.len() - 1 {
        assert(t.drop_last() =~= s.drop_last());
    } else {
        lemma_row_population_set(s.drop_last(), y);
        assert(t.drop_last() =~= s.drop_last().update(y, true));
    }
}

/// Setting a dead cell alive adds one to the population of the board.
pub proof fn lemma_population_set(a: Seq<Seq<bool>>, x: int, y: int)
    requires
        0 <= x < a.len(),
        0 <= y < a[x].len(),
        !a[x][y],
    ensures
        population(flip(a, x, y)) == population(a) + 1,
    decreases a.len(),
{
    let b = flip(a, x, y);
    if x == a.len() - 1 {
        assert(b.drop_last() =~= a.drop_last());
        lemma_row_population_set(a[x], y);
    } else {
        lemma_population_set(a.drop_last(), x, y);
        assert(b.drop_last() =~= flip(a.drop_last(), x, y));
    }
}

/// A board with no live cell has population zero.
pub proof fn lemma_population_empty(a: Seq<Seq<bool>>)
    requires
        forall|i: int, j: int| 0 <= i < a.len() && 0 <= j < a[i].len() ==> !#[trigger] a[i][j],
    ensures
        population(a) == 0,
    decreases a.len(),
{
    if a.len() > 0 {
        lemma_population_empty(a.drop_last());
        lemma_row_population_empty(a.last());
    }
}

/// A row with no live cell has population zero.
pub proof fn lemma_row_population_empty(s: Seq<bool>)
    requires
        forall|j: int| 0 <= j < s.len() ==> !#[trigger] s[j],
    ensures
        row_population(s) == 0,
    decreases s.len(),
{
    if s.len() > 0 {
        lemma_row_population_empty(s.drop_last());
    }
}

} // verus!
