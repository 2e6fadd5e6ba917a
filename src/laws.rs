//! Facts about the game that hold for every board, proved from the model.
use vstd::prelude::*;

use crate::grid::{alive_grid, flip, is_rect, lit, live_neighbours, step};
use crate::engine::{shift, GameOfLife};

verus! {

/// A 2 by 2 block of live cells, with every other cell dead, is a still life:
/// the next generation is the same board.
pub proof fn lemma_block_is_still(a: Seq<Seq<bool>>, rows: int, cols: int, r: int, c: int)
    requires
        is_rect(a, rows, cols),
        0 <= r && r + 1 < rows,
        0 <= c && c + 1 < cols,
        forall|i: int, j: int|
            0 <= i < rows && 0 <= j < cols ==> #[trigger] a[i][j] == (r <= i <= r + 1 && c <= j
                <= c + 1),
    ensures
        step(a) == a,
{
    assert forall|i: int| 0 <= i < rows implies #[trigger] step(a)[i] =~= a[i] by {
        assert(a[i].len() == cols);
    }
    assert(step(a) =~= a);
}

/// A row of three live cells away from the edges turns into a column of three
/// and back: two generations give the board that was started from.
pub proof fn lemma_blinker_period_two(
    h: Seq<Seq<bool>>,
    v: Seq<Seq<bool>>,
    rows: int,
    cols: int,
    r: int,
    c: int,
)
    requires
        is_rect(h, rows, cols),
        is_rect(v, rows, cols),
        1 <= r && r + 1 < rows,
        1 <= c && c + 1 < cols,
        forall|i: int, j: int|
            0 <= i < rows && 0 <= j < cols ==> #[trigger] h[i][j] == (i == r && c - 1 <= j <= c
                + 1),
        forall|i: int, j: int|
            0 <= i < rows && 0 <= j < cols ==> #[trigger] v[i][j] == (j == c && r - 1 <= i <= r
                + 1),
    ensures
        step(h) == v,
        step(v) == h,
        step(step(h)) == h,
{
    assert forall|i: int| 0 <= i < rows implies #[trigger] step(h)[i] =~= v[i] by {
        assert(h[i].len() == cols);
        assert(v[i].len() == cols);
    }
    assert(step(h) =~= v);
    assert forall|i: int| 0 <= i < rows implies #[trigger] step(v)[i] =~= h[i] by {
        assert(h[i].len() == cols);
        assert(v[i].len() == cols);
    }
    assert(step(v) =~= h);
}

/// The stored count of the corner cell `(0, 0)` covers its three neighbours
/// on the board and nothing beyond the edges.
pub proof fn lemma_corner_count(g: &GameOfLife)
    requires
        g.wf(),
    ensures
        g@[0][0].neighbours_count == lit(alive_grid(g@), 0, 1) + lit(alive_grid(g@), 1, 0) + lit(
            alive_grid(g@),
            1,
            1,
        ),
{
    let a = alive_grid(g@);
    assert(g@[0].len() == g.cols());
    assert(g@[0][0].neighbours_count == live_neighbours(a, 0, 0));
}

/// Toggling a cell twice in a row gives back the board, counts included.
pub proof fn lemma_toggle_twice(g0: &GameOfLife, g1: &GameOfLife, g2: &GameOfLife, x: int, y: int)
    requires
        g0.wf(),
        g1.wf(),
        g2.wf(),
        g1.rows() == g0.rows() && g1.cols() == g0.cols(),
        g2.rows() == g0.rows() && g2.cols() == g0.cols(),
        g0.in_bounds(x, y),
        alive_grid(g1@) == flip(alive_grid(g0@), x, y),
        alive_grid(g2@) == flip(alive_grid(g1@), x, y),
    ensures
        g2@ == g0@,
{
    let a0 = alive_grid(g0@);
    let a2 = alive_grid(g2@);
    let rows = g0.rows();
    let cols = g0.cols();
    assert(a0[x].len() == cols);
    assert(a2 =~~= a0) by {
        assert forall|i: int| 0 <= i < rows implies #[trigger] a2[i] =~= a0[i] by {
            assert(g0@[i].len() == cols);
            assert(g1@[i].len() == cols);
            assert(g2@[i].len() == cols);
        }
    }
    assert forall|i: int| 0 <= i < rows implies #[trigger] g2@[i] =~= g0@[i] by {
        assert(g0@[i].len() == cols);
        assert(g2@[i].len() == cols);
        assert forall|j: int| 0 <= j < cols implies #[trigger] g2@[i][j] == g0@[i][j] by {
            assert(a2[i][j] == g2@[i][j].alive);
            assert(a0[i][j] == g0@[i][j].alive);
            assert(g2@[i][j].neighbours_count == live_neighbours(a2, i, j));
            assert(g0@[i][j].neighbours_count == live_neighbours(a0, i, j));
        }
    }
    assert(g2@ =~= g0@);
}

/// A change of the counts around the corner `(0, 0)` reaches exactly the
/// three cells `(0, 1)`, `(1, 0)` and `(1, 1)` of the board, by one each.
pub proof fn lemma_corner_shift(add: bool)
    ensures
        forall|i: int, j: int|
            0 <= i && 0 <= j ==> (#[trigger] shift(0, 0, i, j, add) != 0 <==> ((i == 0 && j == 1)
                || (i == 1 && j == 0) || (i == 1 && j == 1))),
        forall|i: int, j: int|
            #[trigger] shift(0, 0, i, j, add) == 0 || shift(0, 0, i, j, add) == (if add {
                1int
            } else {
                -1int
            }),
{
}

/// Adding to the counts around `(x, y)` and then taking from them, or the
/// other way round, leaves every count as it was.
pub proof fn lemma_shift_cancels(x: int, y: int, add: bool)
    ensures
        forall|i: int, j: int| #[trigger] shift(x, y, i, j, add) + shift(x, y, i, j, !add) == 0,
{
}

} // verus!
