//! The engine: the current generation, a scratch board for the next one, and
//! the operations that change them while every stored count stays exact.
use vstd::prelude::*;

use crate::cell::CellState;
use crate::grid::{
    alive_grid, alive_within, cells, counts_exact, flip, is_neighbour, is_rect,
    lemma_flip_neighbours, lemma_population_empty, lemma_population_set, live_neighbours,
    next_alive, population, step,
};
use crate::seed::{random_below, seed_target, target_population};


verus! {

/// How many rejected draws seeding allows for each cell it may place on.
const SEED_MISSES_PER_CELL: u64 = 64;

/// What can go wrong when the engine is asked for something.
#[derive(Debug, Clone, Copy, PartialEq, Eq, Structural)]
pub enum LifeError {
    /// A coordinate lies outside the board.
    OutOfBounds,
    /// Seeding gave up before it had placed every live cell.
    DegenerateSeed,
}

/// The change that a flip of `(x, y)` makes to the count of `(i, j)`.
pub open spec fn shift(x: int, y: int, i: int, j: int, add: bool) -> int {
    if is_neighbour(x, y, i, j) {
        if add {
            1
        } else {
            -1
        }
    } else {
        0
    }
}

/// No count on the board is at either end of `i32`.
pub open spec fn counts_in_range(g: Seq<Seq<CellState>>) -> bool {
    forall|i: int, j: int|
        0 <= i < g.len() && 0 <= j < g[i].len() ==> i32::MIN < #[trigger] g[i][j].neighbours_count
            < i32::MAX
}

/// An exact count lies between 0 and 8.
proof fn lemma_exact_in_range(g: Seq<Seq<CellState>>)
    requires
        counts_exact(g),
    ensures
        counts_in_range(g),
        forall|i: int, j: int|
            0 <= i < g.len() && 0 <= j < g[i].len() ==> 0 <= #[trigger] g[i][j].neighbours_count
                <= 8,
{
    assert forall|i: int, j: int| 0 <= i < g.len() && 0 <= j < g[i].len() implies 0
        <= #[trigger] g[i][j].neighbours_count <= 8 by {
        let a = alive_grid(g);
        assert(g[i][j].neighbours_count == live_neighbours(a, i, j));
    }
}

/// The game: the board that callers see, and the scratch board that the next
/// generation is built in.
pub struct GameOfLife {
    row_count: i32,
    col_count: i32,
    buffer: Vec<Vec<CellState>>,
    states: Vec<Vec<CellState>>,
}

impl View for GameOfLife {
    type V = Seq<Seq<CellState>>;

    /// The cells of the current generation, as rows.
    closed spec fn view(&self) -> Seq<Seq<CellState>> {
        cells(self.states)
    }
}

/// A `row_count` by `col_count` board of dead cells with zero counts.
fn blank_grid(row_count: i32, col_count: i32) -> (g: Vec<Vec<CellState>>)
    requires
        0 < row_count,
        0 < col_count,
    ensures
        is_rect(cells(g), row_count as int, col_count as int),
        forall|i: int, j: int|
            0 <= i < row_count && 0 <= j < col_count ==> !(#[trigger] cells(g)[i][j]).alive
                && cells(g)[i][j].neighbours_count == 0,
{
    let mut g: Vec<Vec<CellState>> = Vec::new();
    let mut i: i32 = 0;
    while i < row_count
        invariant
            0 < col_count,
            0 <= i <= row_count,
            g@.len() == i,
            forall|p: int| 0 <= p < i ==> (#[trigger] g@[p]@).len() == col_count,
            forall|p: int, q: int|
                0 <= p < i && 0 <= q < col_count ==> !(#[trigger] g@[p]@[q]).alive
                    && g@[p]@[q].neighbours_count == 0,
        decreases row_count - i,
    {
        let mut row: Vec<CellState> = Vec::new();
        let mut j: i32 = 0;
        while j < col_count
            invariant
                0 < col_count,
                0 <= j <= col_count,
                row@.len() == j,
                forall|q: int| 0 <= q < j ==> !(#[trigger] row@[q]).alive && row@[q].neighbours_count == 0,
            decreases col_count - j,
        {
            row.push(CellState::new());
            j += 1;
        }
        g.push(row);
        i += 1;
    }
    proof {
        assert forall|p: int| 0 <= p < row_count implies #[trigger] cells(g)[p].len() == col_count by {
            assert(cells(g)[p] == g@[p]@);
        }
        assert forall|p: int, q: int| 0 <= p < row_count && 0 <= q < col_count implies !(
        #[trigger] cells(g)[p][q]).alive && cells(g)[p][q].neighbours_count == 0 by {
            assert(cells(g)[p] == g@[p]@);
        }
    }
    g
}

/// An independent copy of a board.
fn copy_grid(src: &Vec<Vec<CellState>>) -> (dst: Vec<Vec<CellState>>)
    ensures
        cells(dst) == cells(*src),
{
    let mut dst: Vec<Vec<CellState>> = Vec::new();
    let mut i: usize = 0;
    while i < src.len()
        invariant
            0 <= i <= src.len(),
            dst@.len() == i,
            forall|p: int| 0 <= p < i ==> #[trigger] dst@[p]@ == src@[p]@,
        decreases src.len() - i,
    {
        let mut row: Vec<CellState> = Vec::new();
        let mut j: usize = 0;
        while j < src[i].len()
            invariant
                0 <= i < src.len(),
                0 <= j <= src@[i as int]@.len(),
                row@ == src@[i as int]@.subrange(0, j as int),
            decreases src@[i as int]@.len() - j,
        {
            row.push(src[i][j]);
            j += 1;
            assert(row@ =~= src@[i as int]@.subrange(0, j as int));
        }
        assert(row@ =~= src@[i as int]@);
        dst.push(row);
        i += 1;
    }
    assert(cells(dst) =~= cells(*src));
    dst
}

impl GameOfLife {
    /// The number of rows.
    pub closed spec fn rows(&self) -> int {
        self.row_count as int
    }

    /// The number of columns.
    pub closed spec fn cols(&self) -> int {
        self.col_count as int
    }

    /// Both boards have the engine's dimensions.
    pub closed spec fn boards_shaped(&self) -> bool {
        &&& is_rect(cells(self.states), self.row_count as int, self.col_count as int)
        &&& is_rect(cells(self.buffer), self.row_count as int, self.col_count as int)
    }

    /// The dimensions are positive and both boards have them.
    pub open spec fn well_shaped(&self) -> bool {
        &&& 0 < self.rows()
        &&& 0 < self.cols()
        &&& self.boards_shaped()
        &&& is_rect(self@, self.rows(), self.cols())
    }

    /// Well shaped, and every stored count is the number of live neighbours.
    pub open spec fn wf(&self) -> bool {
        &&& self.well_shaped()
        &&& counts_exact(self@)
    }

    /// `(x, y)` lies on the board.
    pub open spec fn in_bounds(&self, x: int, y: int) -> bool {
        0 <= x < self.rows() && 0 <= y < self.cols()
    }

    /// Adds one to (or takes one from) the count of each cell around `(x, y)`,
    /// clipped at the edges of the board.
    fn update_neighbours(
        x: i32,
        y: i32,
        row_count: i32,
        col_count: i32,
        board: &mut Vec<Vec<CellState>>,
        add_neighbour: bool,
    )
        requires
            0 <= x < row_count,
            0 <= y < col_count,
            is_rect(cells(*old(board)), row_count as int, col_count as int),
            counts_in_range(cells(*old(board))),
        ensures
            is_rect(cells(*final(board)), row_count as int, col_count as int),
            forall|i: int, j: int|
                0 <= i < row_count && 0 <= j < col_count ==> (#[trigger] final(board)@[i]@[j]).alive
                    == old(board)@[i]@[j].alive && final(board)@[i]@[j].neighbours_count
                    == old(board)@[i]@[j].neighbours_count + shift(
                    x as int,
                    y as int,
                    i,
                    j,
                    add_neighbour,
                ),
    {
        let i_lo: i32 = if x > 0 {
            x - 1
        } else {
            0
        };
        let i_hi: i32 = if x + 1 < row_count {
            x + 2
        } else {
            row_count
        };
        let j_lo: i32 = if y > 0 {
            y - 1
        } else {
            0
        };
        let j_hi: i32 = if y + 1 < col_count {
            y + 2
        } else {
            col_count
        };
        let mut i: i32 = i_lo;
        while i < i_hi
            invariant
                i_lo <= i <= i_hi,
                i_lo == if x > 0 { x - 1 } else { 0 },
                i_hi == if x + 1 < row_count { x + 2 } else { row_count as int },
                j_lo == if y > 0 { y - 1 } else { 0 },
                j_hi == if y + 1 < col_count { y + 2 } else { col_count as int },
                0 <= x < row_count,
                0 <= y < col_count,
                is_rect(cells(*board), row_count as int, col_count as int),
                forall|p: int, q: int|
                    0 <= p < row_count && 0 <= q < col_count ==> (#[trigger] board@[p]@[q]).alive
                        == old(board)@[p]@[q].alive && board@[p]@[q].neighbours_count
                        == old(board)@[p]@[q].neighbours_count + if p < i {
                        shift(x as int, y as int, p, q, add_neighbour)
                    } else {
                        0
                    },
                counts_in_range(cells(*old(board))),
                is_rect(cells(*old(board)), row_count as int, col_count as int),
            decreases i_hi - i,
        {
            let mut j: i32 = j_lo;
            while j < j_hi
                invariant
                    i_lo <= i < i_hi,
                    j_lo <= j <= j_hi,
                    i_lo == if x > 0 { x - 1 } else { 0 },
                    i_hi == if x + 1 < row_count { x + 2 } else { row_count as int },
                    j_lo == if y > 0 { y - 1 } else { 0 },
                    j_hi == if y + 1 < col_count { y + 2 } else { col_count as int },
                    0 <= x < row_count,
                    0 <= y < col_count,
                    is_rect(cells(*board), row_count as int, col_count as int),
                    forall|p: int, q: int|
                        0 <= p < row_count && 0 <= q < col_count ==> (#[trigger] board@[p]@[
                            q
                        ]).alive == old(board)@[p]@[q].alive && board@[p]@[q].neighbours_count
                            == old(board)@[p]@[q].neighbours_count + if p < i || (p == i && q
                            < j) {
                            shift(x as int, y as int, p, q, add_neighbour)
                        } else {
                            0
                        },
                    counts_in_range(cells(*old(board))),
                    is_rect(cells(*old(board)), row_count as int, col_count as int),
                decreases j_hi - j,
            {
                if !(i == x && j == y) {
                    assert(cells(*board)[i as int][j as int] == board@[i as int]@[j as int]);
                    assert(cells(*old(board))[i as int][j as int] == old(board)@[i as int]@[j as int]);
                    let ghost prev = *board;
                    if add_neighbour {
                        board[i as usize][j as usize].neighbours_count += 1;
                    } else {
                        board[i as usize][j as usize].neighbours_count -= 1;
                    }
                    assert forall|p: int| 0 <= p < row_count implies #[trigger] cells(
                        *board,
                    )[p].len() == col_count by {
                        assert(cells(*board)[p] == board@[p]@);
                        assert(cells(prev)[p] == prev@[p]@);
                    }
                }
                j += 1;
            }
            i += 1;
        }
    }

    /// Flips `(x, y)` on `board` and brings the counts around it up to date.
    fn flip_on(board: &mut Vec<Vec<CellState>>, row_count: i32, col_count: i32, x: i32, y: i32)
        requires
            0 <= x < row_count,
            0 <= y < col_count,
            is_rect(cells(*old(board)), row_count as int, col_count as int),
            counts_exact(cells(*old(board))),
        ensures
            is_rect(cells(*final(board)), row_count as int, col_count as int),
            counts_exact(cells(*final(board))),
            alive_grid(cells(*final(board))) == flip(
                alive_grid(cells(*old(board))),
                x as int,
                y as int,
            ),
    {
        let ghost g0 = cells(*board);
        let ghost rows = row_count as int;
        let ghost cols = col_count as int;
        proof {
            lemma_exact_in_range(g0);
        }
        assert(board@[x as int]@.len() == cols) by {
            assert(g0[x as int] == board@[x as int]@);
        }
        let add = !board[x as usize][y as usize].alive;
        board[x as usize][y as usize].swap_life();
        let ghost g1 = cells(*board);
        assert(is_rect(g1, rows, cols)) by {
            assert forall|p: int| 0 <= p < rows implies #[trigger] g1[p].len() == cols by {
                assert(g0[p].len() == cols);
            }
        }
        assert(counts_in_range(g1)) by {
            assert forall|p: int, q: int| 0 <= p < rows && 0 <= q < cols implies #[trigger] g1[p][q].neighbours_count
                == g0[p][q].neighbours_count by {
                assert(g0[p].len() == cols);
            }
        }
        Self::update_neighbours(x, y, row_count, col_count, board, add);
        proof {
            let a = alive_grid(g0);
            let g2 = cells(*board);
            assert(is_rect(a, rows, cols));
            lemma_flip_neighbours(a, rows, cols, x as int, y as int);
            assert forall|p: int| 0 <= p < rows implies #[trigger] g2[p].len() == cols by {
                assert(g2[p] == board@[p]@);
            }
            assert(alive_grid(g2) =~~= flip(a, x as int, y as int)) by {
                assert forall|p: int, q: int| 0 <= p < rows && 0 <= q < cols implies #[trigger] alive_grid(g2)[p][q]
                    == flip(a, x as int, y as int)[p][q] by {
                    assert(board@[p]@[q] == g2[p][q]);
                    assert(g0[p].len() == cols);
                    assert(g1[p].len() == cols);
                }
            }
            assert forall|p: int, q: int| 0 <= p < g2.len() && 0 <= q < g2[p].len() implies #[trigger] g2[p][q].neighbours_count
                == live_neighbours(alive_grid(g2), p, q) by {
                assert(board@[p]@[q] == g2[p][q]);
                assert(g0[p].len() == cols);
                assert(g1[p][q].neighbours_count == g0[p][q].neighbours_count);
                assert(g0[p][q].neighbours_count == live_neighbours(a, p, q));
            }
        }
    }

    /// Flips `(x, y)` on the current board and brings the counts around it up to date.
    fn flip_cell(&mut self, x: i32, y: i32)
        requires
            old(self).wf(),
            old(self).in_bounds(x as int, y as int),
        ensures
            final(self).wf(),
            final(self).rows() == old(self).rows(),
            final(self).cols() == old(self).cols(),
            alive_grid(final(self)@) == flip(alive_grid(old(self)@), x as int, y as int),
    {
        Self::flip_on(&mut self.states, self.row_count, self.col_count, x, y);
    }

    /// Builds the next generation in the scratch board from the current one,
    /// then makes it current. Every decision reads the current generation
    /// only, so the order in which cells are visited does not matter.
    pub fn update_board(&mut self)
        requires
            old(self).wf(),
        ensures
            final(self).wf(),
            final(self).rows() == old(self).rows(),
            final(self).cols() == old(self).cols(),
            alive_grid(final(self)@) == step(alive_grid(old(self)@)),
    {
        let ghost g0 = self@;
        let ghost a = alive_grid(g0);
        let ghost rows = self.rows();
        let ghost cols = self.cols();
        self.buffer = copy_grid(&self.states);
        let mut i: i32 = 0;
        while i < self.row_count
            invariant
                0 <= i <= self.row_count,
                self.states == old(self).states,
                self.row_count == old(self).row_count,
                self.col_count == old(self).col_count,
                rows == self.row_count,
                cols == self.col_count,
                g0 == self@,
                a == alive_grid(g0),
                old(self).wf(),
                is_rect(cells(self.buffer), rows, cols),
                counts_exact(cells(self.buffer)),
                forall|p: int, q: int|
                    0 <= p < rows && 0 <= q < cols ==> (#[trigger] cells(self.buffer)[p][q]).alive
                        == if p < i {
                        next_alive(a, p, q)
                    } else {
                        a[p][q]
                    },
            decreases self.row_count - i,
        {
            let mut j: i32 = 0;
            while j < self.col_count
                invariant
                    0 <= i < self.row_count,
                    0 <= j <= self.col_count,
                    self.states == old(self).states,
                    self.row_count == old(self).row_count,
                    self.col_count == old(self).col_count,
                    rows == self.row_count,
                    cols == self.col_count,
                    g0 == self@,
                    a == alive_grid(g0),
                    old(self).wf(),
                    is_rect(cells(self.buffer), rows, cols),
                    counts_exact(cells(self.buffer)),
                    forall|p: int, q: int|
                        0 <= p < rows && 0 <= q < cols ==> (#[trigger] cells(self.buffer)[p][
                            q
                        ]).alive == if p < i || (p == i && q < j) {
                            next_alive(a, p, q)
                        } else {
                            a[p][q]
                        },
                decreases self.col_count - j,
            {
                assert(self.states@[i as int]@.len() == cols) by {
                    assert(g0[i as int] == self.states@[i as int]@);
                }
                let c = self.states[i as usize][j as usize];
                let ghost b = cells(self.buffer);
                proof {
                    assert(c == g0[i as int][j as int]);
                    assert(c.neighbours_count == live_neighbours(a, i as int, j as int));
                    assert(a[i as int][j as int] == c.alive);
                }
                if (c.alive && (c.neighbours_count < 2 || c.neighbours_count > 3)) || (!c.alive
                    && c.neighbours_count == 3) {
                    Self::flip_on(&mut self.buffer, self.row_count, self.col_count, i, j);
                    proof {
                        let nb = cells(self.buffer);
                        assert forall|p: int, q: int| 0 <= p < rows && 0 <= q < cols implies (
                        #[trigger] nb[p][q]).alive == if p < i || (p == i && q < j + 1) {
                            next_alive(a, p, q)
                        } else {
                            a[p][q]
                        } by {
                            assert(nb[p][q].alive == alive_grid(nb)[p][q]);
                            assert(b[p][q].alive == alive_grid(b)[p][q]);
                        }
                    }
                } else {
                    proof {
                        assert forall|p: int, q: int| 0 <= p < rows && 0 <= q < cols implies (
                        #[trigger] b[p][q]).alive == if p < i || (p == i && q < j + 1) {
                            next_alive(a, p, q)
                        } else {
                            a[p][q]
                        } by {}
                    }
                }
                j += 1;
            }
            i += 1;
        }
        std::mem::swap(&mut self.states, &mut self.buffer);
        proof {
            let g = self@;
            assert(alive_grid(g) =~~= step(a)) by {
                assert forall|p: int, q: int| 0 <= p < rows && 0 <= q < cols implies #[trigger] alive_grid(g)[p][q]
                    == step(a)[p][q] by {
                    assert(g[p][q].alive == alive_grid(g)[p][q]);
                }
            }
        }
    }

    /// Flips the cell at `(x, y)`, as a click on it does, and brings the counts
    /// around it up to date. A coordinate off the board is refused and
    /// changes nothing.
    pub fn toggle_cell(&mut self, x: i32, y: i32) -> (r: Result<(), LifeError>)
        requires
            old(self).wf(),
        ensures
            final(self).wf(),
            final(self).rows() == old(self).rows(),
            final(self).cols() == old(self).cols(),
            old(self).in_bounds(x as int, y as int) ==> r is Ok && alive_grid(final(self)@) == flip(
                alive_grid(old(self)@),
                x as int,
                y as int,
            ),
            !old(self).in_bounds(x as int, y as int) ==> r == Err::<(), LifeError>(
                LifeError::OutOfBounds,
            ) && final(self)@ == old(self)@,
    {
        if x < 0 || x >= self.row_count || y < 0 || y >= self.col_count {
            return Err(LifeError::OutOfBounds);
        }
        self.flip_cell(x, y);
        Ok(())
    }

    /// Sets `(x, y)` alive if it is dead, bringing the counts around it up to
    /// date, and says whether it did; a live cell is left as it is.
    pub fn seed_cell(&mut self, x: i32, y: i32) -> (placed: bool)
        requires
            old(self).wf(),
            old(self).in_bounds(x as int, y as int),
        ensures
            final(self).wf(),
            final(self).rows() == old(self).rows(),
            final(self).cols() == old(self).cols(),
            placed == !alive_grid(old(self)@)[x as int][y as int],
            placed ==> alive_grid(final(self)@) == flip(alive_grid(old(self)@), x as int, y as int),
            !placed ==> final(self)@ == old(self)@,
    {
        assert(self.states@[x as int]@.len() == self.cols()) by {
            assert(self@[x as int] == self.states@[x as int]@);
        }
        assert(alive_grid(self@)[x as int][y as int] == self.states@[x as int]@[y as int].alive);
        if self.states[x as usize][y as usize].alive {
            false
        } else {
            self.flip_cell(x, y);
            true
        }
    }

    /// One draw of seeding at `(x, y)`, after `misses` draws that hit a live
    /// cell, with `budget` such draws allowed. A dead cell is set alive and
    /// the miss count comes back as it was; a live cell counts as one more
    /// miss, or ends seeding with `DegenerateSeed` once the budget is spent.
    pub fn seed_draw(&mut self, x: i32, y: i32, misses: u64, budget: u64) -> (r: Result<
        u64,
        LifeError,
    >)
        requires
            old(self).wf(),
            old(self).in_bounds(x as int, y as int),
            misses <= budget,
        ensures
            final(self).wf(),
            final(self).rows() == old(self).rows(),
            final(self).cols() == old(self).cols(),
            !alive_grid(old(self)@)[x as int][y as int] ==> r == Ok::<u64, LifeError>(misses)
                && alive_grid(final(self)@) == flip(alive_grid(old(self)@), x as int, y as int),
            alive_grid(old(self)@)[x as int][y as int] && misses < budget ==> r == Ok::<
                u64,
                LifeError,
            >((misses + 1) as u64) && final(self)@ == old(self)@,
            alive_grid(old(self)@)[x as int][y as int] && misses == budget ==> r == Err::<
                u64,
                LifeError,
            >(LifeError::DegenerateSeed) && final(self)@ == old(self)@,
    {
        if self.seed_cell(x, y) {
            Ok(misses)
        } else if misses < budget {
            Ok(misses + 1)
        } else {
            Err(LifeError::DegenerateSeed)
        }
    }

    /// Places `target` live cells on an empty board, each at a random
    /// coordinate outside the last row and the last column, redrawing when a
    /// draw hits a live cell.
    fn init_board(&mut self, target: u64) -> (r: Result<(), LifeError>)
        requires
            old(self).wf(),
            forall|i: int, j: int|
                0 <= i < old(self).rows() && 0 <= j < old(self).cols() ==> !#[trigger] alive_grid(
                    old(self)@,
                )[i][j],
        ensures
            final(self).wf(),
            final(self).rows() == old(self).rows(),
            final(self).cols() == old(self).cols(),
            match r {
                Ok(()) => {
                    &&& population(alive_grid(final(self)@)) == target
                    &&& alive_within(alive_grid(final(self)@), old(self).rows() - 1, old(self).cols() - 1)
                },
                Err(e) => e == LifeError::DegenerateSeed,
            },
            target == 0 ==> r is Ok,
            target > (old(self).rows() - 1) * (old(self).cols() - 1) ==> r is Err,
    {
        let ghost rows = self.rows();
        let ghost cols = self.cols();
        proof {
            lemma_population_empty(alive_grid(self@));
        }
        let free_rows = (self.row_count - 1) as u64;
        let free_cols = (self.col_count - 1) as u64;
        assert(free_rows * free_cols < 0x4000_0000_0000_0000) by (nonlinear_arith)
            requires
                free_rows < 0x8000_0000,
                free_cols < 0x8000_0000,
        ;
        let room: u64 = free_rows * free_cols;
        if target > room {
            return Err(LifeError::DegenerateSeed);
        }
        if target == 0 {
            return Ok(());
        }
        assert(0 < free_rows && 0 < free_cols) by (nonlinear_arith)
            requires
                0 < free_rows * free_cols,
                0 <= free_rows,
                0 <= free_cols,
        ;
        let budget: u64 = match room.checked_mul(SEED_MISSES_PER_CELL) {
            Some(b) => b,
            None => u64::MAX,
        };
        let mut rng = rand::rng();
        let mut remaining: u64 = target;
        let mut misses: u64 = 0;
        while remaining > 0
            invariant
                self.wf(),
                self.rows() == rows,
                self.cols() == cols,
                rows == old(self).rows(),
                cols == old(self).cols(),
                free_rows == rows - 1,
                free_cols == cols - 1,
                0 < free_rows,
                0 < free_cols,
                remaining <= target,
                misses <= budget,
                population(alive_grid(self@)) == target - remaining,
                alive_within(alive_grid(self@), rows - 1, cols - 1),
            decreases remaining, budget - misses,
        {
            let x = random_below(&mut rng, self.row_count - 1);
            let y = random_below(&mut rng, self.col_count - 1);
            let ghost before = alive_grid(self@);
            match self.seed_draw(x, y, misses, budget) {
                Ok(m) => {
                    if m == misses {
                        proof {
                            lemma_population_set(before, x as int, y as int);
                            let after = alive_grid(self@);
                            assert forall|i: int, j: int|
                                0 <= i < after.len() && 0 <= j < after[i].len()
                                    && #[trigger] after[i][j] implies i < rows - 1 && j < cols
                                - 1 by {
                                if i != x || j != y {
                                    assert(before[i][j]);
                                }
                            }
                        }
                        remaining -= 1;
                    } else {
                        misses = m;
                    }
                },
                Err(e) => {
                    return Err(e);
                },
            }
        }
        Ok(())
    }

    /// Adds one to the count of each cell around `(x, y)`, leaving every cell
    /// alive or dead as it was. Unless it is paired with a flip of `(x, y)`,
    /// this leaves those counts one above the number of live neighbours. A
    /// coordinate off the board is refused with `OutOfBounds` and changes
    /// nothing.
    pub fn inc_neighbours(&mut self, x: i32, y: i32) -> (r: Result<(), LifeError>)
        requires
            old(self).well_shaped(),
            counts_in_range(old(self)@),
        ensures
            final(self).well_shaped(),
            final(self).rows() == old(self).rows(),
            final(self).cols() == old(self).cols(),
            old(self).in_bounds(x as int, y as int) ==> r is Ok && forall|i: int, j: int|
                old(self).in_bounds(i, j) ==> (#[trigger] final(self)@[i][j]).alive == old(
                    self,
                )@[i][j].alive && final(self)@[i][j].neighbours_count == old(
                    self,
                )@[i][j].neighbours_count + shift(x as int, y as int, i, j, true),
            !old(self).in_bounds(x as int, y as int) ==> r == Err::<(), LifeError>(
                LifeError::OutOfBounds,
            ) && final(self)@ == old(self)@,
    {
        if x < 0 || x >= self.row_count || y < 0 || y >= self.col_count {
            return Err(LifeError::OutOfBounds);
        }
        Self::update_neighbours(x, y, self.row_count, self.col_count, &mut self.states, true);
        proof {
            assert forall|i: int, j: int| old(self).in_bounds(i, j) implies (#[trigger] self@[i][j]).alive
                == old(self)@[i][j].alive && self@[i][j].neighbours_count
                == old(self)@[i][j].neighbours_count + shift(x as int, y as int, i, j, true) by {
                assert(self@[i] == self.states@[i]@);
                assert(old(self)@[i] == old(self).states@[i]@);
            }
        }
        Ok(())
    }

    /// The number of rows.
    pub fn row_count(&self) -> (n: i32)
        ensures
            n == self.rows(),
    {
        self.row_count
    }

    /// The number of columns.
    pub fn col_count(&self) -> (n: i32)
        ensures
            n == self.cols(),
    {
        self.col_count
    }

    /// The cell at `(x, y)`, or `OutOfBounds` off the board.
    pub fn cell(&self, x: i32, y: i32) -> (r: Result<CellState, LifeError>)
        requires
            self.well_shaped(),
        ensures
            self.in_bounds(x as int, y as int) ==> r == Ok::<CellState, LifeError>(
                self@[x as int][y as int],
            ),
            !self.in_bounds(x as int, y as int) ==> r == Err::<CellState, LifeError>(
                LifeError::OutOfBounds,
            ),
    {
        if x < 0 || x >= self.row_count || y < 0 || y >= self.col_count {
            return Err(LifeError::OutOfBounds);
        }
        assert(self.states@[x as int]@.len() == self.cols()) by {
            assert(self@[x as int] == self.states@[x as int]@);
        }
        Ok(self.states[x as usize][y as usize])
    }

    /// Whether the cell at `(x, y)` is alive, or `OutOfBounds` off the board.
    pub fn read_cell(&self, x: i32, y: i32) -> (r: Result<bool, LifeError>)
        requires
            self.well_shaped(),
        ensures
            self.in_bounds(x as int, y as int) ==> r == Ok::<bool, LifeError>(
                self@[x as int][y as int].alive,
            ),
            !self.in_bounds(x as int, y as int) ==> r == Err::<bool, LifeError>(
                LifeError::OutOfBounds,
            ),
    {
        match self.cell(x, y) {
            Ok(c) => Ok(c.alive),
            Err(e) => Err(e),
        }
    }

    /// A `row_count` by `col_count` game whose first generation has the
    /// fraction `fill_num / fill_den` of its cells alive (rounded down), each
    /// placed by a random draw of a coordinate that is not in the last row or
    /// the last column. Seeding gives up with `DegenerateSeed` when those cells
    /// cannot hold that many, or when too many draws hit a live cell.
    pub fn new(row_count: i32, col_count: i32, fill_num: u32, fill_den: u32) -> (r: Result<
        GameOfLife,
        LifeError,
    >)
        requires
            0 < row_count,
            0 < col_count,
            0 < fill_den,
            fill_num <= fill_den,
        ensures
            match r {
                Ok(g) => {
                    &&& g.wf()
                    &&& g.rows() == row_count
                    &&& g.cols() == col_count
                    &&& population(alive_grid(g@)) == target_population(
                        row_count as int,
                        col_count as int,
                        fill_num as int,
                        fill_den as int,
                    )
                    &&& alive_within(alive_grid(g@), row_count - 1, col_count - 1)
                },
                Err(e) => e == LifeError::DegenerateSeed,
            },
            target_population(row_count as int, col_count as int, fill_num as int, fill_den as int)
                == 0 ==> r is Ok,
            target_population(row_count as int, col_count as int, fill_num as int, fill_den as int)
                > (row_count - 1) * (col_count - 1) ==> r is Err,
    {
        let states = blank_grid(row_count, col_count);
        let buffer = copy_grid(&states);
        let mut game = GameOfLife { row_count, col_count, buffer, states };
        proof {
            let g = game@;
            let a = alive_grid(g);
            assert forall|i: int, j: int| 0 <= i < g.len() && 0 <= j < g[i].len() implies !#[trigger] a[i][j] by {
                assert(g[i][j] == cells(game.states)[i][j]);
            }
            assert forall|i: int, j: int| 0 <= i < g.len() && 0 <= j < g[i].len() implies #[trigger] g[i][j].neighbours_count
                == live_neighbours(a, i, j) by {
                assert(g[i][j] == cells(game.states)[i][j]);
            }
        }
        let target = seed_target(row_count, col_count, fill_num, fill_den);
        match game.init_board(target) {
            Ok(()) => Ok(game),
            Err(e) => Err(e),
        }
    }
}

} // verus!
