//! A single cell of the board.
use vstd::prelude::*;

verus! {

/// A cell: whether it is alive, and how many of its Moore neighbours are.
#[derive(Debug, Clone, Copy, PartialEq, Eq, Structural)]
pub struct CellState {
    pub alive: bool,
    pub neighbours_count: i32,
}

impl CellState {
    /// A dead cell with no live neighbours.
    pub fn new() -> (c: CellState)
        ensures
            !c.alive,
            c.neighbours_count == 0,
    {
        CellState { alive: false, neighbours_count: 0 }
    }

    /// Flips whether the cell is alive; the neighbour count stays as it is.
    pub fn swap_life(&mut self)
        ensures
            final(self).alive == !old(self).alive,
            final(self).neighbours_count == old(self).neighbours_count,
    {
        self.alive = !self.alive;
    }
}

} // verus!
