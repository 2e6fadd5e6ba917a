//! Conway's Game of Life on a fixed rectangular grid with hard edges.
//!
//! The engine keeps, for every cell, the number of its live neighbours and
//! updates those counts incrementally on every change of a cell.
pub mod cell;
pub mod grid;
pub mod engine;
pub mod seed;
pub mod laws;

pub use cell::CellState;
pub use engine::{GameOfLife, LifeError};
pub use seed::seed_target;
