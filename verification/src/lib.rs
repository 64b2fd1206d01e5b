//! Conway's Game of Life on a torus, with bit-packed cell storage.
//!
//! [`Universe`] is the executable grid. Its contracts are stated over
//! [`Grid`], a mathematical model of a board and of the update rule.

pub mod bitset;
pub mod grid;
pub mod laws;
pub mod universe;

pub use grid::Grid;
pub use universe::{GridError, Seed, Universe};
