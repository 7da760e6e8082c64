//! Conway's Game of Life on a toroidal (wrapping) grid.
//!
//! The grid owns a flat row-major vector of cells. Construction computes each
//! cell's position, its eight wrapped Moore-neighbour indices, and its initial
//! alive flag from a caller-supplied predicate; every generation then updates
//! all alive flags synchronously from a snapshot of the previous generation.

pub mod cell;
pub mod grid;
