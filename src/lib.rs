//! Conway's Game of Life on a fixed, non-wrapping rectangular grid.
pub mod board;
pub mod cell;
pub mod location;
