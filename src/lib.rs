//! Conway's Game of Life on a bounded rectangular grid.

pub mod pos;
pub mod world;
pub mod laws;
