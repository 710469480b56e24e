//! Conway's Game of Life on a fixed-size toroidal grid, with a record of the
//! cells that changed in the most recent generation.

pub mod universe;

pub use universe::{Cell, LifeModel, Universe};
