//! Conway's Game of Life on a fixed-size toroidal grid.
//!
//! The universe keeps one bit per cell in a [`fixedbitset::FixedBitSet`],
//! laid out row by row. Every operation is specified against a mathematical
//! model of the grid ([`grid::Grid`]) and proved to follow it; the laws that
//! relate the operations to one another are proved in [`laws`].

pub mod bitset;
pub mod grid;
pub mod laws;
pub mod text;
pub mod universe;

pub use crate::universe::Universe;
