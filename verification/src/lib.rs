//! Conway's Game of Life on a bounded rectangular grid.
//!
//! [`grid`] holds the mathematical model of a generation, [`world`] the
//! executable grid whose operations are specified against that model,
//! [`checked`] the same operations for callers that cannot promise good
//! input, and [`laws`] what holds of every grid.

pub mod checked;
pub mod error;
pub mod grid;
pub mod laws;
pub mod world;
