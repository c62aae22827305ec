pub use crate::engine::board::{Board, BoardError, Cells};
pub use crate::engine::cell::Cell;
pub use crate::engine::life::{evaluate_cell, evolve, neighbors, visit_neighbors};
