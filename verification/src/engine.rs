pub mod board;
pub mod cell;
pub mod cells;
pub mod grid;
pub mod life;
pub mod settings;
