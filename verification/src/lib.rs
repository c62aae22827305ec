pub mod engine;
pub mod life;
pub mod life_functional;
