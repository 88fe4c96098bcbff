pub mod entities;
pub mod grid;
pub mod input;
pub mod resources;
pub mod rng;
