pub mod game;
pub mod invariants;
mod rng;
