pub mod prior;
pub mod rng;
