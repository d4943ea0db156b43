pub mod sampler;

pub use sampler::{initial_rng_state, next_rng_state, GreedySampler};
