pub mod engine;

pub use engine::{Generation, GenerationStep, InferenceError};
