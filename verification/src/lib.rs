//! A small LLM inference library: tensor shapes and layouts, the GGUF
//! container format, a byte-pair tokenizer, block quantization formats and
//! the bookkeeping of caches and arenas, with their contracts proved by Verus.

pub mod tensor;
pub mod text;
pub mod model;
pub mod tokenizer;
pub mod quantization;
pub mod cache;
pub mod memory;
pub mod sampling;
pub mod inference;
pub mod cli;
