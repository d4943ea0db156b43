pub mod bpe;

pub use bpe::{BpeTokenizer, TokenizerError};
pub mod builtin;
