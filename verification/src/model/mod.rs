pub mod config;
pub mod gguf;
pub mod roundtrip;
pub mod tensor_data;

pub use config::ModelConfig;
pub use gguf::{
    GgufBuilder, GgufError, GgufFile, GgufMetadata, GgufStorage, GgufTensorInfo, GgufTensorTable,
    GgufValue,
};
