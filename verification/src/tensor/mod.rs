pub mod dtype;
pub mod error;
pub mod layout;
pub mod plan;
pub mod shape;

pub use dtype::DType;
pub use error::TensorError;
pub use layout::TensorLayout;
pub use shape::Shape;
