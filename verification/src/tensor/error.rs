use vstd::prelude::*;

use crate::tensor::dtype::DType;
use crate::text::{decimal, list_text, push_decimal, push_list, push_str, string_from_chars};

verus! {

/// Errors reported by tensor shape and layout operations.
#[derive(Debug, Clone, PartialEq, Eq)]
pub enum TensorError {
    ShapeMismatch { expected: Vec<usize>, actual: Vec<usize> },
    IncompatibleDimensions(String),
    InvalidBroadcast { shape_a: Vec<usize>, shape_b: Vec<usize> },
    InvalidSlice { dim: usize, start: usize, end: usize, size: usize },
    IndexOutOfBounds { index: Vec<usize>, shape: Vec<usize> },
    InvalidReshape { from: Vec<usize>, to: Vec<usize> },
    NonContiguousError,
    EmptyTensor,
    DTypeMismatch { expected: DType, actual: DType },
    DimensionOutOfBounds { dim: usize, rank: usize },
}

/// The message shown for a tensor error.
pub open spec fn tensor_error_text(e: TensorError) -> Seq<char> {
    match e {
        TensorError::ShapeMismatch { expected, actual } => "Shape mismatch: expected "@ + list_text(
            expected@,
        ) + ", found "@ + list_text(actual@),
        TensorError::IncompatibleDimensions(msg) => "Incompatible dimensions: "@ + msg@,
        TensorError::InvalidBroadcast { shape_a, shape_b } => "Cannot broadcast shapes "@
            + list_text(shape_a@) + " and "@ + list_text(shape_b@),
        TensorError::InvalidSlice { dim, start, end, size } => "Invalid slice on dim "@ + decimal(
            dim as nat,
        ) + ": ["@ + decimal(start as nat) + ".."@ + decimal(end as nat)
            + "] for dimension of size "@ + decimal(size as nat),
        TensorError::IndexOutOfBounds { index, shape } => "Index "@ + list_text(index@)
            + " out of bounds for tensor of shape "@ + list_text(shape@),
        TensorError::InvalidReshape { from, to } => "Cannot reshape tensor with total elements ("@
            + list_text(from@) + ") to target shape ("@ + list_text(to@) + ")"@,
        TensorError::NonContiguousError =>
            "Operation requires contiguous tensor in memory; call .contiguous() first"@,
        TensorError::EmptyTensor => "Tensor cannot be empty for this operation"@,
        TensorError::DTypeMismatch { expected, actual } => "DType mismatch: expected "@
            + expected.spec_variant_name() + ", got "@ + actual.spec_variant_name(),
        TensorError::DimensionOutOfBounds { dim, rank } => "Dimension index "@ + decimal(dim as nat)
            + " is out of bounds for rank "@ + decimal(rank as nat),
    }
}

impl TensorError {
    /// Appends the message of this error.
    pub fn push_message(&self, out: &mut Vec<char>)
        ensures
            final(out)@ == old(out)@ + tensor_error_text(*self),
    {
        let ghost start = out@;
        match self {
            TensorError::ShapeMismatch { expected, actual } => {
                push_str(out, "Shape mismatch: expected ");
                push_list(out, expected.as_slice());
                push_str(out, ", found ");
                push_list(out, actual.as_slice());
            },
            TensorError::IncompatibleDimensions(msg) => {
                push_str(out, "Incompatible dimensions: ");
                push_str(out, msg.as_str());
            },
            TensorError::InvalidBroadcast { shape_a, shape_b } => {
                push_str(out, "Cannot broadcast shapes ");
                push_list(out, shape_a.as_slice());
                push_str(out, " and ");
                push_list(out, shape_b.as_slice());
            },
            TensorError::InvalidSlice { dim, start, end, size } => {
                push_str(out, "Invalid slice on dim ");
                push_decimal(out, *dim);
                push_str(out, ": [");
                push_decimal(out, *start);
                push_str(out, "..");
                push_decimal(out, *end);
                push_str(out, "] for dimension of size ");
                push_decimal(out, *size);
            },
            TensorError::IndexOutOfBounds { index, shape } => {
                push_str(out, "Index ");
                push_list(out, index.as_slice());
                push_str(out, " out of bounds for tensor of shape ");
                push_list(out, shape.as_slice());
            },
            TensorError::InvalidReshape { from, to } => {
                push_str(out, "Cannot reshape tensor with total elements (");
                push_list(out, from.as_slice());
                push_str(out, ") to target shape (");
                push_list(out, to.as_slice());
                push_str(out, ")");
            },
            TensorError::NonContiguousError => {
                push_str(
                    out,
                    "Operation requires contiguous tensor in memory; call .contiguous() first",
                );
            },
            TensorError::EmptyTensor => {
                push_str(out, "Tensor cannot be empty for this operation");
            },
            TensorError::DTypeMismatch { expected, actual } => {
                push_str(out, "DType mismatch: expected ");
                push_str(out, expected.variant_name());
                push_str(out, ", got ");
                push_str(out, actual.variant_name());
            },
            TensorError::DimensionOutOfBounds { dim, rank } => {
                push_str(out, "Dimension index ");
                push_decimal(out, *dim);
                push_str(out, " is out of bounds for rank ");
                push_decimal(out, *rank);
            },
        }
        proof {
            assert(out@ =~= start + tensor_error_text(*self));
        }
    }

    /// The message shown for this error.
    pub fn message(&self) -> (r: String)
        ensures
            r@ == tensor_error_text(*self),
    {
        let mut out: Vec<char> = Vec::new();
        self.push_message(&mut out);
        proof {
            assert(out@ =~= tensor_error_text(*self));
        }
        string_from_chars(out.as_slice())
    }
}

} // verus!
