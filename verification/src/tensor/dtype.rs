use vstd::prelude::*;

verus! {

/// Data types supported by the tensor engine.
///
/// Computation runs on `F32`; the lower bit-width types describe weights as
/// they are stored in model files.
#[derive(Debug, Clone, Copy, PartialEq, Eq, Hash, Structural)]
pub enum DType {
    F32,
    F16,
    BF16,
    I8,
    Q8_0,
    Q4_0,
}

impl DType {
    /// Size in bytes of one element for unquantized types; block-quantized
    /// types report one byte per element.
    pub open spec fn spec_size_in_bytes(self) -> usize {
        match self {
            DType::F32 => 4,
            DType::F16 | DType::BF16 => 2,
            DType::I8 => 1,
            DType::Q8_0 => 1,
            DType::Q4_0 => 1,
        }
    }

    pub fn size_in_bytes(&self) -> (r: usize)
        ensures
            r == self.spec_size_in_bytes(),
    {
        match self {
            DType::F32 => 4,
            DType::F16 | DType::BF16 => 2,
            DType::I8 => 1,
            DType::Q8_0 => 1,
            DType::Q4_0 => 1,
        }
    }

    /// Whether this type is a 32-bit float.
    pub fn is_f32(&self) -> (r: bool)
        ensures
            r == (*self == DType::F32),
    {
        match self {
            DType::F32 => true,
            _ => false,
        }
    }

    /// Whether this type is block-quantized.
    pub fn is_quantized(&self) -> (r: bool)
        ensures
            r == (*self == DType::Q8_0 || *self == DType::Q4_0),
    {
        match self {
            DType::Q8_0 | DType::Q4_0 => true,
            _ => false,
        }
    }

    /// The lower-case name of the type, as shown to users (e.g. `q8_0`).
    pub open spec fn spec_name(self) -> Seq<char> {
        match self {
            DType::F32 => "f32"@,
            DType::F16 => "f16"@,
            DType::BF16 => "bf16"@,
            DType::I8 => "i8"@,
            DType::Q8_0 => "q8_0"@,
            DType::Q4_0 => "q4_0"@,
        }
    }

    /// The variant name of the type (e.g. `Q8_0`).
    pub open spec fn spec_variant_name(self) -> Seq<char> {
        match self {
            DType::F32 => "F32"@,
            DType::F16 => "F16"@,
            DType::BF16 => "BF16"@,
            DType::I8 => "I8"@,
            DType::Q8_0 => "Q8_0"@,
            DType::Q4_0 => "Q4_0"@,
        }
    }

    /// The lower-case name of the type.
    pub fn name(&self) -> (r: &'static str)
        ensures
            r@ == self.spec_name(),
    {
        match self {
            DType::F32 => "f32",
            DType::F16 => "f16",
            DType::BF16 => "bf16",
            DType::I8 => "i8",
            DType::Q8_0 => "q8_0",
            DType::Q4_0 => "q4_0",
        }
    }

    /// The variant name of the type.
    pub fn variant_name(&self) -> (r: &'static str)
        ensures
            r@ == self.spec_variant_name(),
    {
        match self {
            DType::F32 => "F32",
            DType::F16 => "F16",
            DType::BF16 => "BF16",
            DType::I8 => "I8",
            DType::Q8_0 => "Q8_0",
            DType::Q4_0 => "Q4_0",
        }
    }
}

} // verus!
