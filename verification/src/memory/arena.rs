use vstd::prelude::*;

use crate::tensor::error::{tensor_error_text, TensorError};
use crate::text::{decimal, push_decimal, push_str, string_from_chars};
use crate::tensor::shape::{
    Shape, dims_product, prefix_products_fit, row_major_stride, suffix_products_fit,
};

verus! {

/// Errors reported by the scratch arena.
#[derive(Debug, Clone, PartialEq, Eq)]
pub enum MemoryError {
    OutOfMemory { requested_elements: usize, available_elements: usize },
    TensorErr(TensorError),
}

impl From<TensorError> for MemoryError {
    fn from(e: TensorError) -> (r: Self) {
        MemoryError::TensorErr(e)
    }
}

impl vstd::std_specs::convert::FromSpecImpl<TensorError> for MemoryError {
    open spec fn obeys_from_spec() -> bool {
        true
    }

    open spec fn from_spec(e: TensorError) -> Self {
        MemoryError::TensorErr(e)
    }
}

/// Where an allocation lives in the arena's buffer: a contiguous row-major
/// view of the given shape starting at `offset`.
#[derive(Debug)]
pub struct ArenaSlot {
    pub shape: Shape,
    pub strides: Vec<usize>,
    pub offset: usize,
}

/// A bump allocator over a buffer of `capacity` elements: allocations are
/// laid out one after another and released all at once by `reset`.
#[derive(Debug)]
pub struct ScratchArena {
    capacity: usize,
    offset: usize,
    peak_offset: usize,
}

impl ScratchArena {
    #[verifier::type_invariant]
    closed spec fn inv(self) -> bool {
        self.offset <= self.peak_offset <= self.capacity
    }

    pub closed spec fn usage(self) -> nat {
        self.offset as nat
    }

    pub closed spec fn peak(self) -> nat {
        self.peak_offset as nat
    }

    pub closed spec fn cap(self) -> nat {
        self.capacity as nat
    }

    /// An empty arena of `capacity_elements` elements.
    pub fn new(capacity_elements: usize) -> (r: Self)
        ensures
            r.usage() == 0,
            r.peak() == 0,
            r.cap() == capacity_elements,
    {
        ScratchArena { capacity: capacity_elements, offset: 0, peak_offset: 0 }
    }

    /// Allocates a row-major block for `shape` right after the current
    /// allocations; `OutOfMemory` (with the elements still available) when
    /// it does not fit.
    pub fn allocate(&mut self, shape: &[usize]) -> (r: Result<ArenaSlot, MemoryError>)
        requires
            prefix_products_fit(shape@),
            suffix_products_fit(shape@),
            old(self).usage() + dims_product(shape@) <= usize::MAX,
        ensures
            final(self).cap() == old(self).cap(),
            old(self).usage() + dims_product(shape@) > old(self).cap() ==> r == Err::<
                ArenaSlot,
                MemoryError,
            >(
                MemoryError::OutOfMemory {
                    requested_elements: dims_product(shape@) as usize,
                    available_elements: (old(self).cap() - old(self).usage()) as usize,
                },
            ) && final(self).usage() == old(self).usage() && final(self).peak() == old(self).peak(),
            old(self).usage() + dims_product(shape@) <= old(self).cap() ==> (r matches Ok(slot) && {
                &&& slot.shape@ == shape@
                &&& slot.offset == old(self).usage()
                &&& slot.strides@.len() == shape@.len()
                &&& forall|i: int|
                    0 <= i < shape@.len() ==> #[trigger] slot.strides@[i] == row_major_stride(
                        shape@,
                        i,
                    )
                &&& final(self).usage() == old(self).usage() + dims_product(shape@)
                &&& final(self).peak() == if final(self).usage() > old(self).peak() {
                    final(self).usage()
                } else {
                    old(self).peak()
                }
            }),
    {
        proof {
            use_type_invariant(&*self);
        }
        let shape_obj = Shape::new(shape);
        let numel = shape_obj.numel();
        if self.offset + numel > self.capacity {
            return Err(
                MemoryError::OutOfMemory {
                    requested_elements: numel,
                    available_elements: self.capacity - self.offset,
                },
            );
        }
        let base_offset = self.offset;
        let new_offset = self.offset + numel;
        let new_peak = if new_offset > self.peak_offset {
            new_offset
        } else {
            self.peak_offset
        };
        *self = ScratchArena { capacity: self.capacity, offset: new_offset, peak_offset: new_peak };
        let strides = shape_obj.default_strides();
        Ok(ArenaSlot { shape: shape_obj, strides, offset: base_offset })
    }

    /// Releases every allocation (the peak is kept).
    pub fn reset(&mut self)
        ensures
            final(self).usage() == 0,
            final(self).peak() == old(self).peak(),
            final(self).cap() == old(self).cap(),
    {
        proof {
            use_type_invariant(&*self);
        }
        self.offset = 0;
    }

    /// Elements currently allocated; never more than the peak, which is
    /// never more than the capacity.
    pub fn current_usage(&self) -> (r: usize)
        ensures
            r == self.usage(),
            self.usage() <= self.peak() <= self.cap(),
    {
        proof {
            use_type_invariant(self);
        }
        self.offset
    }

    /// Total elements of the buffer.
    pub fn capacity(&self) -> (r: usize)
        ensures
            r == self.cap(),
    {
        self.capacity
    }

    /// Highest usage reached.
    pub fn peak_usage(&self) -> (r: usize)
        ensures
            r == self.peak(),
    {
        self.peak_offset
    }
}

/// Two buffers used alternately as input and output of a step.
#[derive(Debug)]
pub struct DoubleBuffer<T> {
    buffer_a: T,
    buffer_b: T,
    current_is_a: bool,
}

impl<T> DoubleBuffer<T> {
    /// The buffer holding the latest result.
    pub closed spec fn spec_current(self) -> T {
        if self.current_is_a {
            self.buffer_a
        } else {
            self.buffer_b
        }
    }

    /// The other buffer.
    pub closed spec fn spec_other(self) -> T {
        if self.current_is_a {
            self.buffer_b
        } else {
            self.buffer_a
        }
    }

    /// Two buffers; the first is current.
    pub fn new(a: T, b: T) -> (r: Self)
        ensures
            r.spec_current() == a,
            r.spec_other() == b,
    {
        DoubleBuffer { buffer_a: a, buffer_b: b, current_is_a: true }
    }

    /// Starts a step: returns the current buffer to read and the other one to
    /// write; the written buffer becomes current.
    pub fn step(&mut self) -> (r: (&T, &mut T))
        ensures
            *r.0 == old(self).spec_current(),
            *r.1 == old(self).spec_other(),
            final(self).spec_current() == *final(r.1),
            final(self).spec_other() == old(self).spec_current(),
    {
        if self.current_is_a {
            self.current_is_a = false;
            (&self.buffer_a, &mut self.buffer_b)
        } else {
            self.current_is_a = true;
            (&self.buffer_b, &mut self.buffer_a)
        }
    }

    /// The buffer holding the latest result.
    pub fn current(&self) -> (r: &T)
        ensures
            *r == self.spec_current(),
    {
        if self.current_is_a {
            &self.buffer_a
        } else {
            &self.buffer_b
        }
    }
}

/// The message shown for an arena error.
pub open spec fn memory_error_text(e: MemoryError) -> Seq<char> {
    match e {
        MemoryError::OutOfMemory { requested_elements, available_elements } =>
            "ScratchArena OOM: requested "@ + decimal(requested_elements as nat)
            + " elements, but only "@ + decimal(available_elements as nat) + " remain"@,
        MemoryError::TensorErr(t) => "Tensor error in memory pool: "@ + tensor_error_text(t),
    }
}

impl MemoryError {
    /// The message shown for this error.
    pub fn message(&self) -> (r: String)
        ensures
            r@ == memory_error_text(*self),
    {
        let mut out: Vec<char> = Vec::new();
        match self {
            MemoryError::OutOfMemory { requested_elements, available_elements } => {
                push_str(&mut out, "ScratchArena OOM: requested ");
                push_decimal(&mut out, *requested_elements);
                push_str(&mut out, " elements, but only ");
                push_decimal(&mut out, *available_elements);
                push_str(&mut out, " remain");
            },
            MemoryError::TensorErr(t) => {
                push_str(&mut out, "Tensor error in memory pool: ");
                t.push_message(&mut out);
            },
        }
        proof {
            assert(out@ =~= memory_error_text(*self));
        }
        string_from_chars(out.as_slice())
    }
}

} // verus!
