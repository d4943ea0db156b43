use vstd::prelude::*;

use crate::tensor::error::{tensor_error_text, TensorError};
use crate::text::{decimal, push_decimal, push_str, string_from_chars};

verus! {

/// Errors reported by the key/value cache.
#[derive(Debug, Clone, PartialEq, Eq)]
pub enum KvCacheError {
    CapacityExceeded { requested: usize, capacity: usize },
    TensorErr(TensorError),
}

impl From<TensorError> for KvCacheError {
    fn from(e: TensorError) -> (r: Self) {
        KvCacheError::TensorErr(e)
    }
}

impl vstd::std_specs::convert::FromSpecImpl<TensorError> for KvCacheError {
    open spec fn obeys_from_spec() -> bool {
        true
    }

    open spec fn from_spec(e: TensorError) -> Self {
        KvCacheError::TensorErr(e)
    }
}

/// Position bookkeeping of one layer's key/value cache: how many token
/// positions are stored, out of how many, and the element layout
/// `[position, kv_head, head_dim]` of the key and value buffers.
pub struct LayerKvCache {
    current_len: usize,
    max_seq_len: usize,
    num_kv_heads: usize,
    head_dim: usize,
}

impl LayerKvCache {
    #[verifier::type_invariant]
    closed spec fn inv(self) -> bool {
        &&& self.current_len <= self.max_seq_len
        &&& self.max_seq_len * self.num_kv_heads <= usize::MAX
        &&& self.max_seq_len * self.num_kv_heads * self.head_dim <= usize::MAX
    }

    pub closed spec fn len(self) -> nat {
        self.current_len as nat
    }

    pub closed spec fn max_len(self) -> nat {
        self.max_seq_len as nat
    }

    /// Elements stored per token position (`num_kv_heads * head_dim`).
    pub closed spec fn elems_per_token(self) -> nat {
        (self.num_kv_heads * self.head_dim) as nat
    }

    /// Creates an empty cache for `max_seq_len` positions; each of the key
    /// and value buffers holds `max_seq_len * num_kv_heads * head_dim`
    /// elements.
    pub fn new(max_seq_len: usize, num_kv_heads: usize, head_dim: usize) -> (r: Self)
        requires
            max_seq_len * num_kv_heads <= usize::MAX,
            max_seq_len * num_kv_heads * head_dim <= usize::MAX,
        ensures
            r.len() == 0,
            r.max_len() == max_seq_len,
            r.elems_per_token() == num_kv_heads * head_dim,
    {
        LayerKvCache { current_len: 0, max_seq_len, num_kv_heads, head_dim }
    }

    /// Number of elements of each buffer (`max_seq_len * num_kv_heads * head_dim`).
    pub fn total_elements(&self) -> (r: usize)
        ensures
            r == self.max_len() * self.elems_per_token(),
    {
        proof {
            use_type_invariant(self);
            lemma_mul_assoc(self.max_seq_len as int, self.num_kv_heads as int, self.head_dim as int);
        }
        self.max_seq_len * self.num_kv_heads * self.head_dim
    }

    /// Reserves `new_len` more positions. Fails with `CapacityExceeded`
    /// when they do not fit; otherwise returns the element range
    /// `(start, count)` of the new positions in each buffer: it starts
    /// where the stored positions end.
    pub fn append(&mut self, new_len: usize) -> (r: Result<(usize, usize), KvCacheError>)
        requires
            old(self).len() + new_len <= usize::MAX,
            old(self).elems_per_token() <= usize::MAX,
        ensures
            old(self).len() + new_len > old(self).max_len() ==> r == Err::<(usize, usize), KvCacheError>(
                KvCacheError::CapacityExceeded {
                    requested: (old(self).len() + new_len) as usize,
                    capacity: old(self).max_len() as usize,
                },
            ) && *final(self) == *old(self),
            old(self).len() + new_len <= old(self).max_len() ==> r == Ok::<(usize, usize), KvCacheError>(
                (
                    (old(self).len() * old(self).elems_per_token()) as usize,
                    (new_len * old(self).elems_per_token()) as usize,
                ),
            ) && final(self).len() == old(self).len() + new_len && final(self).max_len()
                == old(self).max_len() && final(self).elems_per_token() == old(
                self,
            ).elems_per_token(),
    {
        proof {
            use_type_invariant(&*self);
        }
        if self.current_len + new_len > self.max_seq_len {
            return Err(
                KvCacheError::CapacityExceeded {
                    requested: self.current_len + new_len,
                    capacity: self.max_seq_len,
                },
            );
        }
        proof {
            let m = self.max_seq_len as int;
            let hd = self.num_kv_heads * self.head_dim;
            lemma_mul_assoc(m, self.num_kv_heads as int, self.head_dim as int);
            lemma_mul_le(self.current_len as int, m, hd);
            lemma_mul_le(new_len as int, m, hd);
        }
        let elem_per_token = self.num_kv_heads * self.head_dim;
        let start_idx = self.current_len * elem_per_token;
        let count = new_len * elem_per_token;
        self.current_len = self.current_len + new_len;
        Ok((start_idx, count))
    }

    /// Number of elements held by the stored positions.
    pub fn stored_elements(&self) -> (r: usize)
        ensures
            r == self.len() * self.elems_per_token(),
    {
        proof {
            use_type_invariant(self);
            let m = self.max_seq_len as int;
            let h = self.num_kv_heads as int;
            let d = self.head_dim as int;
            let c = self.current_len as int;
            lemma_mul_le(c, m, h);
            lemma_mul_le(c * h, m * h, d);
            lemma_mul_assoc(c, h, d);
        }
        self.current_len * self.num_kv_heads * self.head_dim
    }

    /// Number of stored positions.
    pub fn current_position(&self) -> (r: usize)
        ensures
            r == self.len(),
    {
        self.current_len
    }

    /// Maximum number of positions.
    pub fn capacity(&self) -> (r: usize)
        ensures
            r == self.max_len(),
    {
        self.max_seq_len
    }

    /// Forgets all stored positions.
    pub fn reset(&mut self)
        ensures
            final(self).len() == 0,
            final(self).max_len() == old(self).max_len(),
            final(self).elems_per_token() == old(self).elems_per_token(),
    {
        proof {
            use_type_invariant(&*self);
        }
        self.current_len = 0;
    }
}

proof fn lemma_mul_assoc(a: int, b: int, c: int)
    ensures
        a * b * c == a * (b * c),
{
    assert(a * b * c == a * (b * c)) by (nonlinear_arith);
}

proof fn lemma_mul_le(x: int, y: int, k: int)
    requires
        0 <= x <= y,
        k >= 0,
    ensures
        0 <= x * k <= y * k,
{
    assert(0 <= x * k <= y * k) by (nonlinear_arith)
        requires
            0 <= x <= y,
            k >= 0,
    ;
}

/// Key/value cache bookkeeping for every layer.
pub struct KvCache {
    pub layers: Vec<LayerKvCache>,
    pub max_seq_len: usize,
}

impl KvCache {
    /// A cache of `num_layers` empty layers.
    pub fn new(num_layers: usize, max_seq_len: usize, num_kv_heads: usize, head_dim: usize) -> (r:
        Self)
        requires
            max_seq_len * num_kv_heads <= usize::MAX,
            max_seq_len * num_kv_heads * head_dim <= usize::MAX,
        ensures
            r.layers@.len() == num_layers,
            r.max_seq_len == max_seq_len,
            forall|i: int|
                0 <= i < num_layers ==> #[trigger] r.layers@[i].len() == 0 && r.layers@[i].max_len()
                    == max_seq_len && r.layers@[i].elems_per_token() == num_kv_heads * head_dim,
    {
        let mut layers: Vec<LayerKvCache> = Vec::new();
        let mut i: usize = 0;
        while i < num_layers
            invariant
                max_seq_len * num_kv_heads <= usize::MAX,
                max_seq_len * num_kv_heads * head_dim <= usize::MAX,
                i <= num_layers,
                layers@.len() == i,
                forall|k: int|
                    0 <= k < i ==> #[trigger] layers@[k].len() == 0 && layers@[k].max_len()
                        == max_seq_len && layers@[k].elems_per_token() == num_kv_heads * head_dim,
            decreases num_layers - i,
        {
            layers.push(LayerKvCache::new(max_seq_len, num_kv_heads, head_dim));
            i = i + 1;
        }
        KvCache { layers, max_seq_len }
    }

    /// Empties every layer.
    pub fn reset(&mut self)
        ensures
            final(self).layers@.len() == old(self).layers@.len(),
            final(self).max_seq_len == old(self).max_seq_len,
            forall|i: int|
                0 <= i < final(self).layers@.len() ==> #[trigger] final(self).layers@[i].len() == 0
                    && final(self).layers@[i].max_len() == old(self).layers@[i].max_len()
                    && final(self).layers@[i].elems_per_token() == old(
                    self,
                ).layers@[i].elems_per_token(),
    {
        let n = self.layers.len();
        let mut i: usize = 0;
        while i < n
            invariant
                n == self.layers@.len(),
                n == old(self).layers@.len(),
                self.max_seq_len == old(self).max_seq_len,
                i <= n,
                forall|k: int|
                    0 <= k < i ==> #[trigger] self.layers@[k].len() == 0 && self.layers@[k].max_len()
                        == old(self).layers@[k].max_len() && self.layers@[k].elems_per_token()
                        == old(self).layers@[k].elems_per_token(),
                forall|k: int| i <= k < n ==> #[trigger] self.layers@[k] == old(self).layers@[k],
            decreases n - i,
        {
            let mut layer = self.layers.remove(i);
            layer.reset();
            self.layers.insert(i, layer);
            i = i + 1;
        }
    }

    /// Stored positions of the first layer (0 without layers).
    pub fn current_position(&self) -> (r: usize)
        ensures
            self.layers@.len() == 0 ==> r == 0,
            self.layers@.len() > 0 ==> r == self.layers@[0].len(),
    {
        if self.layers.len() == 0 {
            0
        } else {
            self.layers[0].current_position()
        }
    }

    /// Bytes needed for keys and values of all layers:
    /// `2 * num_layers * max_seq_len * num_kv_heads * head_dim * dtype_bytes`.
    pub fn estimate_memory_bytes(
        num_layers: usize,
        max_seq_len: usize,
        num_kv_heads: usize,
        head_dim: usize,
        dtype_bytes: usize,
    ) -> (r: usize)
        requires
            2 * num_layers <= usize::MAX,
            2 * num_layers * max_seq_len <= usize::MAX,
            2 * num_layers * max_seq_len * num_kv_heads <= usize::MAX,
            2 * num_layers * max_seq_len * num_kv_heads * head_dim <= usize::MAX,
            2 * num_layers * max_seq_len * num_kv_heads * head_dim * dtype_bytes <= usize::MAX,
        ensures
            r == 2 * num_layers * max_seq_len * num_kv_heads * head_dim * dtype_bytes,
    {
        2 * num_layers * max_seq_len * num_kv_heads * head_dim * dtype_bytes
    }
}

/// Successive appends hand out adjacent ranges: after `len` stored
/// positions of `ept` elements each, `append(n1)` returns the range
/// starting at `len * ept` with `n1 * ept` elements, and the next append
/// returns a range starting at `(len + n1) * ept`, where the first ends.
pub proof fn lemma_append_ranges_adjacent(len: nat, n1: nat, ept: nat)
    ensures
        len * ept + n1 * ept == (len + n1) * ept,
{
    assert(len * ept + n1 * ept == (len + n1) * ept) by (nonlinear_arith);
}

/// The message shown for a cache error.
pub open spec fn kv_cache_error_text(e: KvCacheError) -> Seq<char> {
    match e {
        KvCacheError::CapacityExceeded { requested, capacity } =>
            "KV Cache capacity exceeded: requested sequence length "@ + decimal(requested as nat)
            + ", max capacity is "@ + decimal(capacity as nat),
        KvCacheError::TensorErr(t) => "KV Cache tensor error: "@ + tensor_error_text(t),
    }
}

impl KvCacheError {
    /// The message shown for this error.
    pub fn message(&self) -> (r: String)
        ensures
            r@ == kv_cache_error_text(*self),
    {
        let mut out: Vec<char> = Vec::new();
        match self {
            KvCacheError::CapacityExceeded { requested, capacity } => {
                push_str(&mut out, "KV Cache capacity exceeded: requested sequence length ");
                push_decimal(&mut out, *requested);
                push_str(&mut out, ", max capacity is ");
                push_decimal(&mut out, *capacity);
            },
            KvCacheError::TensorErr(t) => {
                push_str(&mut out, "KV Cache tensor error: ");
                t.push_message(&mut out);
            },
        }
        proof {
            assert(out@ =~= kv_cache_error_text(*self));
        }
        string_from_chars(out.as_slice())
    }
}

} // verus!
