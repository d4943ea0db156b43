use vstd::prelude::*;

use crate::tensor::error::TensorError;
use crate::text::{decimal, list_text, push_decimal, push_list, push_str, string_from_chars};

verus! {

/// Product of all dimensions (1 for the empty sequence).
pub open spec fn dims_product(d: Seq<usize>) -> int
    decreases d.len(),
{
    if d.len() == 0 {
        1
    } else {
        d[0] * dims_product(d.drop_first())
    }
}

/// Every running product `d[0] * ... * d[i-1]`, taken left to right, fits in a `usize`.
pub open spec fn prefix_products_fit(d: Seq<usize>) -> bool {
    forall|i: int| 0 <= i <= d.len() ==> #[trigger] dims_product(d.take(i)) <= usize::MAX
}

/// Every product of a proper trailing part of `d` fits in a `usize`
/// (these are the row-major strides).
pub open spec fn suffix_products_fit(d: Seq<usize>) -> bool {
    forall|j: int| 1 <= j <= d.len() ==> #[trigger] dims_product(d.skip(j)) <= usize::MAX
}

/// Row-major stride of dimension `i`: the product of all later dimensions.
pub open spec fn row_major_stride(d: Seq<usize>, i: int) -> int {
    dims_product(d.skip(i + 1))
}

/// `a[0] * b[0] + ... + a[n-1] * b[n-1]`.
pub open spec fn dot_prefix(a: Seq<usize>, b: Seq<usize>, n: int) -> int
    decreases n,
{
    if n <= 0 {
        0
    } else {
        dot_prefix(a, b, n - 1) + a[n - 1] * b[n - 1]
    }
}

/// Every index before `k` lies inside its dimension.
pub open spec fn in_bounds_upto(idx: Seq<usize>, dims: Seq<usize>, k: int) -> bool {
    forall|i: int| 0 <= i < k ==> #[trigger] idx[i] < dims[i]
}

/// The text of the error for an index whose rank differs from the shape's.
pub open spec fn rank_mismatch_text(index_rank: nat, rank: nat) -> Seq<char> {
    "Index rank "@ + decimal(index_rank) + " does not match tensor rank "@ + decimal(rank)
}

/// Dimension `i` counted from the innermost one, with missing leading
/// dimensions read as 1.
pub open spec fn aligned_dim(d: Seq<usize>, i: int) -> usize {
    if i < d.len() {
        d[d.len() - 1 - i]
    } else {
        1
    }
}

/// The two shapes can be broadcast together at position `i` (from the right).
pub open spec fn dims_compatible(a: Seq<usize>, b: Seq<usize>, i: int) -> bool {
    aligned_dim(a, i) == aligned_dim(b, i) || aligned_dim(a, i) == 1 || aligned_dim(b, i) == 1
}

/// The broadcast dimension at position `i` (from the right).
pub open spec fn broadcast_dim(a: Seq<usize>, b: Seq<usize>, i: int) -> usize {
    if aligned_dim(a, i) == aligned_dim(b, i) || aligned_dim(b, i) == 1 {
        aligned_dim(a, i)
    } else {
        aligned_dim(b, i)
    }
}

pub open spec fn max_len(a: Seq<usize>, b: Seq<usize>) -> nat {
    if a.len() >= b.len() {
        a.len()
    } else {
        b.len()
    }
}

/// Standard broadcasting of two shapes: shapes are aligned from the right,
/// missing leading dimensions count as 1, and two dimensions are compatible
/// when they are equal or one of them is 1. `None` when incompatible.
pub open spec fn spec_broadcast(a: Seq<usize>, b: Seq<usize>) -> Option<Seq<usize>> {
    let r = max_len(a, b);
    if forall|i: int| 0 <= i < r ==> #[trigger] dims_compatible(a, b, i) {
        Some(Seq::new(r, |j: int| broadcast_dim(a, b, r - 1 - j)))
    } else {
        None
    }
}

/// Number of leading entries of `strides` that are paired with dimensions.
pub open spec fn paired_len(d: Seq<usize>, strides: Seq<usize>) -> int {
    if strides.len() <= d.len() {
        strides.len() as int
    } else {
        d.len() as int
    }
}

/// Strides of a view with dims `d` and strides `strides` when broadcast to
/// shape `t`: a dimension equal to its target keeps its stride, a dimension
/// of size 1 stretched to a larger target gets stride 0, and so do the new
/// leading dimensions. `None` when `d` has higher rank than `t` or some
/// dimension is neither equal to its target nor 1.
pub open spec fn spec_broadcast_strides(d: Seq<usize>, strides: Seq<usize>, t: Seq<usize>) -> Option<
    Seq<usize>,
> {
    if d.len() > t.len() {
        None
    } else {
        let n = paired_len(d, strides);
        let diff = t.len() - d.len();
        if forall|i: int| 0 <= i < n ==> #[trigger] d[i] == t[i + diff] || d[i] == 1 {
            Some(
                Seq::new(
                    t.len(),
                    |j: int|
                        if diff <= j < diff + n && d[j - diff] == t[j] {
                            strides[j - diff]
                        } else {
                            0
                        },
                ),
            )
        } else {
            None
        }
    }
}

pub(crate) proof fn lemma_product_nonneg(d: Seq<usize>)
    ensures
        dims_product(d) >= 0,
    decreases d.len(),
{
    if d.len() > 0 {
        lemma_product_nonneg(d.drop_first());
        let p = dims_product(d.drop_first());
        let x = d[0] as int;
        assert(x * p >= 0) by (nonlinear_arith)
            requires
                x >= 0,
                p >= 0,
        ;
    }
}

proof fn lemma_product_take_step(d: Seq<usize>, i: int)
    requires
        0 <= i < d.len(),
    ensures
        dims_product(d.take(i + 1)) == dims_product(d.take(i)) * d[i],
    decreases i,
{
    if i == 0 {
        assert(d.take(1).drop_first() =~= Seq::<usize>::empty());
        assert(d.take(0) =~= Seq::<usize>::empty());
    } else {
        let t = d.drop_first();
        lemma_product_take_step(t, i - 1);
        assert(d.take(i + 1).drop_first() =~= t.take(i));
        assert(d.take(i).drop_first() =~= t.take(i - 1));
        let a = d[0] as int;
        let p = dims_product(t.take(i - 1));
        let x = d[i] as int;
        assert(a * (p * x) == (a * p) * x) by (nonlinear_arith);
    }
}

proof fn lemma_product_skip_step(d: Seq<usize>, j: int)
    requires
        0 <= j < d.len(),
    ensures
        dims_product(d.skip(j)) == d[j] * dims_product(d.skip(j + 1)),
{
    assert(d.skip(j).drop_first() =~= d.skip(j + 1));
}

proof fn lemma_product_full(d: Seq<usize>)
    ensures
        dims_product(d.take(d.len() as int)) == dims_product(d),
        dims_product(d.skip(0)) == dims_product(d),
{
    assert(d.take(d.len() as int) =~= d);
    assert(d.skip(0) =~= d);
}

/// The product of `d`, computed left to right; `None` exactly when some
/// running product does not fit in a `usize`.
pub fn checked_product(d: &[usize]) -> (r: Option<usize>)
    ensures
        r is Some <==> prefix_products_fit(d@),
        r matches Some(p) ==> p == dims_product(d@),
{
    let mut p: usize = 1;
    let mut i: usize = 0;
    proof {
        assert(d@.take(0) =~= Seq::<usize>::empty());
    }
    while i < d.len()
        invariant
            i <= d@.len(),
            p == dims_product(d@.take(i as int)),
            forall|k: int| 0 <= k <= i ==> #[trigger] dims_product(d@.take(k)) <= usize::MAX,
        decreases d@.len() - i,
    {
        proof {
            lemma_product_take_step(d@, i as int);
        }
        match p.checked_mul(d[i]) {
            Some(q) => {
                p = q;
            },
            None => {
                proof {
                    assert(dims_product(d@.take(i + 1)) > usize::MAX);
                }
                return None;
            },
        }
        i = i + 1;
        proof {
            assert forall|k: int| 0 <= k <= i implies #[trigger] dims_product(d@.take(k)) <= usize::MAX by {
                if k == i {
                } else {
                }
            }
        }
    }
    proof {
        lemma_product_full(d@);
    }
    Some(p)
}

/// Multi-dimensional shape descriptor for tensors.
#[derive(Debug, Clone, PartialEq, Eq, Hash)]
pub struct Shape {
    dims: Vec<usize>,
}

impl View for Shape {
    type V = Seq<usize>;

    closed spec fn view(&self) -> Seq<usize> {
        self.dims@
    }
}

impl Shape {
    /// Creates a new Shape from a slice of dimensions.
    pub fn new(dims: &[usize]) -> (r: Self)
        ensures
            r@ == dims@,
    {
        Shape { dims: vstd::slice::slice_to_vec(dims) }
    }

    /// Creates a shape that owns the given dimension vector.
    pub fn from_dims(dims: Vec<usize>) -> (r: Self)
        ensures
            r@ == dims@,
    {
        Shape { dims }
    }

    /// Creates a scalar (rank-0) shape.
    pub fn scalar() -> (r: Self)
        ensures
            r@ == Seq::<usize>::empty(),
    {
        Shape { dims: Vec::new() }
    }

    /// Returns the dimensions slice.
    pub fn dims(&self) -> (r: &[usize])
        ensures
            r@ == self@,
    {
        self.dims.as_slice()
    }

    /// Returns the number of dimensions (rank).
    pub fn rank(&self) -> (r: usize)
        ensures
            r == self@.len(),
    {
        self.dims.len()
    }

    /// Returns the total number of elements (1 for a scalar).
    pub fn numel(&self) -> (r: usize)
        requires
            prefix_products_fit(self@),
        ensures
            r == dims_product(self@),
    {
        let mut p: usize = 1;
        let mut i: usize = 0;
        proof {
            assert(self.dims@.take(0) =~= Seq::<usize>::empty());
        }
        while i < self.dims.len()
            invariant
                i <= self.dims@.len(),
                p == dims_product(self.dims@.take(i as int)),
                prefix_products_fit(self.dims@),
            decreases self.dims@.len() - i,
        {
            proof {
                lemma_product_take_step(self.dims@, i as int);
                assert(dims_product(self.dims@.take(i + 1)) <= usize::MAX);
            }
            p = p * self.dims[i];
            i = i + 1;
        }
        proof {
            lemma_product_full(self.dims@);
        }
        p
    }

    /// Computes default row-major (C-contiguous) strides: the last stride is
    /// 1 and each stride is the next one times the next dimension.
    pub fn default_strides(&self) -> (r: Vec<usize>)
        requires
            suffix_products_fit(self@),
        ensures
            r@.len() == self@.len(),
            forall|i: int| 0 <= i < self@.len() ==> #[trigger] r@[i] == row_major_stride(self@, i),
    {
        let rank = self.dims.len();
        if rank == 0 {
            return Vec::new();
        }
        let mut strides: Vec<usize> = vec![1; rank];
        let ghost d = self.dims@;
        proof {
            assert(d.skip(rank as int) =~= Seq::<usize>::empty());
        }
        let mut i: usize = rank - 1;
        while i > 0
            invariant
                d == self.dims@,
                rank == d.len(),
                0 <= i < rank,
                strides@.len() == rank,
                suffix_products_fit(d),
                forall|k: int| i <= k < rank ==> #[trigger] strides@[k] == row_major_stride(d, k),
            decreases i,
        {
            proof {
                lemma_product_skip_step(d, i as int);
                lemma_product_nonneg(d.skip(i + 1));
                assert(dims_product(d.skip(i as int)) <= usize::MAX);
                let a = strides@[i as int] as int;
                let b = d[i as int] as int;
                assert(a * b == b * a) by (nonlinear_arith);
            }
            let s = strides[i] * self.dims[i];
            strides.set(i - 1, s);
            i = i - 1;
        }
        strides
    }

    /// Computes the linear memory offset `sum(indices[k] * strides[k])` of a
    /// multi-dimensional index, checking its rank and bounds first.
    pub fn compute_offset(&self, indices: &[usize], strides: &[usize]) -> (r: Result<
        usize,
        TensorError,
    >)
        requires
            indices@.len() == self@.len() ==> forall|k: int|
                0 <= k < self@.len() && #[trigger] in_bounds_upto(indices@, self@, k + 1) ==> k
                    < strides@.len() && dot_prefix(indices@, strides@, k + 1) <= usize::MAX,
        ensures
            indices@.len() != self@.len() ==> (r matches Err(TensorError::IncompatibleDimensions(m))
                && m@ == rank_mismatch_text(indices@.len(), self@.len())),
            indices@.len() == self@.len() && !in_bounds_upto(indices@, self@, self@.len() as int)
                ==> (r matches Err(TensorError::IndexOutOfBounds { index, shape }) && index@
                == indices@ && shape@ == self@),
            indices@.len() == self@.len() && in_bounds_upto(indices@, self@, self@.len() as int)
                ==> r == Ok::<usize, TensorError>(
                dot_prefix(indices@, strides@, self@.len() as int) as usize,
            ),
    {
        if indices.len() != self.dims.len() {
            let mut m: Vec<char> = Vec::new();
            push_str(&mut m, "Index rank ");
            push_decimal(&mut m, indices.len());
            push_str(&mut m, " does not match tensor rank ");
            push_decimal(&mut m, self.dims.len());
            return Err(TensorError::IncompatibleDimensions(string_from_chars(m.as_slice())));
        }
        let mut offset: usize = 0;
        let mut i: usize = 0;
        while i < indices.len()
            invariant
                indices@.len() == self.dims@.len(),
                i <= indices@.len(),
                in_bounds_upto(indices@, self.dims@, i as int),
                offset == dot_prefix(indices@, strides@, i as int),
                self@ == self.dims@,
                forall|k: int|
                    0 <= k < self@.len() && #[trigger] in_bounds_upto(indices@, self@, k + 1)
                        ==> k < strides@.len() && dot_prefix(indices@, strides@, k + 1) <= usize::MAX,
            decreases indices@.len() - i,
        {
            if indices[i] >= self.dims[i] {
                return Err(
                    TensorError::IndexOutOfBounds {
                        index: vstd::slice::slice_to_vec(indices),
                        shape: vstd::slice::slice_to_vec(self.dims.as_slice()),
                    },
                );
            }
            proof {
                assert(in_bounds_upto(indices@, self.dims@, i + 1));
            }
            offset = offset + indices[i] * strides[i];
            i = i + 1;
        }
        Ok(offset)
    }

    /// Broadcasts two shapes together (see `spec_broadcast`).
    pub fn broadcast_shapes(s1: &Shape, s2: &Shape) -> (r: Result<Shape, TensorError>)
        ensures
            spec_broadcast(s1@, s2@) matches Some(d) ==> (r matches Ok(s) && s@ == d),
            spec_broadcast(s1@, s2@) is None ==> (r matches Err(
                TensorError::InvalidBroadcast { shape_a, shape_b },
            ) && shape_a@ == s1@ && shape_b@ == s2@),
    {
        let rank1 = s1.dims.len();
        let rank2 = s2.dims.len();
        let max_rank = if rank1 >= rank2 {
            rank1
        } else {
            rank2
        };
        let ghost a = s1.dims@;
        let ghost b = s2.dims@;
        let mut out_dims: Vec<usize> = vec![0; max_rank];
        let mut i: usize = 0;
        while i < max_rank
            invariant
                a == s1.dims@,
                b == s2.dims@,
                rank1 == a.len(),
                rank2 == b.len(),
                max_rank == max_len(a, b),
                i <= max_rank,
                out_dims@.len() == max_rank,
                forall|k: int| 0 <= k < i ==> #[trigger] dims_compatible(a, b, k),
                forall|k: int|
                    0 <= k < i ==> #[trigger] out_dims@[max_rank - 1 - k] == broadcast_dim(a, b, k),
            decreases max_rank - i,
        {
            let dim1 = if i < rank1 {
                s1.dims[rank1 - 1 - i]
            } else {
                1
            };
            let dim2 = if i < rank2 {
                s2.dims[rank2 - 1 - i]
            } else {
                1
            };
            proof {
                assert(dim1 == aligned_dim(a, i as int));
                assert(dim2 == aligned_dim(b, i as int));
            }
            if dim1 == dim2 || dim2 == 1 {
                out_dims.set(max_rank - 1 - i, dim1);
            } else if dim1 == 1 {
                out_dims.set(max_rank - 1 - i, dim2);
            } else {
                proof {
                    assert(!dims_compatible(a, b, i as int));
                }
                return Err(
                    TensorError::InvalidBroadcast {
                        shape_a: vstd::slice::slice_to_vec(s1.dims.as_slice()),
                        shape_b: vstd::slice::slice_to_vec(s2.dims.as_slice()),
                    },
                );
            }
            i = i + 1;
        }
        proof {
            let d = Seq::new(max_rank as nat, |j: int| broadcast_dim(a, b, max_rank - 1 - j));
            assert forall|j: int| 0 <= j < max_rank implies out_dims@[j] == d[j] by {
                let k = max_rank - 1 - j;
                assert(out_dims@[max_rank - 1 - k] == broadcast_dim(a, b, k));
            }
            assert(out_dims@ =~= d);
        }
        Ok(Shape { dims: out_dims })
    }

    /// Computes the strides of this shape (with `current_strides`) when
    /// virtually broadcast to `target_shape` (see `spec_broadcast_strides`):
    /// dimensions stretched from size 1 get stride 0, enabling zero-copy
    /// broadcast indexing.
    pub fn broadcast_strides(&self, current_strides: &[usize], target_shape: &Shape) -> (r: Result<
        Vec<usize>,
        TensorError,
    >)
        ensures
            spec_broadcast_strides(self@, current_strides@, target_shape@) matches Some(s) ==> (r matches Ok(v)
                && v@ == s),
            spec_broadcast_strides(self@, current_strides@, target_shape@) is None ==> (r matches Err(
                TensorError::InvalidBroadcast { shape_a, shape_b },
            ) && shape_a@ == self@ && shape_b@ == target_shape@),
    {
        let current_rank = self.dims.len();
        let target_rank = target_shape.dims.len();
        if current_rank > target_rank {
            return Err(
                TensorError::InvalidBroadcast {
                    shape_a: vstd::slice::slice_to_vec(self.dims.as_slice()),
                    shape_b: vstd::slice::slice_to_vec(target_shape.dims.as_slice()),
                },
            );
        }
        let mut new_strides: Vec<usize> = vec![0; target_rank];
        let rank_diff = target_rank - current_rank;
        let n = if current_strides.len() <= current_rank {
            current_strides.len()
        } else {
            current_rank
        };
        let ghost d = self.dims@;
        let ghost t = target_shape.dims@;
        let ghost st = current_strides@;
        let mut i: usize = 0;
        while i < n
            invariant
                d == self.dims@,
                t == target_shape.dims@,
                st == current_strides@,
                current_rank == d.len(),
                target_rank == t.len(),
                rank_diff == t.len() - d.len(),
                n == paired_len(d, st),
                i <= n,
                new_strides@.len() == target_rank,
                forall|k: int| 0 <= k < i ==> #[trigger] d[k] == t[k + rank_diff] || d[k] == 1,
                forall|j: int|
                    0 <= j < target_rank ==> #[trigger] new_strides@[j] == (if rank_diff <= j
                        < rank_diff + i && d[j - rank_diff] == t[j] {
                        st[j - rank_diff]
                    } else {
                        0
                    }),
            decreases n - i,
        {
            let target_idx = i + rank_diff;
            let current_dim = self.dims[i];
            let target_dim = target_shape.dims[target_idx];
            if current_dim == target_dim {
                new_strides.set(target_idx, current_strides[i]);
            } else if current_dim == 1 {
                new_strides.set(target_idx, 0);
            } else {
                return Err(
                    TensorError::InvalidBroadcast {
                        shape_a: vstd::slice::slice_to_vec(self.dims.as_slice()),
                        shape_b: vstd::slice::slice_to_vec(target_shape.dims.as_slice()),
                    },
                );
            }
            i = i + 1;
        }
        proof {
            let s = spec_broadcast_strides(d, st, t)->0;
            assert(new_strides@ =~= s);
        }
        Ok(new_strides)
    }
}

/// Broadcasting is symmetric: `broadcast_shapes(a, b)` and
/// `broadcast_shapes(b, a)` agree, both on success and on failure.
pub proof fn broadcast_is_commutative(a: Seq<usize>, b: Seq<usize>)
    ensures
        spec_broadcast(a, b) == spec_broadcast(b, a),
{
    let r = max_len(a, b);
    assert(max_len(b, a) == r);
    assert forall|i: int| 0 <= i < r implies #[trigger] dims_compatible(a, b, i) == dims_compatible(
        b,
        a,
        i,
    ) by {}
    if spec_broadcast(a, b) is Some {
        assert forall|j: int| 0 <= j < r implies #[trigger] broadcast_dim(a, b, r - 1 - j) == broadcast_dim(
            b,
            a,
            r - 1 - j,
        ) by {
            assert(dims_compatible(a, b, r - 1 - j));
        }
        assert forall|i: int| 0 <= i < r implies #[trigger] dims_compatible(b, a, i) by {
            assert(dims_compatible(a, b, i));
        }
        assert(spec_broadcast(b, a) is Some);
        assert(Seq::new(r, |j: int| broadcast_dim(a, b, r - 1 - j)) =~= Seq::new(
            r,
            |j: int| broadcast_dim(b, a, r - 1 - j),
        ));
    } else {
        let i = choose|i: int| 0 <= i < r && !#[trigger] dims_compatible(a, b, i);
        assert(!dims_compatible(b, a, i));
    }
}

/// Each operand of a successful broadcast can itself be broadcast to the
/// result: `broadcast_strides` succeeds for it, whatever strides it has.
pub proof fn broadcast_result_accepts_operands(a: Seq<usize>, b: Seq<usize>, strides: Seq<usize>)
    requires
        spec_broadcast(a, b) is Some,
    ensures
        spec_broadcast_strides(a, strides, spec_broadcast(a, b)->0) is Some,
        spec_broadcast_strides(b, strides, spec_broadcast(a, b)->0) is Some,
{
    let r = max_len(a, b);
    let c = spec_broadcast(a, b)->0;
    assert(c.len() == r);
    let diff_a = r - a.len();
    assert forall|i: int| 0 <= i < paired_len(a, strides) implies #[trigger] a[i] == c[i + diff_a]
        || a[i] == 1 by {
        let k = a.len() - 1 - i;
        assert(dims_compatible(a, b, k));
        assert(aligned_dim(a, k) == a[i]);
        assert(c[i + diff_a] == broadcast_dim(a, b, r - 1 - (i + diff_a)));
    }
    let diff_b = r - b.len();
    assert forall|i: int| 0 <= i < paired_len(b, strides) implies #[trigger] b[i] == c[i + diff_b]
        || b[i] == 1 by {
        let k = b.len() - 1 - i;
        assert(dims_compatible(a, b, k));
        assert(aligned_dim(b, k) == b[i]);
        assert(c[i + diff_b] == broadcast_dim(a, b, r - 1 - (i + diff_b)));
    }
}

proof fn lemma_row_major_prefix(d: Seq<usize>, idx: Seq<usize>, s: Seq<usize>, k: int)
    requires
        idx.len() == d.len(),
        s.len() == d.len(),
        forall|i: int| 0 <= i < d.len() ==> #[trigger] s[i] == row_major_stride(d, i),
        in_bounds_upto(idx, d, d.len() as int),
        0 <= k <= d.len(),
    ensures
        dot_prefix(idx, s, k) + dims_product(d.skip(k)) <= dims_product(d),
        dot_prefix(idx, s, k) >= 0,
    decreases k,
{
    if k == 0 {
        assert(d.skip(0) =~= d);
    } else {
        lemma_row_major_prefix(d, idx, s, k - 1);
        lemma_product_skip_step(d, k - 1);
        lemma_product_nonneg(d.skip(k));
        let x = idx[k - 1] as int;
        let n = d[k - 1] as int;
        let p = dims_product(d.skip(k));
        assert(idx[k - 1] < d[k - 1]);
        assert(x * p + p <= n * p) by (nonlinear_arith)
            requires
                0 <= x < n,
                p >= 0,
        ;
        assert(x * p >= 0) by (nonlinear_arith)
            requires
                0 <= x,
                p >= 0,
        ;
    }
}

/// Row-major strides address every in-bounds index inside the tensor: with
/// strides equal to the row-major ones, the offset of an in-bounds index is
/// at least 0 and below the number of elements.
pub proof fn row_major_offset_in_range(d: Seq<usize>, idx: Seq<usize>, strides: Seq<usize>)
    requires
        idx.len() == d.len(),
        strides.len() == d.len(),
        forall|i: int| 0 <= i < d.len() ==> #[trigger] strides[i] == row_major_stride(d, i),
        in_bounds_upto(idx, d, d.len() as int),
    ensures
        0 <= dot_prefix(idx, strides, d.len() as int) < dims_product(d),
{
    lemma_row_major_prefix(d, idx, strides, d.len() as int);
    assert(d.skip(d.len() as int) =~= Seq::<usize>::empty());
}

impl Shape {
    /// The dimensions rendered as a bracketed list, e.g. `[2, 3]`.
    pub fn to_text(&self) -> (r: String)
        ensures
            r@ == list_text(self@),
    {
        let mut out: Vec<char> = Vec::new();
        push_list(&mut out, self.dims.as_slice());
        proof {
            assert(out@ =~= list_text(self@));
        }
        string_from_chars(out.as_slice())
    }
}

} // verus!
