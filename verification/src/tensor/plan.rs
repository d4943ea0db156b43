//! The shape side of the tensor kernels: which output shape an operation
//! has, and where in storage each of its inputs is read. The arithmetic on
//! the elements is left to the caller.
use vstd::prelude::*;

use crate::tensor::error::TensorError;
use crate::tensor::layout::{as_ints, offsets_fit, view_offsets, TensorLayout};
use crate::tensor::shape::{
    broadcast_result_accepts_operands, dims_product, prefix_products_fit, spec_broadcast,
    spec_broadcast_strides, suffix_products_fit, Shape,
};
use crate::text::{decimal, push_decimal, push_str, string_from_chars};

verus! {

/// The text of the error for a matrix product of operands of rank below 2.
pub open spec fn matmul_rank_text(rank_a: nat, rank_b: nat) -> Seq<char> {
    "matmul requires at least 2 dimensions, found rank_a="@ + decimal(rank_a) + ", rank_b="@
        + decimal(rank_b)
}

/// The text of the error for a matrix product whose inner dimensions differ.
pub open spec fn inner_mismatch_text(m: nat, k_a: nat, k_b: nat, n: nat) -> Seq<char> {
    "Inner matrix dimensions do not match: A is [..., "@ + decimal(m) + ", "@ + decimal(k_a)
        + "], B is [..., "@ + decimal(k_b) + ", "@ + decimal(n) + "]"@
}

/// The leading (batch) dimensions of a matrix operand.
pub open spec fn batch_of(d: Seq<usize>) -> Seq<usize> {
    d.take(d.len() - 2)
}

/// Strides of an operand's batch dimensions broadcast to `out`.
pub open spec fn batch_strides(d: Seq<usize>, s: Seq<usize>, out: Seq<usize>) -> Seq<usize> {
    spec_broadcast_strides(batch_of(d), s.take(d.len() - 2), out)->0
}

/// The operands' shapes agree for a matrix product: both have rank at
/// least 2 and the columns of `a` match the rows of `b`.
pub open spec fn matmul_dims_agree(da: Seq<usize>, db: Seq<usize>) -> bool {
    da.len() >= 2 && db.len() >= 2 && da[da.len() - 1] == db[db.len() - 2]
}

/// Every storage position the product reads fits in a `usize`.
pub open spec fn matmul_views_fit(a: TensorLayout, b: TensorLayout) -> bool {
    let da = a.spec_dims();
    let db = b.spec_dims();
    matmul_dims_agree(da, db) ==> match spec_broadcast(batch_of(da), batch_of(db)) {
        Some(out) => {
            &&& prefix_products_fit(out)
            &&& offsets_fit(out, batch_strides(da, a.spec_strides(), out), a.spec_offset() as int)
            &&& offsets_fit(out, batch_strides(db, b.spec_strides(), out), b.spec_offset() as int)
        },
        None => true,
    }
}

/// How to compute a (batched) matrix product `[..., m, k] x [..., k, n]`:
/// the sizes, the output shape, where each batch's matrices start in the
/// operands' storage (batches in row-major order of the broadcast batch
/// shape), and the strides along rows and columns.
#[derive(Debug)]
pub struct MatmulPlan {
    pub m: usize,
    pub k: usize,
    pub n: usize,
    pub out_dims: Vec<usize>,
    pub a_offsets: Vec<usize>,
    pub b_offsets: Vec<usize>,
    pub a_stride_m: usize,
    pub a_stride_k: usize,
    pub b_stride_k: usize,
    pub b_stride_n: usize,
}

fn batch_view(
    dims: &[usize],
    strides: &[usize],
    offset: usize,
    out: &Shape,
) -> (r: Vec<usize>)
    requires
        dims@.len() >= 2,
        strides@.len() == dims@.len(),
        spec_broadcast_strides(batch_of(dims@), strides@.take(dims@.len() - 2), out@) is Some,
        prefix_products_fit(out@),
        offsets_fit(out@, batch_strides(dims@, strides@, out@), offset as int),
    ensures
        as_ints(r@) == view_offsets(out@, batch_strides(dims@, strides@, out@), offset as int),
{
    let rank = dims.len();
    let batch = Shape::new(vstd::slice::slice_subrange(dims, 0, rank - 2));
    let bstrides = vstd::slice::slice_subrange(strides, 0, rank - 2);
    proof {
        assert(batch@ =~= batch_of(dims@));
        assert(bstrides@ =~= strides@.take(dims@.len() - 2));
    }
    let s = match batch.broadcast_strides(bstrides, out) {
        Ok(s) => s,
        Err(_) => {
            proof {
                assert(false);
            }
            return Vec::new();
        },
    };
    let view = match TensorLayout::from_parts(Shape::new(out.dims()), s, offset) {
        Some(v) => v,
        None => {
            proof {
                assert(false);
            }
            return Vec::new();
        },
    };
    view.element_offsets()
}

fn rank_error_text(rank_a: usize, rank_b: usize) -> (r: String)
    ensures
        r@ == matmul_rank_text(rank_a as nat, rank_b as nat),
{
    let mut msg: Vec<char> = Vec::new();
    push_str(&mut msg, "matmul requires at least 2 dimensions, found rank_a=");
    push_decimal(&mut msg, rank_a);
    push_str(&mut msg, ", rank_b=");
    push_decimal(&mut msg, rank_b);
    string_from_chars(msg.as_slice())
}

fn inner_error_text(m: usize, k_a: usize, k_b: usize, n: usize) -> (r: String)
    ensures
        r@ == inner_mismatch_text(m as nat, k_a as nat, k_b as nat, n as nat),
{
    let mut msg: Vec<char> = Vec::new();
    push_str(&mut msg, "Inner matrix dimensions do not match: A is [..., ");
    push_decimal(&mut msg, m);
    push_str(&mut msg, ", ");
    push_decimal(&mut msg, k_a);
    push_str(&mut msg, "], B is [..., ");
    push_decimal(&mut msg, k_b);
    push_str(&mut msg, ", ");
    push_decimal(&mut msg, n);
    push_str(&mut msg, "]");
    string_from_chars(msg.as_slice())
}

/// Plans the matrix product of `a` and `b` (batch dimensions are
/// broadcast). `IncompatibleDimensions` when an operand has rank below 2
/// or the inner dimensions differ, `InvalidBroadcast` when the batch
/// dimensions do not broadcast.
pub fn matmul_plan(a: &TensorLayout, b: &TensorLayout) -> (r: Result<MatmulPlan, TensorError>)
    requires
        matmul_views_fit(*a, *b),
    ensures
        ({
            let da = a.spec_dims();
            let db = b.spec_dims();
            let sa = a.spec_strides();
            let sb = b.spec_strides();
            &&& (da.len() < 2 || db.len() < 2) ==> (r matches Err(
                TensorError::IncompatibleDimensions(msg),
            ) && msg@ == matmul_rank_text(da.len(), db.len()))
            &&& (da.len() >= 2 && db.len() >= 2 && !matmul_dims_agree(da, db)) ==> (r matches Err(
                TensorError::IncompatibleDimensions(msg),
            ) && msg@ == inner_mismatch_text(
                da[da.len() - 2] as nat,
                da[da.len() - 1] as nat,
                db[db.len() - 2] as nat,
                db[db.len() - 1] as nat,
            ))
            &&& (matmul_dims_agree(da, db) && spec_broadcast(batch_of(da), batch_of(db)) is None)
                ==> (r matches Err(TensorError::InvalidBroadcast { shape_a, shape_b })
                && shape_a@ == batch_of(da) && shape_b@ == batch_of(db))
            &&& (matmul_dims_agree(da, db) && spec_broadcast(batch_of(da), batch_of(db)) is Some)
                ==> (r matches Ok(p) && {
                let out = spec_broadcast(batch_of(da), batch_of(db))->0;
                &&& p.m == da[da.len() - 2]
                &&& p.k == da[da.len() - 1]
                &&& p.n == db[db.len() - 1]
                &&& p.out_dims@ == out + seq![p.m, p.n]
                &&& as_ints(p.a_offsets@) == view_offsets(
                    out,
                    batch_strides(da, sa, out),
                    a.spec_offset() as int,
                )
                &&& as_ints(p.b_offsets@) == view_offsets(
                    out,
                    batch_strides(db, sb, out),
                    b.spec_offset() as int,
                )
                &&& p.a_stride_m == sa[da.len() - 2]
                &&& p.a_stride_k == sa[da.len() - 1]
                &&& p.b_stride_k == sb[db.len() - 2]
                &&& p.b_stride_n == sb[db.len() - 1]
            })
        }),
{
    let rank_a = a.rank();
    let rank_b = b.rank();
    if rank_a < 2 || rank_b < 2 {
        return Err(TensorError::IncompatibleDimensions(rank_error_text(rank_a, rank_b)));
    }
    let da = a.dims();
    let db = b.dims();
    let sa = a.strides();
    let sb = b.strides();
    let m = da[rank_a - 2];
    let k_a = da[rank_a - 1];
    let k_b = db[rank_b - 2];
    let n = db[rank_b - 1];
    if k_a != k_b {
        return Err(TensorError::IncompatibleDimensions(inner_error_text(m, k_a, k_b, n)));
    }
    let shape_batch_a = Shape::new(vstd::slice::slice_subrange(da, 0, rank_a - 2));
    let shape_batch_b = Shape::new(vstd::slice::slice_subrange(db, 0, rank_b - 2));
    proof {
        assert(shape_batch_a@ =~= batch_of(da@));
        assert(shape_batch_b@ =~= batch_of(db@));
    }
    let out_batch = match Shape::broadcast_shapes(&shape_batch_a, &shape_batch_b) {
        Ok(s) => s,
        Err(e) => {
            return Err(e);
        },
    };
    proof {
        broadcast_result_accepts_operands(batch_of(da@), batch_of(db@), sa@.take(da@.len() - 2));
        broadcast_result_accepts_operands(batch_of(da@), batch_of(db@), sb@.take(db@.len() - 2));
    }
    let a_offsets = batch_view(da, sa, a.offset(), &out_batch);
    let b_offsets = batch_view(db, sb, b.offset(), &out_batch);
    let mut out_dims = vstd::slice::slice_to_vec(out_batch.dims());
    out_dims.push(m);
    out_dims.push(n);
    Ok(
        MatmulPlan {
            m,
            k: k_a,
            n,
            out_dims,
            a_offsets,
            b_offsets,
            a_stride_m: sa[rank_a - 2],
            a_stride_k: sa[rank_a - 1],
            b_stride_k: sb[rank_b - 2],
            b_stride_n: sb[rank_b - 1],
        },
    )
}

/// The text of the error for a plain matrix product (named `what`) of
/// operands that are not both matrices.
pub open spec fn matrix_rank_text(what: Seq<char>) -> Seq<char> {
    what + " currently supports 2D matrices"@
}

/// The text of the error for a plain matrix product whose inner dimensions
/// differ.
pub open spec fn matrix_inner_text(m: nat, k_a: nat, k_b: nat, n: nat) -> Seq<char> {
    "Inner matrix dimensions do not match: ["@ + decimal(m) + ", "@ + decimal(k_a) + "] x ["@
        + decimal(k_b) + ", "@ + decimal(n) + "]"@
}

/// The sizes `(m, k, n)` of a plain product of matrices `[m, k] x [k, n]`
/// computed by the kernel named `what`. `IncompatibleDimensions` when an
/// operand is not a matrix, or when the inner dimensions differ.
pub fn matrix_dims_2d(a: &[usize], b: &[usize], what: &str) -> (r: Result<
    (usize, usize, usize),
    TensorError,
>)
    ensures
        (a@.len() != 2 || b@.len() != 2) ==> (r matches Err(TensorError::IncompatibleDimensions(msg))
            && msg@ == matrix_rank_text(what@)),
        (a@.len() == 2 && b@.len() == 2 && a@[1] != b@[0]) ==> (r matches Err(
            TensorError::IncompatibleDimensions(msg),
        ) && msg@ == matrix_inner_text(a@[0] as nat, a@[1] as nat, b@[0] as nat, b@[1] as nat)),
        (a@.len() == 2 && b@.len() == 2 && a@[1] == b@[0]) ==> r == Ok::<
            (usize, usize, usize),
            TensorError,
        >((a@[0], a@[1], b@[1])),
{
    if a.len() != 2 || b.len() != 2 {
        let mut msg: Vec<char> = Vec::new();
        push_str(&mut msg, what);
        push_str(&mut msg, " currently supports 2D matrices");
        return Err(TensorError::IncompatibleDimensions(string_from_chars(msg.as_slice())));
    }
    let m = a[0];
    let k_a = a[1];
    let k_b = b[0];
    let n = b[1];
    if k_a != k_b {
        let mut msg: Vec<char> = Vec::new();
        push_str(&mut msg, "Inner matrix dimensions do not match: [");
        push_decimal(&mut msg, m);
        push_str(&mut msg, ", ");
        push_decimal(&mut msg, k_a);
        push_str(&mut msg, "] x [");
        push_decimal(&mut msg, k_b);
        push_str(&mut msg, ", ");
        push_decimal(&mut msg, n);
        push_str(&mut msg, "]");
        proof {
            assert(msg@ =~= matrix_inner_text(m as nat, k_a as nat, k_b as nat, n as nat));
        }
        return Err(TensorError::IncompatibleDimensions(string_from_chars(msg.as_slice())));
    }
    Ok((m, k_a, n))
}

/// Sizes around an axis: the number of elements before it (`outer`),
/// along it (`reduce`) and after it (`inner`) in a row-major layout.
#[derive(Debug, Clone, Copy, PartialEq, Eq)]
pub struct AxisSplit {
    pub outer: usize,
    pub reduce: usize,
    pub inner: usize,
}

/// The split of `dims` around axis `dim`.
pub open spec fn spec_split(dims: Seq<usize>, dim: int) -> AxisSplit {
    AxisSplit {
        outer: dims_product(dims.take(dim)) as usize,
        reduce: dims[dim],
        inner: dims_product(dims.skip(dim + 1)) as usize,
    }
}

/// Splits `dims` around axis `dim`; `DimensionOutOfBounds` when `dim` is
/// not below the rank.
pub fn split_at_axis(dims: &[usize], dim: usize) -> (r: Result<AxisSplit, TensorError>)
    requires
        prefix_products_fit(dims@),
        dim < dims@.len() ==> prefix_products_fit(dims@.skip(dim + 1)),
    ensures
        dim >= dims@.len() ==> r == Err::<AxisSplit, TensorError>(
            TensorError::DimensionOutOfBounds { dim, rank: dims@.len() as usize },
        ),
        dim < dims@.len() ==> r == Ok::<AxisSplit, TensorError>(spec_split(dims@, dim as int)),
{
    let rank = dims.len();
    if dim >= rank {
        return Err(TensorError::DimensionOutOfBounds { dim, rank });
    }
    let before = vstd::slice::slice_subrange(dims, 0, dim);
    let after = vstd::slice::slice_subrange(dims, dim + 1, rank);
    proof {
        assert(before@ =~= dims@.take(dim as int));
        assert(after@ =~= dims@.skip(dim + 1));
        assert forall|i: int| 0 <= i <= before@.len() implies #[trigger] dims_product(before@.take(i)) <= usize::MAX by {
            assert(before@.take(i) =~= dims@.take(i));
        }
    }
    let outer = Shape::new(before).numel();
    let inner = Shape::new(after).numel();
    Ok(AxisSplit { outer, reduce: dims[dim], inner })
}

/// The output shape and split of a reduction (sum, mean, max).
#[derive(Debug)]
pub struct ReductionPlan {
    pub out_dims: Vec<usize>,
    pub split: AxisSplit,
}

/// Plans a reduction of a tensor of shape `dims`: over everything when
/// `dim` is `None` (all dimensions become 1 with `keepdim`, else the result
/// is a scalar), else over axis `dim` (which becomes 1 with `keepdim`, else
/// disappears). `EmptyTensor` for a tensor without elements, then
/// `DimensionOutOfBounds` when `dim` is not below the rank.
pub fn reduction_plan(dims: &[usize], dim: Option<usize>, keepdim: bool) -> (r: Result<
    ReductionPlan,
    TensorError,
>)
    requires
        prefix_products_fit(dims@),
        match dim {
            Some(d) => d < dims@.len() ==> prefix_products_fit(dims@.skip(d + 1)),
            None => true,
        },
    ensures
        dims_product(dims@) == 0 ==> r matches Err(TensorError::EmptyTensor),
        dims_product(dims@) != 0 ==> match dim {
            None => r matches Ok(p) && p.split == (AxisSplit {
                outer: 1,
                reduce: dims_product(dims@) as usize,
                inner: 1,
            }) && p.out_dims@ == (if keepdim {
                Seq::new(dims@.len(), |i: int| 1usize)
            } else {
                Seq::<usize>::empty()
            }),
            Some(d) => if d >= dims@.len() {
                r == Err::<ReductionPlan, TensorError>(
                    TensorError::DimensionOutOfBounds { dim: d, rank: dims@.len() as usize },
                )
            } else {
                r matches Ok(p) && p.split == spec_split(dims@, d as int) && p.out_dims@ == (if keepdim {
                    dims@.update(d as int, 1)
                } else {
                    dims@.remove(d as int)
                })
            },
        },
{
    let numel = Shape::new(dims).numel();
    if numel == 0 {
        return Err(TensorError::EmptyTensor);
    }
    match dim {
        None => {
            let out_dims: Vec<usize> = if keepdim {
                vec![1; dims.len()]
            } else {
                Vec::new()
            };
            proof {
                if keepdim {
                    assert(out_dims@ =~= Seq::new(dims@.len(), |i: int| 1usize));
                } else {
                    assert(out_dims@ =~= Seq::<usize>::empty());
                }
            }
            Ok(ReductionPlan { out_dims, split: AxisSplit { outer: 1, reduce: numel, inner: 1 } })
        },
        Some(d) => {
            let split = split_at_axis(dims, d)?;
            let mut out_dims = vstd::slice::slice_to_vec(dims);
            if keepdim {
                out_dims.set(d, 1);
            } else {
                out_dims.remove(d);
            }
            Ok(ReductionPlan { out_dims, split })
        },
    }
}

/// The text of the error for an embedding table that is not a matrix.
pub open spec fn embedding_rank_text(rank: nat) -> Seq<char> {
    "Embedding weight must be 2D [vocab_size, hidden_dim], found rank "@ + decimal(rank)
}

/// The first `n` tokens all lie inside a vocabulary of `vocab` entries.
pub open spec fn tokens_in_vocab(tokens: Seq<usize>, vocab: usize, n: int) -> bool {
    forall|j: int| 0 <= j < n ==> #[trigger] tokens[j] < vocab
}

/// Where the rows of an embedding table `[vocab, hidden]` for `tokens`
/// start in its row-major storage. `IncompatibleDimensions` when the table
/// is not a matrix, `IndexOutOfBounds` for the first token outside the
/// vocabulary.
pub fn embedding_rows(tokens: &[usize], weight_dims: &[usize]) -> (r: Result<Vec<usize>, TensorError>)
    requires
        weight_dims@.len() == 2 ==> forall|i: int|
            0 <= i < tokens@.len() && tokens_in_vocab(tokens@, weight_dims@[0], i + 1)
                ==> #[trigger] tokens@[i] * weight_dims@[1] <= usize::MAX,
    ensures
        weight_dims@.len() != 2 ==> (r matches Err(TensorError::IncompatibleDimensions(m))
            && m@ == embedding_rank_text(weight_dims@.len())),
        weight_dims@.len() == 2 ==> match r {
            Ok(rows) => {
                &&& forall|i: int| 0 <= i < tokens@.len() ==> #[trigger] tokens@[i] < weight_dims@[0]
                &&& rows@.len() == tokens@.len()
                &&& forall|i: int|
                    0 <= i < tokens@.len() ==> #[trigger] rows@[i] == tokens@[i] * weight_dims@[1]
            },
            Err(e) => match e {
                TensorError::IndexOutOfBounds { index, shape } => shape@ == seq![weight_dims@[0]]
                    && exists|i: int|
                    0 <= i < tokens@.len() && tokens@[i] >= weight_dims@[0] && (forall|j: int|
                        0 <= j < i ==> #[trigger] tokens@[j] < weight_dims@[0]) && index@ == seq![
                        tokens@[i],
                    ],
                _ => false,
            },
        },
{
    let rank = weight_dims.len();
    if rank != 2 {
        let mut m: Vec<char> = Vec::new();
        push_str(&mut m, "Embedding weight must be 2D [vocab_size, hidden_dim], found rank ");
        push_decimal(&mut m, rank);
        return Err(TensorError::IncompatibleDimensions(string_from_chars(m.as_slice())));
    }
    let vocab = weight_dims[0];
    let hidden = weight_dims[1];
    let mut rows: Vec<usize> = Vec::new();
    let mut i: usize = 0;
    while i < tokens.len()
        invariant
            weight_dims@.len() == 2,
            vocab == weight_dims@[0],
            hidden == weight_dims@[1],
            i <= tokens@.len(),
            rows@.len() == i,
            forall|k: int| 0 <= k < i ==> #[trigger] tokens@[k] < vocab,
            forall|k: int| 0 <= k < i ==> #[trigger] rows@[k] == tokens@[k] * hidden,
            forall|k: int|
                0 <= k < tokens@.len() && tokens_in_vocab(tokens@, vocab, k + 1)
                    ==> #[trigger] tokens@[k] * hidden <= usize::MAX,
        decreases tokens@.len() - i,
    {
        let token = tokens[i];
        if token >= vocab {
            let index = vec![token];
            let shape = vec![vocab];
            proof {
                assert(tokens@[i as int] >= weight_dims@[0]);
                assert(index@ =~= seq![tokens@[i as int]]);
                assert(shape@ =~= seq![weight_dims@[0]]);
            }
            return Err(TensorError::IndexOutOfBounds { index, shape });
        }
        proof {
            assert(tokens_in_vocab(tokens@, vocab, i + 1));
            assert(tokens@[i as int] * hidden <= usize::MAX);
        }
        rows.push(token * hidden);
        i = i + 1;
    }
    Ok(rows)
}

/// The text of the error for rotary embedding of a tensor of another rank.
pub open spec fn rope_rank_text(rank: nat) -> Seq<char> {
    "RoPE requires [seq_len, num_heads, head_dim], found rank "@ + decimal(rank)
}

/// The text of the error for rotary embedding with an odd head width.
pub open spec fn rope_width_text(head_dim: nat) -> Seq<char> {
    "RoPE requires even head dimension, found "@ + decimal(head_dim)
}

/// The sizes `(seq_len, num_heads, head_dim)` of a tensor to rotate;
/// `IncompatibleDimensions` unless it has rank 3 and an even head width.
pub fn rope_dims(dims: &[usize]) -> (r: Result<(usize, usize, usize), TensorError>)
    ensures
        dims@.len() != 3 ==> (r matches Err(TensorError::IncompatibleDimensions(m)) && m@
            == rope_rank_text(dims@.len())),
        dims@.len() == 3 && dims@[2] % 2 != 0 ==> (r matches Err(
            TensorError::IncompatibleDimensions(m),
        ) && m@ == rope_width_text(dims@[2] as nat)),
        dims@.len() == 3 && dims@[2] % 2 == 0 ==> r == Ok::<(usize, usize, usize), TensorError>(
            (dims@[0], dims@[1], dims@[2]),
        ),
{
    let rank = dims.len();
    if rank != 3 {
        let mut m: Vec<char> = Vec::new();
        push_str(&mut m, "RoPE requires [seq_len, num_heads, head_dim], found rank ");
        push_decimal(&mut m, rank);
        return Err(TensorError::IncompatibleDimensions(string_from_chars(m.as_slice())));
    }
    let head_dim = dims[2];
    if head_dim % 2 != 0 {
        let mut m: Vec<char> = Vec::new();
        push_str(&mut m, "RoPE requires even head dimension, found ");
        push_decimal(&mut m, head_dim);
        return Err(TensorError::IncompatibleDimensions(string_from_chars(m.as_slice())));
    }
    Ok((dims[0], dims[1], head_dim))
}

/// The width normalized by RMS normalization of a tensor of shape `dims`
/// with a scale of `weight_numel` elements: the last dimension.
/// `EmptyTensor` for a scalar, `ShapeMismatch` when the scale has another
/// size.
pub fn norm_width(dims: &[usize], weight_dims: &[usize], weight_numel: usize) -> (r: Result<
    usize,
    TensorError,
>)
    ensures
        dims@.len() == 0 ==> r == Err::<usize, TensorError>(TensorError::EmptyTensor),
        dims@.len() > 0 && weight_numel != dims@.last() ==> (r matches Err(
            TensorError::ShapeMismatch { expected, actual },
        ) && expected@ == seq![dims@.last()] && actual@ == weight_dims@),
        dims@.len() > 0 && weight_numel == dims@.last() ==> r == Ok::<usize, TensorError>(
            dims@.last(),
        ),
{
    let rank = dims.len();
    if rank == 0 {
        return Err(TensorError::EmptyTensor);
    }
    let hidden = dims[rank - 1];
    if weight_numel != hidden {
        let expected = vec![hidden];
        proof {
            assert(expected@ =~= seq![dims@.last()]);
        }
        return Err(
            TensorError::ShapeMismatch { expected, actual: vstd::slice::slice_to_vec(weight_dims) },
        );
    }
    Ok(hidden)
}

/// The key/value head that serves query head `h` when `num_heads` query
/// heads share `num_kv_heads` key/value heads in equal groups.
pub open spec fn spec_kv_head(h: int, num_heads: int, num_kv_heads: int) -> int {
    h / (num_heads / num_kv_heads)
}

/// Grouped key/value heads: with `G = num_heads / num_kv_heads` query heads
/// per group, the query heads `g * G .. (g + 1) * G` all read key/value
/// head `g`; in particular each query head reads its own head when there
/// are as many key/value heads as query heads.
pub proof fn kv_head_groups(h: int, num_heads: int, num_kv_heads: int, g: int)
    requires
        num_kv_heads > 0,
        num_heads / num_kv_heads > 0,
        0 <= g,
        g * (num_heads / num_kv_heads) <= h < (g + 1) * (num_heads / num_kv_heads),
    ensures
        spec_kv_head(h, num_heads, num_kv_heads) == g,
        num_heads == num_kv_heads ==> spec_kv_head(h, num_heads, num_kv_heads) == h,
{
    let gs = num_heads / num_kv_heads;
    assert(h / gs == g) by (nonlinear_arith)
        requires
            gs > 0,
            0 <= g,
            g * gs <= h < (g + 1) * gs,
    ;
    if num_heads == num_kv_heads {
        assert(num_heads / num_kv_heads == 1) by (nonlinear_arith)
            requires
                num_kv_heads > 0,
                num_heads == num_kv_heads,
        ;
        assert(h / 1 == h);
    }
}

/// The positions one query head of causal attention reads: the key/value
/// head it shares, where each of its `seq_len` query vectors starts in the
/// `[seq_len, num_heads, head_dim]` queries, where the vector of the key
/// (and value) head at each of the `total_len` cached positions starts in
/// the `[total_len, num_kv_heads, head_dim]` cache, and how many cached
/// positions each query sees (those up to its own position
/// `start_pos + s`).
#[derive(Debug)]
pub struct HeadPlan {
    pub kv_head: usize,
    pub query_offsets: Vec<usize>,
    pub key_offsets: Vec<usize>,
    pub visible: Vec<usize>,
}

/// Plans query head `h` of causal attention (see `HeadPlan`).
pub fn attention_head_plan(
    h: usize,
    num_heads: usize,
    num_kv_heads: usize,
    head_dim: usize,
    seq_len: usize,
    total_len: usize,
    start_pos: usize,
) -> (r: HeadPlan)
    requires
        num_kv_heads > 0,
        num_heads / num_kv_heads > 0,
        h < num_heads,
        num_heads * head_dim <= usize::MAX,
        seq_len * (num_heads * head_dim) <= usize::MAX,
        total_len == 0 || (total_len - 1) * (num_kv_heads * head_dim) + spec_kv_head(
            h as int,
            num_heads as int,
            num_kv_heads as int,
        ) * head_dim <= usize::MAX,
        seq_len == 0 || start_pos + (seq_len - 1) <= usize::MAX,
    ensures
        r.kv_head == spec_kv_head(h as int, num_heads as int, num_kv_heads as int),
        r.query_offsets@.len() == seq_len,
        forall|s: int|
            0 <= s < seq_len ==> #[trigger] r.query_offsets@[s] == s * (num_heads * head_dim) + h
                * head_dim,
        r.key_offsets@.len() == total_len,
        forall|t: int|
            0 <= t < total_len ==> #[trigger] r.key_offsets@[t] == t * (num_kv_heads * head_dim)
                + r.kv_head * head_dim,
        r.visible@.len() == seq_len,
        forall|s: int|
            0 <= s < seq_len ==> #[trigger] r.visible@[s] == if start_pos + s < total_len {
                start_pos + s + 1
            } else {
                total_len as int
            },
{
    let heads_per_kv = num_heads / num_kv_heads;
    let kv_head = h / heads_per_kv;
    proof {
        assert(num_kv_heads * head_dim <= num_heads * head_dim) by (nonlinear_arith)
            requires
                num_heads / num_kv_heads > 0,
                num_kv_heads > 0,
        ;
    }
    let q_stride = num_heads * head_dim;
    let k_stride = num_kv_heads * head_dim;
    proof {
        assert(h * head_dim <= num_heads * head_dim) by (nonlinear_arith)
            requires
                h < num_heads,
        ;
    }
    let q_base = h * head_dim;
    let mut query_offsets: Vec<usize> = Vec::new();
    let mut visible: Vec<usize> = Vec::new();
    let mut s: usize = 0;
    while s < seq_len
        invariant
            s <= seq_len,
            q_stride == num_heads * head_dim,
            q_base == h * head_dim,
            h < num_heads,
            seq_len * q_stride <= usize::MAX,
            seq_len == 0 || start_pos + (seq_len - 1) <= usize::MAX,
            query_offsets@.len() == s,
            visible@.len() == s,
            forall|i: int| 0 <= i < s ==> #[trigger] query_offsets@[i] == i * q_stride + q_base,
            forall|i: int|
                0 <= i < s ==> #[trigger] visible@[i] == if start_pos + i < total_len {
                    start_pos + i + 1
                } else {
                    total_len as int
                },
        decreases seq_len - s,
    {
        proof {
            assert(s * q_stride + q_base <= seq_len * q_stride) by (nonlinear_arith)
                requires
                    s < seq_len,
                    q_stride == num_heads * head_dim,
                    q_base == h * head_dim,
                    h < num_heads,
            ;
        }
        query_offsets.push(s * q_stride + q_base);
        let pos = start_pos + s;
        if pos < total_len {
            visible.push(pos + 1);
        } else {
            visible.push(total_len);
        }
        s = s + 1;
    }
    let ghost kh = kv_head as int;
    let mut key_offsets: Vec<usize> = Vec::new();
    let mut t: usize = 0;
    if total_len > 0 {
        proof {
            assert(kh * head_dim <= (total_len - 1) * k_stride + kh * head_dim) by (nonlinear_arith)
                requires
                    total_len > 0,
                    k_stride >= 0,
            ;
        }
    }
    while t < total_len
        invariant
            t <= total_len,
            k_stride == num_kv_heads * head_dim,
            kh == kv_head,
            total_len == 0 || (total_len - 1) * k_stride + kh * head_dim <= usize::MAX,
            key_offsets@.len() == t,
            forall|i: int| 0 <= i < t ==> #[trigger] key_offsets@[i] == i * k_stride + kh * head_dim,
        decreases total_len - t,
    {
        proof {
            assert(t * k_stride + kh * head_dim <= (total_len - 1) * k_stride + kh * head_dim)
                by (nonlinear_arith)
                requires
                    t < total_len,
                    k_stride >= 0,
            ;
        }
        key_offsets.push(t * k_stride + kv_head * head_dim);
        t = t + 1;
    }
    HeadPlan { kv_head, query_offsets, key_offsets, visible }
}

} // verus!
