//! Views of tensor storage: where each element of a tensor of a given shape
//! sits, given one stride per dimension and the offset of the first element.
//! Transposing, slicing and reshaping change only the view.
use vstd::prelude::*;

use crate::tensor::error::TensorError;
use crate::tensor::shape::{
    dims_product, dot_prefix, in_bounds_upto, prefix_products_fit, rank_mismatch_text,
    row_major_stride, suffix_products_fit, Shape, lemma_product_nonneg,
};
use crate::text::{decimal, push_decimal, push_str, string_from_chars};

verus! {

/// The row-major strides of `d`.
pub open spec fn row_major(d: Seq<usize>) -> Seq<usize> {
    Seq::new(d.len(), |i: int| row_major_stride(d, i) as usize)
}

/// The text of the error for transposing a tensor of rank below 2.
pub open spec fn transpose_rank_text(rank: nat) -> Seq<char> {
    "Transpose requires at least 2 dimensions, found rank "@ + decimal(rank)
}

proof fn lemma_dot_nonneg(a: Seq<usize>, b: Seq<usize>, n: int)
    ensures
        dot_prefix(a, b, n) >= 0,
    decreases n,
{
    if n > 0 {
        lemma_dot_nonneg(a, b, n - 1);
        let x = a[n - 1] as int;
        let y = b[n - 1] as int;
        assert(x * y >= 0) by (nonlinear_arith)
            requires
                x >= 0,
                y >= 0,
        ;
    }
}

/// The leading dimension of `d` (0 for a scalar).
pub open spec fn lead(d: Seq<usize>) -> nat {
    if d.len() > 0 {
        d[0] as nat
    } else {
        0
    }
}

/// Storage offsets of the elements of a view whose leading index is below
/// `n`, in row-major order of the indices: all elements with leading
/// index 0 first, then those with leading index 1, and so on.
pub open spec fn offsets_rows(dims: Seq<usize>, strides: Seq<usize>, base: int, n: nat) -> Seq<int>
    decreases dims.len(), n,
{
    if dims.len() == 0 {
        seq![base]
    } else if n == 0 {
        Seq::empty()
    } else {
        offsets_rows(dims, strides, base, (n - 1) as nat) + offsets_rows(
            dims.drop_first(),
            strides.drop_first(),
            base + (n - 1) * strides[0],
            lead(dims.drop_first()),
        )
    }
}

/// Storage offsets of all elements of the view with dimensions `dims`,
/// strides `strides` and first element at `base`, in row-major order of
/// their indices.
pub open spec fn view_offsets(dims: Seq<usize>, strides: Seq<usize>, base: int) -> Seq<int> {
    offsets_rows(dims, strides, base, lead(dims))
}

/// The integers held by a sequence of `usize`.
pub open spec fn as_ints(s: Seq<usize>) -> Seq<int> {
    Seq::new(s.len(), |i: int| s[i] as int)
}

/// Every offset of the view fits in a `usize`.
pub open spec fn offsets_fit(dims: Seq<usize>, strides: Seq<usize>, base: int) -> bool {
    forall|k: int|
        0 <= k < view_offsets(dims, strides, base).len() ==> #[trigger] view_offsets(
            dims,
            strides,
            base,
        )[k] <= usize::MAX
}

pub open spec fn all_positive(d: Seq<usize>) -> bool {
    forall|i: int| 0 <= i < d.len() ==> #[trigger] d[i] > 0
}

proof fn lemma_rows_prefix(dims: Seq<usize>, strides: Seq<usize>, base: int, m: nat, n: nat)
    requires
        m <= n,
        dims.len() > 0,
    ensures
        offsets_rows(dims, strides, base, m).is_prefix_of(offsets_rows(dims, strides, base, n)),
    decreases n,
{
    let a = offsets_rows(dims, strides, base, m);
    if m == n {
        assert(a =~= a.subrange(0, a.len() as int));
    } else {
        lemma_rows_prefix(dims, strides, base, m, (n - 1) as nat);
        let b = offsets_rows(dims, strides, base, (n - 1) as nat);
        let c = offsets_rows(dims, strides, base, n);
        assert(a =~= c.subrange(0, a.len() as int)) by {
            assert forall|i: int| 0 <= i < a.len() implies a[i] == c.subrange(0, a.len() as int)[i] by {
                assert(a[i] == b.subrange(0, a.len() as int)[i]);
                assert(c[i] == b[i]);
            }
        }
    }
}

proof fn lemma_rows_first(dims: Seq<usize>, strides: Seq<usize>, base: int, m: nat)
    requires
        dims.len() == 0 || m >= 1,
        all_positive(dims),
    ensures
        offsets_rows(dims, strides, base, m).len() > 0,
        offsets_rows(dims, strides, base, m)[0] == base,
    decreases dims.len(), m,
{
    if dims.len() > 0 {
        let t = dims.drop_first();
        assert(all_positive(t)) by {
            assert forall|i: int| 0 <= i < t.len() implies #[trigger] t[i] > 0 by {
                assert(t[i] == dims[i + 1]);
            }
        }
        if m == 1 {
            if t.len() > 0 {
                assert(t[0] > 0);
            }
            lemma_rows_first(t, strides.drop_first(), base + 0 * strides[0], lead(t));
            assert(offsets_rows(dims, strides, base, 0) =~= Seq::<int>::empty());
        } else {
            lemma_rows_first(dims, strides, base, (m - 1) as nat);
        }
    }
}

proof fn lemma_rows_len(dims: Seq<usize>, strides: Seq<usize>, base: int, m: nat)
    requires
        dims.len() > 0,
    ensures
        offsets_rows(dims, strides, base, m).len() == m * dims_product(dims.drop_first()),
    decreases dims.len(), m + 1,
{
    let t = dims.drop_first();
    let p = dims_product(t);
    if m > 0 {
        let m1 = (m - 1) as nat;
        lemma_rows_len(dims, strides, base, m1);
        lemma_view_len(t, strides.drop_first(), base + m1 * strides[0]);
        assert(offsets_rows(dims, strides, base, m).len() == m1 * p + p);
        assert(m1 * p + p == m * p) by (nonlinear_arith)
            requires
                m1 + 1 == m,
        ;
    } else {
        assert(0 * p == 0);
    }
}

proof fn lemma_view_len(dims: Seq<usize>, strides: Seq<usize>, base: int)
    ensures
        view_offsets(dims, strides, base).len() == dims_product(dims),
    decreases dims.len(), lead(dims) + 2,
{
    if dims.len() > 0 {
        lemma_rows_len(dims, strides, base, lead(dims));
    }
}

proof fn lemma_positive_dims(d: Seq<usize>)
    requires
        dims_product(d) != 0,
    ensures
        all_positive(d),
    decreases d.len(),
{
    if d.len() > 0 {
        let x = d[0] as int;
        let p = dims_product(d.drop_first());
        assert(x != 0 && p != 0) by (nonlinear_arith)
            requires
                x * p != 0,
        ;
        lemma_positive_dims(d.drop_first());
        assert forall|i: int| 0 <= i < d.len() implies #[trigger] d[i] > 0 by {
            if i > 0 {
                assert(d[i] == d.drop_first()[i - 1]);
            }
        }
    }
}

fn push_view_offsets(dims: &[usize], strides: &[usize], level: usize, base: usize, out: &mut Vec<usize>)
    requires
        level <= dims@.len(),
        dims@.len() == strides@.len(),
        all_positive(dims@),
        offsets_fit(dims@.skip(level as int), strides@.skip(level as int), base as int),
    ensures
        as_ints(final(out)@) == as_ints(old(out)@) + view_offsets(
            dims@.skip(level as int),
            strides@.skip(level as int),
            base as int,
        ),
    decreases dims@.len() - level,
{
    let ghost start = out@;
    let ghost d = dims@.skip(level as int);
    let ghost st = strides@.skip(level as int);
    if level == dims.len() {
        out.push(base);
        proof {
            assert(d.len() == 0);
            assert(as_ints(out@) =~= as_ints(start) + view_offsets(d, st, base as int));
        }
        return ;
    }
    let n = dims[level];
    let stride = strides[level];
    proof {
        assert(d[0] == n && st[0] == stride);
        assert(d.drop_first() =~= dims@.skip(level + 1));
        assert(st.drop_first() =~= strides@.skip(level + 1));
        assert(offsets_rows(d, st, base as int, 0) =~= Seq::<int>::empty());
        assert(as_ints(out@) =~= as_ints(start) + offsets_rows(d, st, base as int, 0));
    }
    let mut c: usize = 0;
    while c < n
        invariant
            d == dims@.skip(level as int),
            st == strides@.skip(level as int),
            level < dims@.len(),
            dims@.len() <= usize::MAX,
            dims@.len() == strides@.len(),
            all_positive(dims@),
            n == d[0],
            stride == st[0],
            d.drop_first() == dims@.skip(level + 1),
            st.drop_first() == strides@.skip(level + 1),
            c <= n,
            offsets_fit(d, st, base as int),
            as_ints(out@) == as_ints(start) + offsets_rows(d, st, base as int, c as nat),
        decreases n - c,
    {
        let ghost before = out@;
        let ghost t = d.drop_first();
        let ghost ts = st.drop_first();
        let ghost b2: int = base + c * stride;
        proof {
            assert(all_positive(t)) by {
                assert forall|i: int| 0 <= i < t.len() implies #[trigger] t[i] > 0 by {
                    assert(t[i] == dims@[level + 1 + i]);
                }
            }
            lemma_rows_prefix(d, st, base as int, (c + 1) as nat, n as nat);
            let whole = view_offsets(d, st, base as int);
            let pre = offsets_rows(d, st, base as int, c as nat);
            let chunk = offsets_rows(t, ts, b2, lead(t));
            let upto = offsets_rows(d, st, base as int, (c + 1) as nat);
            assert(upto == pre + chunk);
            if t.len() > 0 {
                assert(t[0] > 0);
            }
            lemma_rows_first(t, ts, b2, lead(t));
            assert(upto[pre.len() as int] == chunk[0]);
            assert(upto[pre.len() as int] == whole[pre.len() as int]);
            assert(b2 <= usize::MAX);
            assert forall|k: int| 0 <= k < view_offsets(t, ts, b2).len() implies #[trigger] view_offsets(
                t,
                ts,
                b2,
            )[k] <= usize::MAX by {
                assert(upto[pre.len() + k] == chunk[k]);
                assert(upto[pre.len() + k] == whole[pre.len() + k]);
            }
            let cs = c as int * stride as int;
            assert(cs >= 0) by (nonlinear_arith)
                requires
                    cs == c as int * stride as int,
            ;
        }
        let next_base = base + c * stride;
        push_view_offsets(dims, strides, level + 1, next_base, out);
        proof {
            assert(as_ints(out@) =~= as_ints(start) + offsets_rows(d, st, base as int, (c + 1) as nat));
        }
        c = c + 1;
    }
}

proof fn lemma_row_major_tail(dims: Seq<usize>)
    requires
        dims.len() > 0,
        suffix_products_fit(dims),
    ensures
        row_major(dims).drop_first() == row_major(dims.drop_first()),
        row_major(dims)[0] == dims_product(dims.drop_first()),
        suffix_products_fit(dims.drop_first()),
{
    let t = dims.drop_first();
    assert forall|i: int| 0 <= i < t.len() implies #[trigger] row_major(dims).drop_first()[i] == row_major(t)[i] by {
        assert(dims.skip(i + 2) =~= t.skip(i + 1));
    }
    assert(row_major(dims).drop_first() =~= row_major(t));
    assert(dims.skip(1) =~= t);
    lemma_product_nonneg(t);
    assert(dims_product(dims.skip(1)) <= usize::MAX);
    assert forall|j: int| 1 <= j <= t.len() implies #[trigger] dims_product(t.skip(j)) <= usize::MAX by {
        assert(t.skip(j) =~= dims.skip(j + 1));
        assert(dims_product(dims.skip(j + 1)) <= usize::MAX);
    }
}

proof fn lemma_row_major_rows(dims: Seq<usize>, base: int, m: nat)
    requires
        dims.len() > 0,
        suffix_products_fit(dims),
    ensures
        offsets_rows(dims, row_major(dims), base, m) == Seq::new(
            m * dims_product(dims.drop_first()) as nat,
            |k: int| base + k,
        ),
    decreases dims.len(), m + 1,
{
    let t = dims.drop_first();
    let p = dims_product(t);
    lemma_row_major_tail(dims);
    lemma_product_nonneg(t);
    if m == 0 {
        assert(offsets_rows(dims, row_major(dims), base, m) =~= Seq::new(
            m * p as nat,
            |k: int| base + k,
        ));
    } else {
        let m1 = (m - 1) as nat;
        lemma_row_major_rows(dims, base, m1);
        let b2 = base + m1 * row_major(dims)[0];
        lemma_row_major_view(t, b2);
        assert(m1 * p + p == m * p) by (nonlinear_arith)
            requires
                m1 + 1 == m,
        ;
        assert(m1 * p >= 0) by (nonlinear_arith)
            requires
                p >= 0,
        ;
        assert(offsets_rows(dims, row_major(dims), base, m) =~= Seq::new(
            m * p as nat,
            |k: int| base + k,
        ));
    }
}

proof fn lemma_row_major_view(dims: Seq<usize>, base: int)
    requires
        suffix_products_fit(dims),
    ensures
        view_offsets(dims, row_major(dims), base) == Seq::new(
            dims_product(dims) as nat,
            |k: int| base + k,
        ),
    decreases dims.len(), lead(dims) + 2,
{
    if dims.len() == 0 {
        assert(view_offsets(dims, row_major(dims), base) =~= Seq::new(
            dims_product(dims) as nat,
            |k: int| base + k,
        ));
    } else {
        lemma_row_major_rows(dims, base, lead(dims));
        lemma_product_nonneg(dims.drop_first());
        assert(dims_product(dims) == lead(dims) * dims_product(dims.drop_first()));
        assert(view_offsets(dims, row_major(dims), base) =~= Seq::new(
            dims_product(dims) as nat,
            |k: int| base + k,
        ));
    }
}

/// A dense row-major view lists consecutive storage positions: its `k`-th
/// element in row-major order sits at the offset plus `k`.
pub proof fn lemma_contiguous_offsets(dims: Seq<usize>, base: int)
    requires
        suffix_products_fit(dims),
    ensures
        view_offsets(dims, row_major(dims), base).len() == dims_product(dims),
        forall|k: int|
            0 <= k < dims_product(dims) ==> #[trigger] view_offsets(dims, row_major(dims), base)[k]
                == base + k,
{
    lemma_row_major_view(dims, base);
    lemma_product_nonneg(dims);
}

/// The index of the `k`-th element of a shape in row-major order: the
/// leading index is `k` divided by the size of the rest, and the rest is
/// the index of the remainder in the trailing dimensions.
pub open spec fn unravel(d: Seq<usize>, k: int) -> Seq<usize>
    decreases d.len(),
{
    if d.len() == 0 {
        Seq::empty()
    } else {
        let p = dims_product(d.drop_first());
        seq![(k / p) as usize] + unravel(d.drop_first(), k % p)
    }
}

proof fn lemma_rows_index(dims: Seq<usize>, strides: Seq<usize>, base: int, m: nat, k: int)
    requires
        dims.len() > 0,
        0 <= k < m * dims_product(dims.drop_first()),
    ensures
        dims_product(dims.drop_first()) > 0,
        0 <= k / dims_product(dims.drop_first()) < m,
        0 <= k % dims_product(dims.drop_first()) < dims_product(dims.drop_first()),
        offsets_rows(dims, strides, base, m)[k] == view_offsets(
            dims.drop_first(),
            strides.drop_first(),
            base + (k / dims_product(dims.drop_first())) * strides[0],
        )[k % dims_product(dims.drop_first())],
    decreases m,
{
    let t = dims.drop_first();
    let p = dims_product(t);
    lemma_product_nonneg(t);
    assert(p > 0 && m >= 1) by (nonlinear_arith)
        requires
            p >= 0,
            0 <= k < m * p,
    ;
    let m1 = (m - 1) as nat;
    lemma_rows_len(dims, strides, base, m1);
    assert(m1 * p + p == m * p) by (nonlinear_arith)
        requires
            m1 + 1 == m,
    ;
    if k < m1 * p {
        lemma_rows_index(dims, strides, base, m1, k);
    } else {
        let r = k - m1 * p;
        assert(0 <= r < p);
        vstd::arithmetic::div_mod::lemma_fundamental_div_mod_converse(k, p, m1 as int, r);
        let pre = offsets_rows(dims, strides, base, m1);
        let chunk = offsets_rows(t, strides.drop_first(), base + m1 * strides[0], lead(t));
        assert(offsets_rows(dims, strides, base, m) == pre + chunk);
        assert(pre.len() == m1 * p);
        lemma_view_len(t, strides.drop_first(), base + m1 * strides[0]);
        assert((pre + chunk)[k] == chunk[r]);
    }
}

proof fn lemma_dot_front(a: Seq<usize>, b: Seq<usize>, n: int)
    requires
        1 <= n <= a.len(),
        n <= b.len(),
    ensures
        dot_prefix(a, b, n) == a[0] * b[0] + dot_prefix(a.drop_first(), b.drop_first(), n - 1),
    decreases n,
{
    reveal_with_fuel(dot_prefix, 2);
    if n > 1 {
        lemma_dot_front(a, b, n - 1);
        assert(a.drop_first()[n - 2] == a[n - 1]);
        assert(b.drop_first()[n - 2] == b[n - 1]);
    }
}

/// Packing a view reads its elements in row-major order of their indices:
/// the `k`-th offset of the view is the storage position of the element at
/// index `unravel(dims, k)`, which lies inside the shape.
pub proof fn lemma_offsets_follow_indices(dims: Seq<usize>, strides: Seq<usize>, base: int, k: int)
    requires
        strides.len() == dims.len(),
        0 <= k < dims_product(dims),
    ensures
        unravel(dims, k).len() == dims.len(),
        in_bounds_upto(unravel(dims, k), dims, dims.len() as int),
        view_offsets(dims, strides, base)[k] == base + dot_prefix(
            unravel(dims, k),
            strides,
            dims.len() as int,
        ),
    decreases dims.len(),
{
    if dims.len() > 0 {
        let t = dims.drop_first();
        let p = dims_product(t);
        let d0 = dims[0];
        assert(dims_product(dims) == d0 * p);
        lemma_rows_index(dims, strides, base, d0 as nat, k);
        let c = k / p;
        let r = k % p;
        assert(r < dims_product(t));
        lemma_offsets_follow_indices(t, strides.drop_first(), base + c * strides[0], r);
        let u = unravel(dims, k);
        assert(u == seq![c as usize] + unravel(t, r));
        assert(u.drop_first() =~= unravel(t, r));
        assert(u[0] == c);
        lemma_dot_front(u, strides, dims.len() as int);
        assert forall|i: int| 0 <= i < dims.len() implies #[trigger] u[i] < dims[i] by {
            if i > 0 {
                assert(u[i] == unravel(t, r)[i - 1]);
                assert(dims[i] == t[i - 1]);
            }
        }
    }
}

/// Transposing the same two dimensions twice gives back the view.
pub proof fn lemma_transpose_twice(s: Seq<usize>, i: int, j: int)
    requires
        0 <= i < s.len(),
        0 <= j < s.len(),
    ensures
        swap_at(swap_at(s, i, j), i, j) == s,
{
    assert(swap_at(swap_at(s, i, j), i, j) =~= s);
}

/// `s` with the entries at `i` and `j` exchanged.
pub open spec fn swap_at(s: Seq<usize>, i: int, j: int) -> Seq<usize> {
    s.update(i, s[j]).update(j, s[i])
}

/// Shape, strides (one per dimension) and offset of the first element.
#[derive(Debug)]
pub struct TensorLayout {
    shape: Shape,
    strides: Vec<usize>,
    offset: usize,
}

impl TensorLayout {
    #[verifier::type_invariant]
    closed spec fn inv(self) -> bool {
        self.strides@.len() == self.shape@.len()
    }

    pub closed spec fn spec_dims(&self) -> Seq<usize> {
        self.shape@
    }

    pub closed spec fn spec_strides(&self) -> Seq<usize> {
        self.strides@
    }

    pub closed spec fn spec_offset(&self) -> usize {
        self.offset
    }

    /// The view is row-major and dense: a scalar, or strides equal to the
    /// row-major strides of the shape.
    pub open spec fn spec_is_contiguous(&self) -> bool {
        self.spec_dims().len() == 0 || self.spec_strides() == row_major(self.spec_dims())
    }

    /// A view with the given parts; `None` when the number of strides
    /// differs from the rank.
    pub fn from_parts(shape: Shape, strides: Vec<usize>, offset: usize) -> (r: Option<Self>)
        ensures
            strides@.len() == shape@.len() ==> (r matches Some(l) && l.spec_dims() == shape@
                && l.spec_strides() == strides@ && l.spec_offset() == offset),
            strides@.len() != shape@.len() ==> r is None,
    {
        if strides.len() == shape.rank() {
            Some(TensorLayout { shape, strides, offset })
        } else {
            None
        }
    }

    /// An equal view.
    pub fn duplicate(&self) -> (r: Self)
        ensures
            r.spec_dims() == self.spec_dims(),
            r.spec_strides() == self.spec_strides(),
            r.spec_offset() == self.spec_offset(),
    {
        proof {
            use_type_invariant(self);
        }
        TensorLayout {
            shape: Shape::new(self.shape.dims()),
            strides: vstd::slice::slice_to_vec(self.strides.as_slice()),
            offset: self.offset,
        }
    }

    /// The dense row-major view of `dims` starting at offset 0.
    pub fn row_major(dims: &[usize]) -> (r: Self)
        requires
            suffix_products_fit(dims@),
        ensures
            r.spec_dims() == dims@,
            r.spec_strides() == row_major(dims@),
            r.spec_offset() == 0,
    {
        let shape = Shape::new(dims);
        let strides = shape.default_strides();
        proof {
            assert(strides@ =~= row_major(dims@));
        }
        TensorLayout { shape, strides, offset: 0 }
    }

    pub fn shape(&self) -> (r: &Shape)
        ensures
            r@ == self.spec_dims(),
    {
        &self.shape
    }

    pub fn dims(&self) -> (r: &[usize])
        ensures
            r@ == self.spec_dims(),
    {
        self.shape.dims()
    }

    pub fn rank(&self) -> (r: usize)
        ensures
            r == self.spec_dims().len(),
    {
        self.shape.rank()
    }

    pub fn strides(&self) -> (r: &[usize])
        ensures
            r@ == self.spec_strides(),
            r@.len() == self.spec_dims().len(),
    {
        proof {
            use_type_invariant(self);
        }
        self.strides.as_slice()
    }

    pub fn offset(&self) -> (r: usize)
        ensures
            r == self.spec_offset(),
    {
        self.offset
    }

    /// Number of elements.
    pub fn numel(&self) -> (r: usize)
        requires
            prefix_products_fit(self.spec_dims()),
        ensures
            r == dims_product(self.spec_dims()),
    {
        self.shape.numel()
    }

    /// Whether the view is dense and row-major (see `spec_is_contiguous`).
    pub fn is_contiguous(&self) -> (r: bool)
        requires
            suffix_products_fit(self.spec_dims()),
        ensures
            r == self.spec_is_contiguous(),
    {
        proof {
            use_type_invariant(self);
        }
        if self.shape.rank() == 0 {
            return true;
        }
        let expected = self.shape.default_strides();
        let mut i: usize = 0;
        while i < expected.len()
            invariant
                expected@.len() == self.strides@.len(),
                self.strides@.len() == self.spec_dims().len(),
                self.spec_dims().len() > 0,
                i <= expected@.len(),
                forall|k: int| 0 <= k < expected@.len() ==> #[trigger] expected@[k] == row_major(self.spec_dims())[k],
                forall|k: int| 0 <= k < i ==> self.strides@[k] == expected@[k],
            decreases expected@.len() - i,
        {
            if self.strides[i] != expected[i] {
                proof {
                    assert(self.strides@[i as int] != row_major(self.spec_dims())[i as int]);
                }
                return false;
            }
            i = i + 1;
        }
        proof {
            assert forall|k: int| 0 <= k < self.strides@.len() implies self.strides@[k] == row_major(
                self.spec_dims(),
            )[k] by {
                assert(self.strides@[k] == expected@[k]);
            }
            assert(self.strides@ =~= row_major(self.spec_dims()));
        }
        true
    }

    /// Exchanges dimensions `dim0` and `dim1` (with their strides); the
    /// storage is untouched. `DimensionOutOfBounds` (naming the larger of
    /// the two) when either is not below the rank.
    pub fn transpose(&self, dim0: usize, dim1: usize) -> (r: Result<Self, TensorError>)
        ensures
            (dim0 >= self.spec_dims().len() || dim1 >= self.spec_dims().len()) ==> r == Err::<
                Self,
                TensorError,
            >(
                TensorError::DimensionOutOfBounds {
                    dim: if dim0 >= dim1 {
                        dim0
                    } else {
                        dim1
                    },
                    rank: self.spec_dims().len() as usize,
                },
            ),
            (dim0 < self.spec_dims().len() && dim1 < self.spec_dims().len()) ==> (r matches Ok(l) && {
                &&& l.spec_dims() == swap_at(self.spec_dims(), dim0 as int, dim1 as int)
                &&& l.spec_strides() == swap_at(self.spec_strides(), dim0 as int, dim1 as int)
                &&& l.spec_offset() == self.spec_offset()
            }),
    {
        proof {
            use_type_invariant(self);
        }
        let rank = self.shape.rank();
        if dim0 >= rank || dim1 >= rank {
            let dim = if dim0 >= dim1 {
                dim0
            } else {
                dim1
            };
            return Err(TensorError::DimensionOutOfBounds { dim, rank });
        }
        let mut new_dims = vstd::slice::slice_to_vec(self.shape.dims());
        let mut new_strides = vstd::slice::slice_to_vec(self.strides.as_slice());
        let d0 = new_dims[dim0];
        let d1 = new_dims[dim1];
        new_dims.set(dim0, d1);
        new_dims.set(dim1, d0);
        let s0 = new_strides[dim0];
        let s1 = new_strides[dim1];
        new_strides.set(dim0, s1);
        new_strides.set(dim1, s0);
        proof {
            assert(new_dims@ =~= swap_at(self.spec_dims(), dim0 as int, dim1 as int));
            assert(new_strides@ =~= swap_at(self.spec_strides(), dim0 as int, dim1 as int));
        }
        Ok(TensorLayout { shape: Shape::from_dims(new_dims), strides: new_strides, offset: self.offset })
    }

    /// Exchanges the last two dimensions; `IncompatibleDimensions` below
    /// rank 2.
    pub fn t(&self) -> (r: Result<Self, TensorError>)
        ensures
            self.spec_dims().len() < 2 ==> (r matches Err(TensorError::IncompatibleDimensions(m))
                && m@ == transpose_rank_text(self.spec_dims().len())),
            self.spec_dims().len() >= 2 ==> (r matches Ok(l) && {
                let n = self.spec_dims().len() as int;
                &&& l.spec_dims() == swap_at(self.spec_dims(), n - 2, n - 1)
                &&& l.spec_strides() == swap_at(self.spec_strides(), n - 2, n - 1)
                &&& l.spec_offset() == self.spec_offset()
            }),
    {
        let rank = self.shape.rank();
        if rank < 2 {
            let mut m: Vec<char> = Vec::new();
            push_str(&mut m, "Transpose requires at least 2 dimensions, found rank ");
            push_decimal(&mut m, rank);
            return Err(TensorError::IncompatibleDimensions(string_from_chars(m.as_slice())));
        }
        self.transpose(rank - 2, rank - 1)
    }

    /// The elements `start..end` along dimension `dim`; the storage is
    /// shared. `DimensionOutOfBounds` when `dim` is not below the rank,
    /// `InvalidSlice` when the range is reversed or runs past the dimension.
    pub fn slice(&self, dim: usize, start: usize, end: usize) -> (r: Result<Self, TensorError>)
        requires
            dim < self.spec_dims().len() && start <= end <= self.spec_dims()[dim as int]
                ==> self.spec_offset() + start * self.spec_strides()[dim as int] <= usize::MAX,
        ensures
            dim >= self.spec_dims().len() ==> r == Err::<Self, TensorError>(
                TensorError::DimensionOutOfBounds { dim, rank: self.spec_dims().len() as usize },
            ),
            dim < self.spec_dims().len() && !(start <= end <= self.spec_dims()[dim as int]) ==> r
                == Err::<Self, TensorError>(
                TensorError::InvalidSlice { dim, start, end, size: self.spec_dims()[dim as int] },
            ),
            dim < self.spec_dims().len() && start <= end <= self.spec_dims()[dim as int] ==> (r matches Ok(
                l,
            ) && {
                &&& l.spec_dims() == self.spec_dims().update(dim as int, (end - start) as usize)
                &&& l.spec_strides() == self.spec_strides()
                &&& l.spec_offset() == self.spec_offset() + start * self.spec_strides()[dim as int]
            }),
    {
        proof {
            use_type_invariant(self);
        }
        let rank = self.shape.rank();
        if dim >= rank {
            return Err(TensorError::DimensionOutOfBounds { dim, rank });
        }
        let dim_size = self.shape.dims()[dim];
        if start > end || end > dim_size {
            return Err(TensorError::InvalidSlice { dim, start, end, size: dim_size });
        }
        let new_offset = self.offset + start * self.strides[dim];
        let mut new_dims = vstd::slice::slice_to_vec(self.shape.dims());
        new_dims.set(dim, end - start);
        let new_strides = vstd::slice::slice_to_vec(self.strides.as_slice());
        Ok(TensorLayout { shape: Shape::from_dims(new_dims), strides: new_strides, offset: new_offset })
    }

    /// The same elements with a new shape of the same size, laid out
    /// row-major: at the same offset when the view is contiguous, else at
    /// offset 0 of a packed copy. `InvalidReshape` when the sizes differ.
    pub fn reshape(&self, new_shape: &[usize]) -> (r: Result<Self, TensorError>)
        requires
            prefix_products_fit(self.spec_dims()),
            suffix_products_fit(self.spec_dims()),
            prefix_products_fit(new_shape@),
            suffix_products_fit(new_shape@),
        ensures
            dims_product(new_shape@) != dims_product(self.spec_dims()) ==> (r matches Err(
                TensorError::InvalidReshape { from, to },
            ) && from@ == self.spec_dims() && to@ == new_shape@),
            dims_product(new_shape@) == dims_product(self.spec_dims()) ==> (r matches Ok(l) && {
                &&& l.spec_dims() == new_shape@
                &&& l.spec_strides() == row_major(new_shape@)
                &&& l.spec_offset() == (if self.spec_is_contiguous() {
                    self.spec_offset()
                } else {
                    0
                })
            }),
    {
        let new_shape_obj = Shape::new(new_shape);
        if new_shape_obj.numel() != self.shape.numel() {
            return Err(
                TensorError::InvalidReshape {
                    from: vstd::slice::slice_to_vec(self.shape.dims()),
                    to: vstd::slice::slice_to_vec(new_shape),
                },
            );
        }
        let offset = if self.is_contiguous() {
            self.offset
        } else {
            0
        };
        let strides = new_shape_obj.default_strides();
        proof {
            assert(strides@ =~= row_major(new_shape@));
        }
        Ok(TensorLayout { shape: new_shape_obj, strides, offset })
    }

    /// Storage position of the element at `indices`: the offset plus the
    /// indices weighted by the strides, after the checks of
    /// `Shape::compute_offset`.
    pub fn element_offset(&self, indices: &[usize]) -> (r: Result<usize, TensorError>)
        requires
            indices@.len() == self.spec_dims().len() ==> forall|k: int|
                0 <= k < self.spec_dims().len() && #[trigger] in_bounds_upto(
                    indices@,
                    self.spec_dims(),
                    k + 1,
                ) ==> self.spec_offset() + dot_prefix(indices@, self.spec_strides(), k + 1)
                    <= usize::MAX,
        ensures
            indices@.len() != self.spec_dims().len() ==> (r matches Err(
                TensorError::IncompatibleDimensions(m),
            ) && m@ == rank_mismatch_text(indices@.len(), self.spec_dims().len())),
            indices@.len() == self.spec_dims().len() && !in_bounds_upto(
                indices@,
                self.spec_dims(),
                self.spec_dims().len() as int,
            ) ==> (r matches Err(TensorError::IndexOutOfBounds { index, shape }) && index@
                == indices@ && shape@ == self.spec_dims()),
            indices@.len() == self.spec_dims().len() && in_bounds_upto(
                indices@,
                self.spec_dims(),
                self.spec_dims().len() as int,
            ) ==> r == Ok::<usize, TensorError>(
                (self.spec_offset() + dot_prefix(
                    indices@,
                    self.spec_strides(),
                    self.spec_dims().len() as int,
                )) as usize,
            ),
    {
        proof {
            use_type_invariant(self);
        }
        let st = self.strides.as_slice();
        proof {
            assert(st@ == self.strides@);
            if indices@.len() == self.shape@.len() {
                assert forall|k: int|
                    0 <= k < self.shape@.len() && #[trigger] in_bounds_upto(indices@, self.shape@, k + 1)
                        implies k < st@.len() && dot_prefix(indices@, st@, k + 1) <= usize::MAX by {
                    assert(self.spec_dims() == self.shape@);
                    assert(in_bounds_upto(indices@, self.spec_dims(), k + 1));
                    assert(self.spec_offset() + dot_prefix(indices@, self.spec_strides(), k + 1)
                        <= usize::MAX);
                }
            }
        }
        let off = match self.shape.compute_offset(indices, st) {
            Ok(o) => o,
            Err(e) => {
                return Err(e);
            },
        };
        proof {
            let n = self.spec_dims().len() as int;
            assert(indices@.len() == n);
            assert(in_bounds_upto(indices@, self.spec_dims(), n));
            if n > 0 {
                assert(in_bounds_upto(indices@, self.spec_dims(), (n - 1) + 1));
                assert(self.spec_offset() + dot_prefix(indices@, self.spec_strides(), (n - 1) + 1)
                    <= usize::MAX);
            }
            lemma_dot_nonneg(indices@, self.spec_strides(), n);
            assert(off == dot_prefix(indices@, self.spec_strides(), n));
        }
        Ok(self.offset + off)
    }

    /// Storage offsets of all elements, in row-major order of their
    /// indices (the order in which a packed copy holds them).
    pub fn element_offsets(&self) -> (r: Vec<usize>)
        requires
            prefix_products_fit(self.spec_dims()),
            offsets_fit(self.spec_dims(), self.spec_strides(), self.spec_offset() as int),
        ensures
            as_ints(r@) == view_offsets(self.spec_dims(), self.spec_strides(), self.spec_offset() as int),
    {
        proof {
            use_type_invariant(self);
        }
        let mut out: Vec<usize> = Vec::new();
        let dims = self.shape.dims();
        let strides = self.strides.as_slice();
        if self.shape.numel() == 0 {
            proof {
                lemma_view_len(dims@, strides@, self.offset as int);
                assert(as_ints(out@) =~= view_offsets(dims@, strides@, self.offset as int));
            }
            return out;
        }
        proof {
            lemma_positive_dims(dims@);
            assert(dims@.skip(0) =~= dims@);
            assert(strides@.skip(0) =~= strides@);
            assert(as_ints(out@) =~= Seq::<int>::empty());
        }
        push_view_offsets(dims, strides, 0, self.offset, &mut out);
        proof {
            assert(Seq::<int>::empty() + view_offsets(dims@, strides@, self.offset as int) =~= view_offsets(
                dims@,
                strides@,
                self.offset as int,
            ));
        }
        out
    }
}

} // verus!
