use mini_llm::tensor::plan::{
    attention_head_plan, embedding_rows, matmul_plan, matrix_dims_2d, norm_width, reduction_plan, rope_dims, split_at_axis, AxisSplit,
};
use mini_llm::tensor::{Shape, TensorError, TensorLayout};

#[test]
fn test_shape_and_strides() {
    let s = Shape::new(&[2, 3, 4]);
    assert_eq!(s.rank(), 3);
    assert_eq!(s.numel(), 24);
    assert_eq!(s.default_strides(), vec![12, 4, 1]);

    let scalar_s = Shape::scalar();
    assert_eq!(scalar_s.rank(), 0);
    assert_eq!(scalar_s.numel(), 1);
    assert_eq!(scalar_s.default_strides(), Vec::<usize>::new());
}

#[test]
fn test_shape_broadcasting() {
    let s1 = Shape::new(&[2, 1, 4]);
    let s2 = Shape::new(&[3, 4]);
    let b = Shape::broadcast_shapes(&s1, &s2).unwrap();
    assert_eq!(b.dims(), &[2, 3, 4]);

    let s3 = Shape::new(&[2, 3]);
    let s4 = Shape::new(&[2, 4]);
    assert!(Shape::broadcast_shapes(&s3, &s4).is_err());
}

/// Reads the element at `indices` of a view over `data`.
fn get(layout: &TensorLayout, data: &[f32], indices: &[usize]) -> Result<f32, TensorError> {
    let off = layout.element_offset(indices)?;
    Ok(data[off])
}

/// Packs the elements of a view over `data` in row-major order.
fn to_vec(layout: &TensorLayout, data: &[f32]) -> Vec<f32> {
    layout.element_offsets().into_iter().map(|o| data[o]).collect()
}

#[test]
fn test_tensor_creation_and_indexing() {
    let t = TensorLayout::row_major(&[2, 3]);
    let mut data = vec![0.0f32; t.numel()];
    assert_eq!(t.numel(), 6);
    assert_eq!(get(&t, &data, &[0, 0]).unwrap(), 0.0);

    let off = t.element_offset(&[1, 2]).unwrap();
    data[off] = 42.0;
    assert_eq!(get(&t, &data, &[1, 2]).unwrap(), 42.0);
    assert_eq!(get(&t, &data, &[0, 1]).unwrap(), 0.0);

    // Out of bounds check
    assert!(get(&t, &data, &[2, 0]).is_err());
    assert!(get(&t, &data, &[0, 3]).is_err());
}

#[test]
fn test_strided_transpose_and_contiguous() {
    // 2x3 matrix:
    // [1, 2, 3]
    // [4, 5, 6]
    let data = vec![1.0, 2.0, 3.0, 4.0, 5.0, 6.0];
    let t = TensorLayout::row_major(&[2, 3]);
    assert!(t.is_contiguous());

    let trans = t.t().unwrap();
    assert_eq!(trans.dims(), &[3, 2]);
    assert_eq!(trans.strides(), &[1, 3]); // Strides swapped!
    assert!(!trans.is_contiguous()); // Now non-contiguous

    // Logical index verification
    assert_eq!(get(&trans, &data, &[0, 0]).unwrap(), 1.0);
    assert_eq!(get(&trans, &data, &[0, 1]).unwrap(), 4.0);
    assert_eq!(get(&trans, &data, &[1, 0]).unwrap(), 2.0);
    assert_eq!(get(&trans, &data, &[1, 1]).unwrap(), 5.0);
    assert_eq!(get(&trans, &data, &[2, 0]).unwrap(), 3.0);
    assert_eq!(get(&trans, &data, &[2, 1]).unwrap(), 6.0);

    // Materializing contiguous layout
    let packed = to_vec(&trans, &data);
    let contig = TensorLayout::row_major(trans.dims());
    assert!(contig.is_contiguous());
    assert_eq!(contig.strides(), &[2, 1]);
    assert_eq!(packed, vec![1.0, 4.0, 2.0, 5.0, 3.0, 6.0]);
}

#[test]
fn test_zero_copy_slice() {
    let data: Vec<f32> = (0..12).map(|x| x as f32).collect();
    let t = TensorLayout::row_major(&[3, 4]);
    // Slice rows 1..3
    let sl = t.slice(0, 1, 3).unwrap();
    assert_eq!(sl.dims(), &[2, 4]);
    assert_eq!(sl.offset(), 4); // Row 1 starts at index 4

    assert_eq!(get(&sl, &data, &[0, 0]).unwrap(), 4.0);
    assert_eq!(get(&sl, &data, &[1, 3]).unwrap(), 11.0);
}

#[test]
fn test_error_handling_edge_cases() {
    // Incompatible matmul dimensions
    let a = TensorLayout::row_major(&[2, 3]);
    let b = TensorLayout::row_major(&[2, 3]);
    assert!(matmul_plan(&a, &b).is_err());

    // Invalid reshape
    let c = TensorLayout::row_major(&[2, 3]);
    assert!(c.reshape(&[2, 4]).is_err());

    // Invalid slice
    assert!(c.slice(0, 0, 5).is_err());
}

#[test]
fn test_layout_error_variants() {
    let c = TensorLayout::row_major(&[2, 3]);
    assert_eq!(
        c.transpose(0, 2).unwrap_err(),
        TensorError::DimensionOutOfBounds { dim: 2, rank: 2 }
    );
    assert_eq!(
        c.slice(2, 0, 1).unwrap_err(),
        TensorError::DimensionOutOfBounds { dim: 2, rank: 2 }
    );
    assert_eq!(
        c.slice(1, 2, 1).unwrap_err(),
        TensorError::InvalidSlice { dim: 1, start: 2, end: 1, size: 3 }
    );
    assert_eq!(
        c.reshape(&[5]).unwrap_err(),
        TensorError::InvalidReshape { from: vec![2, 3], to: vec![5] }
    );
    let v = TensorLayout::row_major(&[4]);
    assert_eq!(
        v.t().unwrap_err(),
        TensorError::IncompatibleDimensions(
            "Transpose requires at least 2 dimensions, found rank 1".to_string()
        )
    );
    assert_eq!(
        c.element_offset(&[1]).unwrap_err(),
        TensorError::IncompatibleDimensions("Index rank 1 does not match tensor rank 2".to_string())
    );
    assert_eq!(
        c.element_offset(&[1, 3]).unwrap_err(),
        TensorError::IndexOutOfBounds { index: vec![1, 3], shape: vec![2, 3] }
    );
}

#[test]
fn test_reshape_keeps_offset_only_when_contiguous() {
    let t = TensorLayout::row_major(&[4, 6]);
    let sl = t.slice(0, 1, 3).unwrap();
    assert_eq!(sl.offset(), 6);
    assert!(sl.is_contiguous());
    let r = sl.reshape(&[3, 4]).unwrap();
    assert_eq!(r.offset(), 6);
    assert_eq!(r.strides(), &[4, 1]);

    let tr = t.t().unwrap();
    let r2 = tr.reshape(&[24]).unwrap();
    assert_eq!(r2.offset(), 0);
    assert_eq!(r2.strides(), &[1]);
}

#[test]
fn test_contiguous_view_lists_consecutive_offsets() {
    let t = TensorLayout::row_major(&[2, 3, 2]);
    let sl = t.slice(0, 1, 2).unwrap();
    assert_eq!(sl.element_offsets(), (6..12).collect::<Vec<usize>>());
    assert_eq!(t.element_offsets(), (0..12).collect::<Vec<usize>>());
}

#[test]
fn test_transpose_twice_is_identity() {
    let t = TensorLayout::row_major(&[2, 3, 4]);
    let back = t.transpose(0, 2).unwrap().transpose(0, 2).unwrap();
    assert_eq!(back.dims(), t.dims());
    assert_eq!(back.strides(), t.strides());
    assert_eq!(back.offset(), t.offset());
}

#[test]
fn test_broadcast_view_offsets() {
    // A row vector broadcast over 3 rows revisits the same storage.
    let row = Shape::new(&[1, 2]);
    let target = Shape::new(&[3, 2]);
    let strides = row.broadcast_strides(&[2, 1], &target).unwrap();
    assert_eq!(strides, vec![0, 1]);
    let view = TensorLayout::from_parts(target, strides, 5).unwrap();
    assert_eq!(view.element_offsets(), vec![5, 6, 5, 6, 5, 6]);
    assert!(TensorLayout::from_parts(Shape::new(&[3]), vec![1, 1], 0).is_none());
}

#[test]
fn test_empty_view_has_no_offsets() {
    let t = TensorLayout::row_major(&[3, 0, 2]);
    assert!(t.element_offsets().is_empty());
    assert_eq!(TensorLayout::row_major(&[]).element_offsets(), vec![0]);
}

#[test]
fn test_compute_offset_with_strides() {
    let s = Shape::new(&[2, 3]);
    assert_eq!(s.compute_offset(&[1, 2], &[3, 1]).unwrap(), 5);
    assert_eq!(s.compute_offset(&[1, 2], &[1, 2]).unwrap(), 5);
    assert!(s.compute_offset(&[2, 0], &[3, 1]).is_err());
}

#[test]
fn test_broadcast_is_symmetric_example() {
    let a = Shape::new(&[4, 1]);
    let b = Shape::new(&[3]);
    let ab = Shape::broadcast_shapes(&a, &b).unwrap();
    let ba = Shape::broadcast_shapes(&b, &a).unwrap();
    assert_eq!(ab.dims(), &[4, 3]);
    assert_eq!(ab.dims(), ba.dims());
}

#[test]
fn test_error_messages() {
    assert_eq!(
        TensorError::ShapeMismatch { expected: vec![2, 3], actual: vec![5] }.message(),
        "Shape mismatch: expected [2, 3], found [5]"
    );
    assert_eq!(
        TensorError::InvalidSlice { dim: 1, start: 2, end: 9, size: 4 }.message(),
        "Invalid slice on dim 1: [2..9] for dimension of size 4"
    );
    assert_eq!(
        TensorError::InvalidReshape { from: vec![], to: vec![7] }.message(),
        "Cannot reshape tensor with total elements ([]) to target shape ([7])"
    );
    assert_eq!(
        TensorError::DTypeMismatch { expected: mini_llm::tensor::DType::Q8_0, actual: mini_llm::tensor::DType::F32 }
            .message(),
        "DType mismatch: expected Q8_0, got F32"
    );
    assert_eq!(
        TensorError::DimensionOutOfBounds { dim: 3, rank: 2 }.message(),
        "Dimension index 3 is out of bounds for rank 2"
    );
    assert_eq!(TensorError::EmptyTensor.message(), "Tensor cannot be empty for this operation");
    assert_eq!(Shape::new(&[2, 10, 1]).to_text(), "[2, 10, 1]");
    assert_eq!(mini_llm::tensor::DType::Q4_0.name(), "q4_0");
}

#[test]
fn test_matmul_plan_batched() {
    // [2, 2, 3] x [3, 4]: the right operand is shared by both batches.
    let a = TensorLayout::row_major(&[2, 2, 3]);
    let b = TensorLayout::row_major(&[3, 4]);
    let p = matmul_plan(&a, &b).unwrap();
    assert_eq!((p.m, p.k, p.n), (2, 3, 4));
    assert_eq!(p.out_dims, vec![2, 2, 4]);
    assert_eq!(p.a_offsets, vec![0, 6]);
    assert_eq!(p.b_offsets, vec![0, 0]);
    assert_eq!((p.a_stride_m, p.a_stride_k, p.b_stride_k, p.b_stride_n), (3, 1, 4, 1));

    let bt = TensorLayout::row_major(&[4, 3]).t().unwrap();
    let p2 = matmul_plan(&TensorLayout::row_major(&[2, 3]), &bt).unwrap();
    assert_eq!(p2.out_dims, vec![2, 4]);
    assert_eq!(p2.a_offsets, vec![0]);
    assert_eq!((p2.b_stride_k, p2.b_stride_n), (1, 3));
}

#[test]
fn test_matmul_plan_errors() {
    let a = TensorLayout::row_major(&[2, 3]);
    assert_eq!(
        matmul_plan(&a, &TensorLayout::row_major(&[2, 3])).unwrap_err(),
        TensorError::IncompatibleDimensions(
            "Inner matrix dimensions do not match: A is [..., 2, 3], B is [..., 2, 3]".to_string()
        )
    );
    assert_eq!(
        matmul_plan(&a, &TensorLayout::row_major(&[3])).unwrap_err(),
        TensorError::IncompatibleDimensions(
            "matmul requires at least 2 dimensions, found rank_a=2, rank_b=1".to_string()
        )
    );
    assert_eq!(
        matmul_plan(&TensorLayout::row_major(&[2, 2, 3]), &TensorLayout::row_major(&[3, 3, 4]))
            .unwrap_err(),
        TensorError::InvalidBroadcast { shape_a: vec![2], shape_b: vec![3] }
    );
}

#[test]
fn test_reduction_plans() {
    let p = reduction_plan(&[2, 3, 4], Some(1), false).unwrap();
    assert_eq!(p.out_dims, vec![2, 4]);
    assert_eq!(p.split, AxisSplit { outer: 2, reduce: 3, inner: 4 });
    let k = reduction_plan(&[2, 3, 4], Some(1), true).unwrap();
    assert_eq!(k.out_dims, vec![2, 1, 4]);
    let all = reduction_plan(&[2, 3], None, true).unwrap();
    assert_eq!(all.out_dims, vec![1, 1]);
    assert_eq!(all.split, AxisSplit { outer: 1, reduce: 6, inner: 1 });
    assert!(reduction_plan(&[2, 3], None, false).unwrap().out_dims.is_empty());
    assert_eq!(reduction_plan(&[2, 0], None, false).unwrap_err(), TensorError::EmptyTensor);
    assert_eq!(
        reduction_plan(&[2, 3], Some(2), false).unwrap_err(),
        TensorError::DimensionOutOfBounds { dim: 2, rank: 2 }
    );
    assert_eq!(split_at_axis(&[5], 0).unwrap(), AxisSplit { outer: 1, reduce: 5, inner: 1 });
}

#[test]
fn test_embedding_rows_and_checks() {
    assert_eq!(embedding_rows(&[2, 0], &[3, 2]).unwrap(), vec![4, 0]);
    assert_eq!(
        embedding_rows(&[1, 3, 5], &[3, 2]).unwrap_err(),
        TensorError::IndexOutOfBounds { index: vec![3], shape: vec![3] }
    );
    assert_eq!(
        embedding_rows(&[0], &[6]).unwrap_err(),
        TensorError::IncompatibleDimensions(
            "Embedding weight must be 2D [vocab_size, hidden_dim], found rank 1".to_string()
        )
    );
    assert_eq!(rope_dims(&[1, 1, 4]).unwrap(), (1, 1, 4));
    assert_eq!(
        rope_dims(&[1, 1, 3]).unwrap_err(),
        TensorError::IncompatibleDimensions("RoPE requires even head dimension, found 3".to_string())
    );
    assert_eq!(
        rope_dims(&[4, 4]).unwrap_err(),
        TensorError::IncompatibleDimensions(
            "RoPE requires [seq_len, num_heads, head_dim], found rank 2".to_string()
        )
    );
    assert_eq!(norm_width(&[2, 8], &[8], 8).unwrap(), 8);
    assert_eq!(norm_width(&[], &[8], 8).unwrap_err(), TensorError::EmptyTensor);
    assert_eq!(
        norm_width(&[2, 8], &[4], 4).unwrap_err(),
        TensorError::ShapeMismatch { expected: vec![8], actual: vec![4] }
    );
}

#[test]
fn test_dtype_properties() {
    use_dtype_checks();
}

fn use_dtype_checks() {
    let all = [
        mini_llm::tensor::DType::F32,
        mini_llm::tensor::DType::F16,
        mini_llm::tensor::DType::BF16,
        mini_llm::tensor::DType::I8,
        mini_llm::tensor::DType::Q8_0,
        mini_llm::tensor::DType::Q4_0,
    ];
    let sizes: Vec<usize> = all.iter().map(|d| d.size_in_bytes()).collect();
    assert_eq!(sizes, vec![4, 2, 2, 1, 1, 1]);
    let f32s: Vec<bool> = all.iter().map(|d| d.is_f32()).collect();
    assert_eq!(f32s, vec![true, false, false, false, false, false]);
    let quantized: Vec<bool> = all.iter().map(|d| d.is_quantized()).collect();
    assert_eq!(quantized, vec![false, false, false, false, true, true]);
    let names: Vec<&str> = all.iter().map(|d| d.variant_name()).collect();
    assert_eq!(names, vec!["F32", "F16", "BF16", "I8", "Q8_0", "Q4_0"]);
}

#[test]
fn test_offsets_follow_row_major_indices() {
    let view = TensorLayout::row_major(&[2, 3, 4]).transpose(0, 2).unwrap().slice(1, 1, 3).unwrap();
    let dims = view.dims().to_vec();
    let offsets = view.element_offsets();
    assert_eq!(offsets.len(), dims.iter().product::<usize>());
    for (k, &off) in offsets.iter().enumerate() {
        // unravel k in row-major order
        let mut rest = k;
        let mut index = vec![0; dims.len()];
        for i in (0..dims.len()).rev() {
            index[i] = rest % dims[i];
            rest /= dims[i];
        }
        assert_eq!(view.element_offset(&index).unwrap(), off);
    }
}

/// A matrix product driven by the library's plan (the arithmetic is here).
fn planned_matmul(
    a: &TensorLayout,
    a_data: &[f32],
    b: &TensorLayout,
    b_data: &[f32],
) -> Result<(Vec<usize>, Vec<f32>), TensorError> {
    let p = matmul_plan(a, b)?;
    let mut c = vec![0.0f32; p.a_offsets.len() * p.m * p.n];
    for (batch, (&oa, &ob)) in p.a_offsets.iter().zip(p.b_offsets.iter()).enumerate() {
        for i in 0..p.m {
            for j in 0..p.n {
                let mut acc = 0.0f32;
                for k in 0..p.k {
                    acc += a_data[oa + i * p.a_stride_m + k * p.a_stride_k]
                        * b_data[ob + k * p.b_stride_k + j * p.b_stride_n];
                }
                c[batch * p.m * p.n + i * p.n + j] = acc;
            }
        }
    }
    Ok((p.out_dims, c))
}

#[test]
fn test_matmul_2d_analytical() {
    // A = [[1, 2], [3, 4]]
    // B = [[5, 6], [7, 8]]
    // C = [[19, 22], [43, 50]]
    let a = TensorLayout::row_major(&[2, 2]);
    let b = TensorLayout::row_major(&[2, 2]);
    let (dims, c) = planned_matmul(&a, &[1.0, 2.0, 3.0, 4.0], &b, &[5.0, 6.0, 7.0, 8.0]).unwrap();
    assert_eq!(dims, vec![2, 2]);
    assert_eq!(c, vec![19.0, 22.0, 43.0, 50.0]);
}

#[test]
fn test_matmul_non_contiguous_and_batched() {
    // Multiplies with transposed matrix (non-contiguous view)
    let a = TensorLayout::row_major(&[2, 2]);
    let b_t = TensorLayout::row_major(&[2, 2]).t().unwrap(); // [[5, 6], [7, 8]]
    let (_, c) = planned_matmul(&a, &[1.0, 2.0, 3.0, 4.0], &b_t, &[5.0, 7.0, 6.0, 8.0]).unwrap();
    assert_eq!(c, vec![19.0, 22.0, 43.0, 50.0]);

    // Batched 3D matmul: [2, 2, 2] x [2, 2, 2] -> [2, 2, 2]
    let batch = TensorLayout::row_major(&[2, 2, 2]);
    let (dims, c) = planned_matmul(
        &batch,
        &[1.0, 2.0, 3.0, 4.0, 2.0, 0.0, 0.0, 2.0],
        &batch,
        &[5.0, 6.0, 7.0, 8.0, 1.0, 2.0, 3.0, 4.0],
    )
    .unwrap();
    assert_eq!(dims, vec![2, 2, 2]);
    assert_eq!(c, vec![19.0, 22.0, 43.0, 50.0, 2.0, 4.0, 6.0, 8.0]);
}

#[test]
fn test_elementwise_and_broadcasting() {
    let a_data = [1.0f32, 2.0, 3.0, 4.0];
    let b_data = [10.0f32, 20.0]; // Broadcast across rows
    let a_shape = Shape::new(&[2, 2]);
    let b_shape = Shape::new(&[1, 2]);
    let out = Shape::broadcast_shapes(&a_shape, &b_shape).unwrap();
    assert_eq!(out.dims(), &[2, 2]);
    let a_strides = a_shape.broadcast_strides(&[2, 1], &out).unwrap();
    let b_strides = b_shape.broadcast_strides(&[2, 1], &out).unwrap();
    let a_view = TensorLayout::from_parts(Shape::new(out.dims()), a_strides, 0).unwrap();
    let b_view = TensorLayout::from_parts(Shape::new(out.dims()), b_strides, 0).unwrap();
    let c: Vec<f32> = a_view
        .element_offsets()
        .iter()
        .zip(b_view.element_offsets().iter())
        .map(|(&i, &j)| a_data[i] + b_data[j])
        .collect();
    assert_eq!(c, vec![11.0, 22.0, 13.0, 24.0]);

    let s: Vec<f32> = a_data.iter().map(|v| v * 2.0).collect();
    assert_eq!(s, vec![2.0, 4.0, 6.0, 8.0]);
}

/// A sum driven by the library's reduction plan.
fn planned_sum(data: &[f32], dims: &[usize], dim: Option<usize>) -> (Vec<usize>, Vec<f32>) {
    let p = reduction_plan(dims, dim, false).unwrap();
    let s = p.split;
    let mut out = vec![0.0f32; s.outer * s.inner];
    for outer in 0..s.outer {
        for r in 0..s.reduce {
            for inner in 0..s.inner {
                out[outer * s.inner + inner] += data[outer * (s.reduce * s.inner) + r * s.inner + inner];
            }
        }
    }
    (p.out_dims, out)
}

#[test]
fn test_reductions() {
    let a = [1.0f32, 2.0, 3.0, 4.0, 5.0, 6.0];

    let (dims, s_all) = planned_sum(&a, &[2, 3], None);
    assert!(dims.is_empty());
    assert_eq!(s_all, vec![21.0]);

    let (dims, s_rows) = planned_sum(&a, &[2, 3], Some(0));
    assert_eq!(dims, vec![3]);
    assert_eq!(s_rows, vec![5.0, 7.0, 9.0]);

    let (dims, s_cols) = planned_sum(&a, &[2, 3], Some(1));
    assert_eq!(dims, vec![2]);
    assert_eq!(s_cols, vec![6.0, 15.0]);

    assert_eq!(s_all[0] / 6.0, 3.5);

    let s = split_at_axis(&[2, 3], 1).unwrap();
    let mut am = vec![0usize; s.outer * s.inner];
    for outer in 0..s.outer {
        let mut best = f32::NEG_INFINITY;
        for r in 0..s.reduce {
            let v = a[outer * s.reduce + r];
            if v > best {
                best = v;
                am[outer] = r;
            }
        }
    }
    assert_eq!(am, vec![2, 2]); // Index 2 has max value in each row
}

#[test]
fn test_embedding_rows_stops_at_first_bad_token() {
    assert_eq!(
        embedding_rows(&[usize::MAX, usize::MAX - 1], &[usize::MAX, 2]).unwrap_err(),
        TensorError::IndexOutOfBounds { index: vec![usize::MAX], shape: vec![usize::MAX] }
    );
}

#[test]
fn test_matrix_dims_2d() {
    assert_eq!(matrix_dims_2d(&[2, 3], &[3, 4], "matmul_naive").unwrap(), (2, 3, 4));
    assert_eq!(
        matrix_dims_2d(&[2, 3, 4], &[4, 5], "matmul_tiled").unwrap_err(),
        TensorError::IncompatibleDimensions("matmul_tiled currently supports 2D matrices".to_string())
    );
    assert_eq!(
        matrix_dims_2d(&[2, 3], &[4, 5], "matmul_parallel").unwrap_err(),
        TensorError::IncompatibleDimensions(
            "Inner matrix dimensions do not match: [2, 3] x [4, 5]".to_string()
        )
    );
}

#[test]
fn test_attention_head_plan() {
    // 4 query heads share 2 key/value heads of width 3; 2 new positions
    // after 1 cached one, 3 cached positions in all.
    let plan = attention_head_plan(3, 4, 2, 3, 2, 3, 1);
    assert_eq!(plan.kv_head, 1);
    assert_eq!(plan.query_offsets, vec![9, 21]);
    assert_eq!(plan.key_offsets, vec![3, 9, 15]);
    assert_eq!(plan.visible, vec![2, 3]);
    let first = attention_head_plan(0, 4, 2, 3, 1, 5, 0);
    assert_eq!(first.kv_head, 0);
    assert_eq!(first.visible, vec![1]);
}
