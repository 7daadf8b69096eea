use matmul::{
    apply_output, build_work_items, compute_cell, dot_fits_checked, dot_product, extract_column,
    extract_row, multiply, MatMulError, Matrix, Vector,
};

#[test]
fn test_multiply() {
    let a = Matrix::new(vec![1, 2, 3, 4, 5, 6], 2, 3);
    let b = Matrix::new(vec![1, 2, 3, 4, 5, 6], 3, 2);
    let result = multiply(&a, &b).unwrap();
    assert_eq!(result.data, vec![22, 28, 49, 64]);
    assert_eq!(result.row, 2);
    assert_eq!(result.col, 2);
}

#[test]
fn test_multiply_2x2() {
    let a = Matrix::new(vec![1, 2, 3, 4], 2, 2);
    let b = Matrix::new(vec![5, 6, 7, 8], 2, 2);
    let result = multiply(&a, &b).unwrap();
    assert_eq!(result.data, vec![19, 22, 43, 50]);
}

#[test]
fn test_multiply_dimension_mismatch() {
    let a = Matrix::new(vec![1, 2, 3, 4, 5, 6], 2, 3);
    let b = Matrix::new(vec![1, 2, 3, 4], 2, 2);
    match multiply(&a, &b) {
        Err(e) => assert_eq!(e, MatMulError::Dimension),
        Ok(_) => panic!("dimension mismatch was not rejected"),
    }
}

#[test]
fn test_multiply_identity_left() {
    let id = Matrix::new(vec![1, 0, 0, 0, 1, 0, 0, 0, 1], 3, 3);
    let m = Matrix::new(vec![7, -2, 0, 4, 9, 11], 3, 2);
    let result = multiply(&id, &m).unwrap();
    assert_eq!(result.data, m.data);
    assert_eq!(result.row, 3);
    assert_eq!(result.col, 2);
}

#[test]
fn test_multiply_identity_right() {
    let m = Matrix::new(vec![7, -2, 0, 4, 9, 11], 3, 2);
    let id = Matrix::new(vec![1, 0, 0, 1], 2, 2);
    let result = multiply(&m, &id).unwrap();
    assert_eq!(result.data, m.data);
    assert_eq!(result.row, 3);
    assert_eq!(result.col, 2);
}

#[test]
fn test_multiply_does_not_mutate_inputs() {
    let a = Matrix::new(vec![1, 2, 3, 4, 5, 6], 2, 3);
    let b = Matrix::new(vec![1, 2, 3, 4, 5, 6], 3, 2);
    let a_before = a.data.clone();
    let b_before = b.data.clone();
    let _ = multiply(&a, &b).unwrap();
    assert_eq!(a.data, a_before);
    assert_eq!(b.data, b_before);
    assert_eq!(a.row, 2);
    assert_eq!(a.col, 3);
    assert_eq!(b.row, 3);
    assert_eq!(b.col, 2);
}

#[test]
fn test_dot_product_small() {
    let a = Vector::new(vec![1, 2, 3]);
    let b = Vector::new(vec![4, 5, 6]);
    assert_eq!(dot_product(&a, &b), Ok(32));
}

#[test]
fn test_dot_product_lane_boundary_lengths() {
    // lengths around the SIMD lane width of 8: the scalar reference result
    // for a[i] = i + 1 against all-ones is the triangle number n(n+1)/2
    for n in [0usize, 1, 7, 8, 9, 15, 16, 17] {
        let mut av: Vec<i64> = Vec::new();
        let mut bv: Vec<i64> = Vec::new();
        for i in 0..n {
            av.push(i as i64 + 1);
            bv.push(1);
        }
        let expected = (n * (n + 1) / 2) as i64;
        let a = Vector::new(av);
        let b = Vector::new(bv);
        assert_eq!(dot_product(&a, &b), Ok(expected));
    }
}

#[test]
fn test_dot_product_length_mismatch() {
    let a = Vector::new(vec![1, 2]);
    let b = Vector::new(vec![1, 2, 3]);
    assert_eq!(dot_product(&a, &b), Err(MatMulError::Reduction));
}

#[test]
fn test_dot_fits_checked_accepts_small_operands() {
    let a = Vector::new(vec![1000, -2000, 3000]);
    let b = Vector::new(vec![4000, 5000, -6000]);
    assert!(dot_fits_checked(&a, &b));
}

#[test]
fn test_dot_fits_checked_rejects_overflow() {
    let a = Vector::new(vec![i64::MAX]);
    let b = Vector::new(vec![2]);
    assert!(!dot_fits_checked(&a, &b));
}

#[test]
fn test_dot_fits_checked_rejects_length_mismatch() {
    let a = Vector::new(vec![1]);
    let b = Vector::new(vec![1, 2]);
    assert!(!dot_fits_checked(&a, &b));
}

#[test]
fn test_extract_row() {
    let m = Matrix::new(vec![1, 2, 3, 4, 5, 6], 2, 3);
    assert_eq!(extract_row(&m, 0), vec![1, 2, 3]);
    assert_eq!(extract_row(&m, 1), vec![4, 5, 6]);
}

#[test]
fn test_extract_column_is_strided() {
    let m = Matrix::new(vec![1, 2, 3, 4, 5, 6], 2, 3);
    assert_eq!(extract_column(&m, 0), vec![1, 4]);
    assert_eq!(extract_column(&m, 1), vec![2, 5]);
    assert_eq!(extract_column(&m, 2), vec![3, 6]);
}

#[test]
fn test_build_work_items_enumerates_cells() {
    let a = Matrix::new(vec![1, 2, 3, 4, 5, 6], 2, 3);
    let b = Matrix::new(vec![1, 2, 3, 4, 5, 6], 3, 2);
    let items = build_work_items(&a, &b);
    assert_eq!(items.len(), 4);
    for (k, item) in items.iter().enumerate() {
        assert_eq!(item.idx, k);
    }
    // item 2 is cell (1, 0): row 1 of a, column 0 of b
    assert_eq!(items[2].row.data, vec![4, 5, 6]);
    assert_eq!(items[2].col.data, vec![1, 3, 5]);
}

#[test]
fn test_compute_cell() {
    let input = matmul::MsgInput::new(7, Vector::new(vec![1, 2]), Vector::new(vec![3, 4]));
    let out = compute_cell(input).unwrap();
    assert_eq!(out.idx, 7);
    assert_eq!(out.value, 11);
}

#[test]
fn test_compute_cell_length_mismatch() {
    let input = matmul::MsgInput::new(0, Vector::new(vec![1, 2]), Vector::new(vec![3]));
    assert_eq!(compute_cell(input), Err(MatMulError::Reduction));
}

#[test]
fn test_apply_output_writes_one_cell() {
    let mut m = Matrix::new(vec![0, 0, 0], 1, 3);
    let r = apply_output(&mut m, matmul::MsgOutput { idx: 1, value: 9 });
    assert_eq!(r, Ok(()));
    assert_eq!(m.data, vec![0, 9, 0]);
}

#[test]
fn test_apply_output_rejects_out_of_range_destination() {
    let mut m = Matrix::new(vec![0, 0, 0], 1, 3);
    let r = apply_output(&mut m, matmul::MsgOutput { idx: 5, value: 9 });
    assert_eq!(r, Err(MatMulError::Dispatch));
    assert_eq!(m.data, vec![0, 0, 0]);
}

#[test]
fn test_collection_order_is_immaterial() {
    // the same result records, collected in two different arrival orders,
    // assemble the same buffer
    let outs = [
        matmul::MsgOutput { idx: 0, value: 22 },
        matmul::MsgOutput { idx: 1, value: 28 },
        matmul::MsgOutput { idx: 2, value: 49 },
        matmul::MsgOutput { idx: 3, value: 64 },
    ];
    let mut forward = Matrix::new(vec![0, 0, 0, 0], 2, 2);
    for out in outs.iter() {
        apply_output(&mut forward, *out).unwrap();
    }
    let mut backward = Matrix::new(vec![0, 0, 0, 0], 2, 2);
    for out in outs.iter().rev() {
        apply_output(&mut backward, *out).unwrap();
    }
    assert_eq!(forward.data, backward.data);
    assert_eq!(forward.data, vec![22, 28, 49, 64]);
}

#[test]
fn test_pipeline_matches_scalar_multiply() {
    // dispatch the work items, reduce each one, collect the records: the
    // assembled buffer equals the scalar reference result
    let a = Matrix::new(vec![1, 2, 3, 4, 5, 6], 2, 3);
    let b = Matrix::new(vec![1, 2, 3, 4, 5, 6], 3, 2);
    let items = build_work_items(&a, &b);
    let mut assembled = Matrix::new(vec![0, 0, 0, 0], 2, 2);
    for item in items {
        let out = compute_cell(item).unwrap();
        apply_output(&mut assembled, out).unwrap();
    }
    let reference = multiply(&a, &b).unwrap();
    assert_eq!(assembled.data, reference.data);
    assert_eq!(assembled.data, vec![22, 28, 49, 64]);
}
