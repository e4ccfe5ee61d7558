use vortx::shapes::TensorLayout;

#[test]
fn broadcast_same_shape() {
    let a = TensorLayout::contiguous(&[3, 4]);
    let b = TensorLayout::contiguous(&[3, 4]);
    let (a_broadcast, b_broadcast) = a.broadcast(b).expect("broadcast should succeed");

    assert_eq!(a_broadcast, a);
    assert_eq!(b_broadcast, b);
}

#[test]
fn broadcast_scalar_to_matrix() {
    let scalar = TensorLayout::contiguous(&[1]);
    let matrix = TensorLayout::contiguous(&[3, 4]);
    let (s_broadcast, m_broadcast) =
        scalar.broadcast(matrix).expect("broadcast should succeed");

    assert_eq!(s_broadcast.size, [1, 1, 1, 1]);
    assert_eq!(m_broadcast.size, [3, 4, 1, 1]);
    assert_eq!(s_broadcast.rank, 2);
    assert_eq!(m_broadcast.rank, 2);
    // Scalar should have zero stride for broadcasting.
    assert_eq!(s_broadcast.stride[0], 0);
    assert_eq!(s_broadcast.stride[1], 0);
}

#[test]
fn broadcast_vector_to_matrix() {
    // Column vector [3, 1] broadcast with [3, 4].
    let col_vec = TensorLayout::contiguous(&[3, 1]);
    let matrix = TensorLayout::contiguous(&[3, 4]);
    let (v_broadcast, m_broadcast) =
        col_vec.broadcast(matrix).expect("broadcast should succeed");

    assert_eq!(v_broadcast.size, [3, 1, 1, 1]);
    assert_eq!(m_broadcast.size, [3, 4, 1, 1]);
    // Stride along dimension with size 1 should be 0.
    assert_eq!(v_broadcast.stride[1], 0);
}

#[test]
fn broadcast_row_vector_to_matrix() {
    // Row vector [1, 4] broadcast with [3, 4].
    let row_vec = TensorLayout::contiguous(&[1, 4]);
    let matrix = TensorLayout::contiguous(&[3, 4]);
    let (v_broadcast, m_broadcast) =
        row_vec.broadcast(matrix).expect("broadcast should succeed");

    assert_eq!(v_broadcast.size, [1, 4, 1, 1]);
    assert_eq!(m_broadcast.size, [3, 4, 1, 1]);
    // Stride along dimension with size 1 should be 0.
    assert_eq!(v_broadcast.stride[0], 0);
}

#[test]
fn broadcast_different_ranks() {
    // [4] broadcast with [3, 4, 2].
    let vec = TensorLayout::contiguous(&[2]);
    let tensor = TensorLayout::contiguous(&[3, 4, 2]);
    let (v_broadcast, t_broadcast) = vec.broadcast(tensor).expect("broadcast should succeed");

    // Vec should be promoted to rank 3.
    assert_eq!(v_broadcast.rank, 3);
    assert_eq!(t_broadcast.rank, 3);
    // Sizes should be [1, 1, 4] for the vector (prepended with 1s).
    assert_eq!(v_broadcast.size[0], 1);
    assert_eq!(v_broadcast.size[1], 1);
    assert_eq!(v_broadcast.size[2], 2);
    // Strides for prepended dimensions should be 0.
    assert_eq!(v_broadcast.stride[0], 0);
    assert_eq!(v_broadcast.stride[1], 0);
}

#[test]
fn broadcast_incompatible_shapes() {
    let a = TensorLayout::contiguous(&[3, 4]);
    let b = TensorLayout::contiguous(&[8]);
    assert!(a.broadcast(b).is_none(), "incompatible shapes should fail");

    let a = TensorLayout::contiguous(&[3, 4]);
    let b = TensorLayout::contiguous(&[3]);
    assert!(a.broadcast(b).is_none(), "incompatible shapes should fail");
}

#[test]
fn broadcast_incompatible_inner_dim() {
    let a = TensorLayout::contiguous(&[3, 4]);
    let b = TensorLayout::contiguous(&[3, 5]);
    assert!(a.broadcast(b).is_none(), "incompatible shapes should fail");
}

#[test]
fn broadcast_3d_tensors() {
    // [2, 1, 4] broadcast with [2, 3, 4].
    let a = TensorLayout::contiguous(&[2, 1, 4]);
    let b = TensorLayout::contiguous(&[2, 3, 4]);
    let (a_broadcast, b_broadcast) = a.broadcast(b).expect("broadcast should succeed");

    assert_eq!(a_broadcast.size, a_broadcast.size);
    assert_eq!(b_broadcast.size, b_broadcast.size);
    // Stride for dimension with size 1 should be 0.
    assert_eq!(a_broadcast.stride[1], 0);
}

#[test]
fn broadcast_preserves_order() {
    // Ensure the returned shapes are in the same order as the inputs.
    let a = TensorLayout::contiguous(&[3, 4, 5]);
    let b = TensorLayout::contiguous(&[5]);

    let (a_broadcast, b_broadcast) = a.broadcast(b).expect("broadcast should succeed");
    // `a` was the first argument and had larger rank, so a_broadcast should have same size as the input a.
    assert_eq!(a_broadcast, a);
    // `b` was the second argument and had smaller rank.
    assert_eq!(b_broadcast.rank, a.rank);
    assert_eq!(b_broadcast.size[0], 1);
    assert_eq!(b_broadcast.size[1], 1);
    assert_eq!(b_broadcast.size[2], 5);
    assert_eq!(b_broadcast.stride[0], 0);
    assert_eq!(b_broadcast.stride[1], 0);
    assert_eq!(b_broadcast.stride[2], 1);
}

#[test]
fn broadcast_4d_tensors() {
    let a = TensorLayout::contiguous(&[2, 3, 1, 5]);
    let b = TensorLayout::contiguous(&[2, 1, 4, 5]);
    let (a_broadcast, b_broadcast) = a.broadcast(b).expect("broadcast should succeed");

    assert_eq!(a_broadcast.size, a.size);
    assert_eq!(b_broadcast.size, b.size);
    assert_eq!(a_broadcast.rank, 4);
    assert_eq!(b_broadcast.rank, 4);
    // Strides for size-1 dimensions should be 0.
    assert_eq!(a_broadcast.stride[2], 0);
    assert_eq!(b_broadcast.stride[1], 0);
}
