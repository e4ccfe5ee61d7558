use vortx::shapes::{GpuTensorLayout, TensorLayout, GGML_IDS, GGML_IDS_U32};

fn layout(size: [u32; 4], stride: [u32; 4], rank: u32, offset: u32) -> TensorLayout {
    TensorLayout {
        size,
        stride,
        rank,
        offset,
    }
}

#[test]
fn ggml_ids_swap_the_first_two_axes() {
    assert_eq!(GGML_IDS, [1, 0, 2, 3]);
    assert_eq!(GGML_IDS_U32, [1, 0, 2, 3]);
}

#[test]
fn contiguous_matrix() {
    let l = TensorLayout::contiguous(&[3, 4]);
    assert_eq!(l, layout([3, 4, 1, 1], [4, 1, 1, 1], 2, 0));
    assert_eq!(l.dims(), &[3, 4]);
    assert_eq!(l.stride(), &[4, 1]);
}

#[test]
fn contiguous_rank_0_and_4() {
    assert_eq!(
        TensorLayout::contiguous(&[]),
        layout([1, 1, 1, 1], [1, 1, 1, 1], 0, 0)
    );
    assert_eq!(
        TensorLayout::contiguous(&[2, 3, 4, 5]),
        layout([2, 3, 4, 5], [60, 20, 5, 1], 4, 0)
    );
}

#[test]
fn contiguous_strides_of_array() {
    assert_eq!(TensorLayout::contiguous_strides([2, 3, 4]), [12, 4, 1]);
    assert_eq!(TensorLayout::contiguous_strides([7]), [1]);
    assert_eq!(TensorLayout::contiguous_strides([5, 0, 2]), [0, 2, 1]);
}

#[test]
fn is_contiguous_checks_strides() {
    let l = TensorLayout::contiguous(&[3, 4]);
    assert!(l.is_contiguous());
    assert!(!l.transpose(0, 1).is_contiguous());
    // Broadcast dimensions (stride 0) are accepted.
    assert!(layout([3, 4, 1, 1], [0, 1, 1, 1], 2, 0).is_contiguous());
    assert!(!layout([3, 4, 1, 1], [5, 1, 1, 1], 2, 0).is_contiguous());
    assert!(layout([9, 9, 9, 9], [7, 7, 7, 7], 0, 0).is_contiguous());
}

#[test]
fn is_contiguous_with_huge_sizes() {
    let big = u32::MAX;
    let l = layout([2, big, big, big], [0, 0, 0, 1], 4, 0);
    assert!(l.is_contiguous());
    let l = layout([2, big, big, big], [1, 0, 0, 1], 4, 0);
    assert!(!l.is_contiguous());
}

#[test]
fn len_and_is_empty() {
    let l = TensorLayout::contiguous(&[2, 3, 4]);
    assert_eq!(l.len(), 24);
    assert!(!l.is_empty());
    let l = TensorLayout::contiguous(&[2, 0, 4]);
    assert_eq!(l.len(), 0);
    assert!(l.is_empty());
    let l = TensorLayout::contiguous(&[]);
    assert_eq!(l.len(), 1);
    assert!(!l.is_empty());
    let big = u32::MAX;
    let l = layout([big, big, 1, 1], [1, 1, 1, 1], 2, 0);
    assert_eq!(l.len(), (big as u64) * (big as u64));
}

#[test]
fn transpose_swaps_sizes_and_strides() {
    let l = TensorLayout::contiguous(&[3, 4]);
    let t = l.transpose(0, 1);
    assert_eq!(t, layout([4, 3, 1, 1], [1, 4, 1, 1], 2, 0));
    assert_eq!(t.transpose(0, 1), l);
    assert_eq!(t.len(), l.len());
}

#[test]
fn transpose_last_dims_of_rank_3() {
    let l = TensorLayout::contiguous(&[2, 3, 4]);
    assert_eq!(
        l.transpose_last_dims(),
        layout([2, 4, 3, 1], [12, 1, 4, 1], 3, 0)
    );
}

#[test]
fn permute_moves_each_axis() {
    let l = TensorLayout::contiguous(&[2, 3, 4]);
    let p = l.permute([2, 0, 1, 3]);
    assert_eq!(p, layout([3, 4, 2, 1], [4, 1, 12, 1], 3, 0));
    assert_eq!(p.len(), l.len());
}

#[test]
fn permute_ggml_uses_ggml_ordering() {
    let l = TensorLayout::contiguous(&[2, 3, 4]);
    assert_eq!(l.permute_ggml([0, 1, 2, 3]), l);
    assert_eq!(
        l.permute_ggml([1, 0, 2, 3]),
        layout([3, 2, 4, 1], [4, 12, 1, 1], 3, 0)
    );
}

#[test]
fn narrow_rows_columns_matrix() {
    let l = TensorLayout::contiguous(&[4, 6]);
    assert_eq!(l.narrow(1, 2, 3), layout([4, 3, 1, 1], [6, 1, 1, 1], 2, 2));
    assert_eq!(l.rows(1, 2), layout([2, 6, 1, 1], [6, 1, 1, 1], 2, 6));
    assert_eq!(l.row(3), layout([1, 6, 1, 1], [6, 1, 1, 1], 2, 18));
    assert_eq!(l.columns(1, 4), layout([4, 4, 1, 1], [6, 1, 1, 1], 2, 1));
    assert_eq!(l.column(5), layout([4, 1, 1, 1], [6, 1, 1, 1], 2, 5));
    let t = TensorLayout::contiguous(&[2, 3, 4]);
    assert_eq!(t.matrix(1), layout([2, 3, 1, 1], [12, 4, 1, 1], 3, 1));
    // The element count scales with the narrowed axis.
    assert_eq!(l.narrow(1, 2, 3).len() * 6, l.len() * 3);
}

#[test]
fn index_removes_axis_zero() {
    let l = TensorLayout::contiguous(&[3, 4]);
    assert_eq!(l.index(2), layout([4, 1, 1, 1], [1, 1, 1, 1], 1, 8));
    let t = TensorLayout::contiguous(&[2, 3, 4]);
    assert_eq!(t.index(1), layout([3, 4, 1, 1], [4, 1, 3, 1], 2, 12));
}

#[test]
fn squeeze_axis_removes_unit_axis() {
    let l = TensorLayout::contiguous(&[3, 1, 4]);
    assert_eq!(l.squeeze_axis(1), layout([3, 4, 1, 1], [4, 1, 3, 1], 2, 0));
    let v = TensorLayout::contiguous(&[1]);
    assert_eq!(v.squeeze_axis(0), layout([1, 1, 1, 1], [1, 1, 1, 1], 0, 0));
}

#[test]
fn unsqueeze_inserts_unit_axis() {
    let l = TensorLayout::contiguous(&[3, 4]);
    let u = l.unsqueeze(1).unwrap();
    assert_eq!(u, layout([3, 1, 4, 1], [4, 1, 1, 1], 3, 0));
    assert_eq!(
        l.unsqueeze(0).unwrap(),
        layout([1, 3, 4, 1], [4, 4, 1, 1], 3, 0)
    );
    assert_eq!(
        l.unsqueeze(2).unwrap(),
        layout([3, 4, 1, 1], [4, 1, 1, 1], 3, 0)
    );
    // Removing the inserted axis gives the dimensions back.
    assert_eq!(u.squeeze_axis(1).dims(), l.dims());
    assert_eq!(u.squeeze_axis(1).stride(), l.stride());
}

#[test]
fn unsqueeze_last_axis_of_rank_3() {
    let l = TensorLayout::contiguous(&[2, 3, 4]);
    let u = l.unsqueeze(3).unwrap();
    assert_eq!(u, layout([2, 3, 4, 1], [12, 4, 1, 1], 4, 0));
    assert!(u.is_contiguous());
}

#[test]
fn unsqueeze_refused() {
    let l = TensorLayout::contiguous(&[2, 3, 4, 5]);
    assert!(l.unsqueeze(0).is_none());
    let l = TensorLayout::contiguous(&[3, 4]);
    assert!(l.unsqueeze(3).is_none());
}

#[test]
fn unsqueeze_to_rank_appends_unit_axes() {
    let l = TensorLayout::contiguous(&[3, 4]);
    assert_eq!(
        l.unsqueeze_to_rank(4).unwrap(),
        layout([3, 4, 1, 1], [4, 1, 4, 4], 4, 0)
    );
    assert_eq!(l.unsqueeze_to_rank(2).unwrap(), l);
    assert!(l.unsqueeze_to_rank(1).is_none());
    assert!(l.unsqueeze_to_rank(5).is_none());
    let s = layout([9, 9, 9, 9], [9, 9, 9, 9], 0, 7);
    assert_eq!(
        s.unsqueeze_to_rank(2).unwrap(),
        layout([1, 1, 1, 1], [1, 1, 1, 1], 2, 7)
    );
}

#[test]
fn canonicalize_pads_on_the_left() {
    let l = TensorLayout::contiguous(&[3, 4]);
    let c = l.canonicalize();
    assert_eq!(c, layout([1, 1, 3, 4], [12, 12, 4, 1], 4, 0));
    assert_eq!(c.len(), l.len());
    let full = TensorLayout::contiguous(&[2, 3, 4, 5]).narrow(0, 1, 1);
    assert_eq!(full.canonicalize(), full);
    // Inserting leading dimensions of size 1 keeps the view where it was.
    assert_eq!(l.row(2).canonicalize().offset, 8);
    let narrowed = TensorLayout::contiguous(&[4, 6]).narrow(0, 1, 2);
    assert_eq!(
        narrowed.canonicalize(),
        layout([1, 1, 2, 6], [12, 12, 6, 1], 4, 6)
    );
}

#[test]
fn squeeze_removes_all_unit_axes() {
    let l = TensorLayout::contiguous(&[1, 3, 1, 4]);
    let s = l.squeeze();
    assert_eq!(s, layout([3, 4, 1, 1], [4, 1, 4, 4], 2, 0));
    assert_eq!(s.len(), l.len());
    let ones = TensorLayout::contiguous(&[1, 1]).narrow(0, 0, 1);
    assert_eq!(ones.squeeze(), layout([1, 1, 1, 1], [1, 1, 1, 1], 0, 0));
    let full = TensorLayout::contiguous(&[2, 3, 4, 5]);
    assert_eq!(full.squeeze(), full);
}

#[test]
fn reshape_packs_the_new_shape() {
    let l = TensorLayout::contiguous(&[2, 6]).narrow(0, 0, 2);
    let r = l.reshape(&[3, 4]);
    assert_eq!(r, layout([3, 4, 1, 1], [4, 1, 0, 0], 2, 0));
    assert!(r.is_contiguous());
    let r = TensorLayout::contiguous(&[2, 6]).reshape(&[12]);
    assert_eq!(r, layout([12, 1, 1, 1], [1, 0, 0, 0], 1, 0));
}

#[test]
fn view_with_explicit_strides() {
    let l = TensorLayout::contiguous(&[4, 6]);
    assert_eq!(
        l.view(2, &[2, 3], &[Some(6)]),
        layout([2, 3, 1, 1], [6, 1, 0, 0], 2, 2)
    );
    assert_eq!(
        l.view(0, &[2, 3], &[None, Some(2)]),
        layout([2, 3, 1, 1], [6, 2, 0, 0], 2, 0)
    );
    assert_eq!(l.view(0, &[], &[]), layout([1, 1, 1, 1], [0, 0, 0, 0], 0, 0));
}

#[test]
fn f32_to_vec4_groups_the_last_axis() {
    let l = TensorLayout::contiguous(&[3, 8]);
    assert_eq!(l.f32_to_vec4(), layout([3, 2, 1, 1], [2, 1, 1, 1], 2, 0));
    assert_eq!(l.f32_to_vec4().len() * 4, l.len());
}

#[test]
fn broadcast_assign_refuses_growing_the_target() {
    let target = TensorLayout::contiguous(&[3, 4]);
    let source = TensorLayout::contiguous(&[4]);
    let (t, s) = target.broadcast_assign(source).expect("assignment should broadcast");
    assert_eq!(t, target);
    assert_eq!(s, layout([1, 4, 1, 1], [0, 1, 1, 1], 2, 0));
    assert!(source.broadcast_assign(target).is_none());
    assert!(target
        .broadcast_assign(TensorLayout::contiguous(&[5]))
        .is_none());
}

#[test]
fn broadcast_is_symmetric() {
    let a = TensorLayout::contiguous(&[2, 1, 4]);
    let b = TensorLayout::contiguous(&[3, 1]);
    let (x, y) = a.broadcast(b).expect("broadcast should succeed");
    let (y2, x2) = b.broadcast(a).expect("broadcast should succeed");
    assert_eq!(x, x2);
    assert_eq!(y, y2);
    assert_eq!(x, layout([2, 1, 4, 1], [4, 0, 1, 1], 3, 0));
    assert_eq!(y, layout([1, 3, 1, 1], [0, 1, 0, 1], 3, 0));
}

#[test]
fn into_gpu_pads_with_last_stride() {
    let l = TensorLayout::contiguous(&[3, 4]).transpose(0, 1);
    let g = l.into_gpu();
    assert_eq!(
        g,
        GpuTensorLayout {
            n: 4,
            c: 3,
            h: 1,
            w: 1,
            n_stride: 1,
            c_stride: 4,
            h_stride: 4,
            w_stride: 4,
        }
    );
    assert_eq!(GpuTensorLayout::from(l), g);
    let s = layout([5, 6, 7, 8], [9, 9, 9, 9], 0, 0).into_gpu();
    assert_eq!((s.n, s.c, s.h, s.w), (1, 1, 1, 1));
    assert_eq!(
        (s.n_stride, s.c_stride, s.h_stride, s.w_stride),
        (1, 1, 1, 1)
    );
}

#[test]
fn unsqueeze_keeps_len() {
    let l = TensorLayout::contiguous(&[2, 3, 4]);
    for axis in 0..=3 {
        let u = l.unsqueeze(axis).unwrap();
        assert_eq!(u.rank, 4);
        assert_eq!(u.len(), l.len());
        assert_eq!(u.size[axis as usize], 1);
    }
    let t = TensorLayout::contiguous(&[3]);
    assert_eq!(t.unsqueeze_to_rank(3).unwrap().len(), 3);
}

#[test]
fn squeeze_axis_keeps_len() {
    let l = TensorLayout::contiguous(&[2, 1, 5]);
    let s = l.squeeze_axis(1);
    assert_eq!(s.dims(), &[2, 5]);
    assert_eq!(s.len(), l.len());
}

#[test]
fn permute_then_inverse_gives_layout_back() {
    let l = TensorLayout::contiguous(&[2, 3, 4]);
    let p = l.permute([2, 0, 1, 3]);
    assert_eq!(p.permute([1, 2, 0, 3]), l);
}

#[test]
fn squeeze_twice_is_squeeze() {
    let l = TensorLayout::contiguous(&[1, 3, 1, 4]);
    let s = l.squeeze();
    assert_eq!(s.squeeze(), s);
    let ones = TensorLayout::contiguous(&[1, 1]);
    assert_eq!(ones.squeeze().squeeze(), ones.squeeze());
}

#[test]
fn is_entire_needs_matching_length_offset_and_contiguity() {
    let l = TensorLayout::contiguous(&[3, 4]);
    assert!(l.is_entire(12));
    assert!(!l.is_entire(13));
    assert!(!l.transpose(0, 1).is_entire(12));
    assert!(!l.rows(1, 2).is_entire(8));
    assert!(TensorLayout::contiguous(&[0, 4]).is_entire(0));
}

#[test]
fn canonicalize_keeps_contiguity() {
    let l = TensorLayout::contiguous(&[3, 4]);
    assert!(l.canonicalize().is_contiguous());
    let t = l.transpose(0, 1);
    assert!(!t.is_contiguous());
    assert!(!t.canonicalize().is_contiguous());
}
