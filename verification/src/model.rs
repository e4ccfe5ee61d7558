//! The mathematical model of a tensor layout, and what each layout
//! operation does to it.

use vstd::prelude::*;
use crate::products::product;

verus! {

/// The mathematical content of a [`TensorLayout`](crate::shapes::TensorLayout): its four sizes and
/// strides as sequences, its rank and its offset.
#[verifier::ext_equal]
pub struct LayoutView {
    pub size: Seq<u32>,
    pub stride: Seq<u32>,
    pub rank: u32,
    pub offset: u32,
}

/// `dims` followed by as many ones as it takes to reach four entries.
pub open spec fn pad_ones(dims: Seq<u32>) -> Seq<u32> {
    Seq::new(4, |i: int| if i < dims.len() { dims[i] } else { 1u32 })
}

/// The stride of dimension `k` in a packed row-major layout of `dims`: the
/// product of the sizes of all the dimensions after it.
pub open spec fn packed_stride(dims: Seq<u32>, k: int) -> int {
    product(dims.subrange(k + 1, dims.len() as int))
}

/// Every packed stride of `dims` fits in a `u32`.
pub open spec fn packed_strides_fit(dims: Seq<u32>) -> bool {
    forall|k: int| 0 <= k < dims.len() ==> #[trigger] packed_stride(dims, k) <= u32::MAX
}

/// The packed row-major layout of `dims`, at offset 0.
pub open spec fn contiguous_of(dims: Seq<u32>) -> LayoutView {
    LayoutView {
        size: pad_ones(dims),
        stride: Seq::new(
            4,
            |i: int| if i < dims.len() { packed_stride(dims, i) as u32 } else { 1u32 },
        ),
        rank: dims.len() as u32,
        offset: 0,
    }
}

impl LayoutView {
    /// The sizes of the first `rank` dimensions.
    pub open spec fn dims(self) -> Seq<u32> {
        self.size.subrange(0, self.rank as int)
    }

    /// The strides of the first `rank` dimensions.
    pub open spec fn strides(self) -> Seq<u32> {
        self.stride.subrange(0, self.rank as int)
    }

    /// The number of elements of the view.
    pub open spec fn len(self) -> int {
        product(self.dims())
    }

    /// Swaps dimensions `a` and `b`.
    pub open spec fn transposed(self, a: int, b: int) -> LayoutView {
        LayoutView {
            size: self.size.update(a, self.size[b]).update(b, self.size[a]),
            stride: self.stride.update(a, self.stride[b]).update(b, self.stride[a]),
            rank: self.rank,
            offset: self.offset,
        }
    }

    /// The view can keep `new_nelts` elements of `axis` starting at
    /// `first_elt`, and the shifted offset fits in a `u32`.
    pub open spec fn can_narrow(self, axis: int, first_elt: int, new_nelts: int) -> bool {
        &&& 0 <= axis < self.rank
        &&& axis < 4
        &&& 0 <= first_elt
        &&& 0 <= new_nelts
        &&& first_elt + new_nelts <= self.size[axis]
        &&& self.offset + self.stride[axis] * first_elt <= u32::MAX
    }

    /// Keeps `new_nelts` elements of `axis` starting at `first_elt`.
    pub open spec fn narrowed(self, axis: int, first_elt: int, new_nelts: u32) -> LayoutView {
        LayoutView {
            size: self.size.update(axis, new_nelts),
            stride: self.stride,
            rank: self.rank,
            offset: (self.offset + self.stride[axis] * first_elt) as u32,
        }
    }

    /// The view of `shape` at `offset` within this (contiguous) layout, see
    /// [`view_stride`].
    pub open spec fn viewed(self, offset: int, shape: Seq<u32>, stride: Seq<Option<u32>>) -> LayoutView {
        LayoutView {
            size: pad_ones(shape),
            stride: Seq::new(
                4,
                |i: int| if i < shape.len() { view_stride(shape, stride, i) as u32 } else { 0u32 },
            ),
            rank: shape.len() as u32,
            offset: (self.offset + offset) as u32,
        }
    }

    /// What `view` needs: a contiguous source with enough elements, and
    /// strides and an offset that fit in a `u32`.
    pub open spec fn can_view(self, offset: int, shape: Seq<u32>, stride: Seq<Option<u32>>) -> bool {
        &&& 0 <= offset
        &&& shape.len() <= 4
        &&& stride.len() <= shape.len()
        &&& self.rank <= 4
        &&& self.is_contiguous()
        &&& product(shape) + offset <= product(self.size)
        &&& forall|k: int| 0 <= k < shape.len() ==> #[trigger] view_stride(shape, stride, k) <= u32::MAX
        &&& self.offset + offset <= u32::MAX
    }

    /// Adds dimensions of size 1 at the end until the rank is `rank`.
    pub open spec fn unsqueezed_to_rank(self, rank: u32) -> Option<LayoutView> {
        if rank > 4 || rank < self.rank {
            None
        } else if rank == self.rank {
            Some(self)
        } else if self.rank == 0 {
            Some(
                LayoutView {
                    size: Seq::new(4, |i: int| 1u32),
                    stride: Seq::new(4, |i: int| 1u32),
                    rank,
                    offset: self.offset,
                },
            )
        } else {
            let last = self.rank - 1;
            let default_stride = (self.stride[last] * self.size[last]) as u32;
            Some(
                LayoutView {
                    size: Seq::new(4, |k: int| if k < self.rank { self.size[k] } else { 1u32 }),
                    stride: Seq::new(
                        4,
                        |k: int| if k < self.rank { self.stride[k] } else { default_stride },
                    ),
                    rank,
                    offset: self.offset,
                },
            )
        }
    }

    /// The dims, preceded by ones up to four dimensions.
    pub open spec fn left_padded_dims(self) -> Seq<u32> {
        Seq::new(
            4,
            |k: int| if k < 4 - self.rank { 1u32 } else { self.size[k - (4 - self.rank)] },
        )
    }

    /// Inserts dimensions of size 1 on the left up to rank 4; the inserted
    /// dimensions get packed strides, and the offset is kept.
    pub open spec fn canonicalized(self) -> LayoutView {
        if self.rank == 4 {
            self
        } else {
            let rank_diff = 4 - self.rank;
            let padded = self.left_padded_dims();
            LayoutView {
                size: padded,
                stride: Seq::new(
                    4,
                    |k: int|
                        if k < rank_diff {
                            packed_stride(padded, k) as u32
                        } else {
                            self.stride[k - rank_diff]
                        },
                ),
                rank: 4,
                offset: self.offset,
            }
        }
    }

    /// Inserts a dimension of size 1 at `axis`.
    pub open spec fn unsqueezed(self, axis: int) -> Option<LayoutView> {
        if self.rank >= 4 || axis > self.rank {
            None
        } else {
            Some(
                LayoutView {
                    size: Seq::new(
                        4,
                        |k: int|
                            if k < axis {
                                self.size[k]
                            } else if k == axis {
                                1u32
                            } else {
                                self.size[k - 1]
                            },
                    ),
                    stride: Seq::new(
                        4,
                        |k: int|
                            if k < axis {
                                self.stride[k]
                            } else if k == axis {
                                if axis < 3 {
                                    self.stride[axis]
                                } else {
                                    1u32
                                }
                            } else {
                                self.stride[k - 1]
                            },
                    ),
                    rank: (self.rank + 1) as u32,
                    offset: self.offset,
                },
            )
        }
    }

    /// The sizes once `axis` is removed and a 1 is put in place of the last
    /// dimension.
    pub open spec fn squeezed_axis_sizes(self, axis: int) -> Seq<u32> {
        let n = self.rank - 1;
        Seq::new(
            4,
            |k: int|
                if k < axis {
                    self.size[k]
                } else if k < n {
                    self.size[k + 1]
                } else if k == n {
                    1u32
                } else {
                    self.size[k]
                },
        )
    }

    /// Removes the dimension `axis` (of size 1); the stride just past the new
    /// rank becomes the product of the sizes of all the remaining dimensions
    /// but the last.
    pub open spec fn squeezed_axis(self, axis: int) -> LayoutView {
        let n = self.rank - 1;
        let size = self.squeezed_axis_sizes(axis);
        LayoutView {
            size,
            stride: Seq::new(
                4,
                |k: int|
                    if k < axis {
                        self.stride[k]
                    } else if k < n {
                        self.stride[k + 1]
                    } else if k == n && n > 0 {
                        product(size.subrange(0, n - 1)) as u32
                    } else {
                        self.stride[k]
                    },
            ),
            rank: n as u32,
            offset: self.offset,
        }
    }

    /// What `squeeze_axis` needs.
    pub open spec fn can_squeeze_axis(self, axis: int) -> bool {
        &&& 0 <= axis < self.rank <= 4
        &&& self.size[axis] == 1
        &&& self.rank > 1 ==> product(self.squeezed_axis_sizes(axis).subrange(0, self.rank - 2))
            <= u32::MAX
    }

    /// The (size, stride) pairs of the dimensions among the first `m` whose
    /// size is not 1, in order.
    pub open spec fn kept_dims(self, m: int) -> Seq<(u32, u32)>
        decreases m,
    {
        if m <= 0 {
            Seq::empty()
        } else {
            let prev = self.kept_dims(m - 1);
            if self.size[m - 1] != 1 {
                prev.push((self.size[m - 1], self.stride[m - 1]))
            } else {
                prev
            }
        }
    }

    /// Removes every dimension of size 1; the dimensions past the new rank
    /// get size 1 and the stride that packs them after the last kept one.
    pub open spec fn squeezed(self) -> LayoutView {
        let kept = self.kept_dims(self.rank as int);
        let n = kept.len();
        if n == 0 {
            LayoutView {
                size: Seq::new(4, |i: int| 1u32),
                stride: Seq::new(4, |i: int| 1u32),
                rank: 0,
                offset: self.offset,
            }
        } else {
            let last = kept[n - 1];
            let pad = (last.1 * last.0) as u32;
            LayoutView {
                size: Seq::new(4, |k: int| if k < n { kept[k].0 } else { 1u32 }),
                stride: Seq::new(4, |k: int| if k < n { kept[k].1 } else { pad }),
                rank: n as u32,
                offset: self.offset,
            }
        }
    }

    /// What `squeeze` needs: a valid rank and a padding stride that fits.
    pub open spec fn can_squeeze(self) -> bool {
        let kept = self.kept_dims(self.rank as int);
        &&& self.rank <= 4
        &&& 0 < kept.len() < 4 ==> kept[kept.len() - 1].1 * kept[kept.len() - 1].0 <= u32::MAX
    }

    /// Moves dimension `k` to position `p[k]`, for every `k`.
    pub open spec fn permuted(self, p: Seq<usize>) -> LayoutView {
        LayoutView {
            size: Seq::new(4, |j: int| self.size[axis_source(p, j)]),
            stride: Seq::new(4, |j: int| self.stride[axis_source(p, j)]),
            rank: self.rank,
            offset: self.offset,
        }
    }

    /// Moves the dimensions of rank `rank` to the end, with ones before them,
    /// keeping the rank's worth of sizes and strides.
    pub open spec fn aligned_to_rank(self, rank: u32) -> LayoutView {
        let d = rank - self.rank;
        LayoutView {
            size: Seq::new(
                4,
                |k: int|
                    if k < d {
                        1u32
                    } else if k < rank {
                        self.size[k - d]
                    } else {
                        self.size[k]
                    },
            ),
            stride: Seq::new(
                4,
                |k: int|
                    if k < d {
                        self.stride[k]
                    } else if k < rank {
                        self.stride[k - d]
                    } else {
                        self.stride[k]
                    },
            ),
            rank,
            offset: self.offset,
        }
    }

    /// Sets the stride of every dimension of size 1 within the rank to 0.
    pub open spec fn unit_strides_zeroed(self) -> LayoutView {
        LayoutView {
            size: self.size,
            stride: Seq::new(
                4,
                |k: int| if k < self.rank && self.size[k] == 1 { 0u32 } else { self.stride[k] },
            ),
            rank: self.rank,
            offset: self.offset,
        }
    }

    /// The axis whose elements become `vec4`s: the last one within the rank.
    pub open spec fn vec4_axis(self) -> int {
        if self.rank == 0 {
            0
        } else {
            self.rank - 1
        }
    }

    /// What `f32_to_vec4` needs.
    pub open spec fn can_convert_to_vec4(self) -> bool {
        &&& self.rank <= 4
        &&& self.stride[self.vec4_axis()] == 1
        &&& self.size[self.vec4_axis()] % 4 == 0
        &&& forall|k: int| 0 <= k < 4 ==> #[trigger] self.stride[k] == 1 || self.stride[k] % 4 == 0
    }

    /// The layout of the same data seen as groups of four values.
    pub open spec fn as_vec4(self) -> LayoutView {
        let dim = self.vec4_axis();
        LayoutView {
            size: self.size.update(dim, (self.size[dim] / 4) as u32),
            stride: Seq::new(4, |k: int| ((self.stride[k] + 3) / 4) as u32),
            rank: self.rank,
            offset: self.offset,
        }
    }

    /// Every dimension within the rank is either broadcast (stride 0) or
    /// packed right after the dimensions that follow it.
    pub open spec fn is_contiguous(self) -> bool {
        forall|i: int|
            0 <= i < self.rank ==> #[trigger] self.stride[i] == 0 || self.stride[i]
                == packed_stride(self.dims(), i)
    }
}

/// The stride of dimension `k` in a view of `shape`: the explicit stride
/// when one is given, else 1 for the last dimension and the stride times the
/// size of the next dimension for the others.
pub open spec fn view_stride(shape: Seq<u32>, stride: Seq<Option<u32>>, k: int) -> int
    decreases shape.len() - k,
{
    if k < 0 || k >= shape.len() {
        0
    } else if k < stride.len() && stride[k] is Some {
        stride[k]->0 as int
    } else if k == shape.len() - 1 {
        1
    } else {
        view_stride(shape, stride, k + 1) * shape[k + 1]
    }
}

/// `p` moves the first `rank` dimensions among themselves and leaves the
/// others in place, each to a different position.
pub open spec fn is_axis_permutation(p: Seq<usize>, rank: int) -> bool {
    &&& p.len() == 4
    &&& forall|i: int, j: int| 0 <= i < j < 4 ==> p[i] != p[j]
    &&& forall|k: int| 0 <= k < rank ==> p[k] < rank
    &&& forall|k: int| rank <= k < 4 ==> p[k] == k
}

/// The dimension that a permutation `p` moves to position `j`.
pub open spec fn axis_source(p: Seq<usize>, j: int) -> int {
    choose|k: int| 0 <= k < 4 && p[k] == j
}

/// The index that [`GGML_IDS`] maps `i` to.
pub open spec fn ggml_axis(i: int) -> int {
    if i == 0 {
        1
    } else if i == 1 {
        0
    } else {
        i
    }
}

/// A permutation in GGML's ordering, converted to this crate's ordering.
pub open spec fn ggml_permutation(p: Seq<usize>) -> Seq<usize> {
    seq![
        ggml_axis(p[1] as int) as usize,
        ggml_axis(p[0] as int) as usize,
        ggml_axis(p[2] as int) as usize,
        ggml_axis(p[3] as int) as usize,
    ]
}

/// The sizes of `a` and `b` agree on every dimension within `a`'s rank,
/// unless one of them is 1 there.
pub open spec fn broadcast_compatible(a: LayoutView, b: LayoutView) -> bool {
    forall|k: int|
        0 <= k < a.rank ==> #[trigger] a.size[k] == 1 || b.size[k] == 1 || a.size[k] == b.size[k]
}

/// Both layouts brought to the larger rank (the smaller one gets leading
/// dimensions of size 1), with the stride of every dimension of size 1 set
/// to 0, in the order given; `None` when the sizes are incompatible.
pub open spec fn broadcast_of(a: LayoutView, b: LayoutView) -> Option<(LayoutView, LayoutView)> {
    if a.rank <= b.rank {
        let a2 = a.aligned_to_rank(b.rank).unit_strides_zeroed();
        let b2 = b.unit_strides_zeroed();
        if broadcast_compatible(a2, b2) {
            Some((a2, b2))
        } else {
            None
        }
    } else {
        let a2 = a.unit_strides_zeroed();
        let b2 = b.aligned_to_rank(a.rank).unit_strides_zeroed();
        if broadcast_compatible(b2, a2) {
            Some((a2, b2))
        } else {
            None
        }
    }
}

/// [`broadcast_of`], refused as well when a dimension of the target would
/// have to grow.
pub open spec fn broadcast_assign_of(target: LayoutView, source: LayoutView) -> Option<
    (LayoutView, LayoutView),
> {
    match broadcast_of(target, source) {
        None => None,
        Some((t, s)) => if forall|k: int| 0 <= k < t.rank ==> #[trigger] t.size[k] >= s.size[k] {
            Some((t, s))
        } else {
            None
        },
    }
}

} // verus!
