//! Tensor shape definition.

use vstd::prelude::*;
use crate::model::{
    broadcast_assign_of, broadcast_compatible, broadcast_of, contiguous_of, ggml_permutation,
    is_axis_permutation, axis_source, packed_stride, packed_strides_fit, pad_ones, view_stride,
    LayoutView,
};
use crate::products::{
    lemma_max_product_values, lemma_product_bounds, lemma_product_empty, lemma_product_step,
    max_product, product,
};

verus! {

/// GGML dimension index mapping: converts between GGML and vortx dimension ordering.
pub const GGML_IDS: [usize; 4] = [1, 0, 2, 3];

/// GGML dimension index mapping (u32 version).
pub const GGML_IDS_U32: [u32; 4] = [1, 0, 2, 3];

/// The shape of a matrix view over a GPU tensor.
#[derive(Debug, Copy, Clone, PartialEq, Eq, Hash)]
pub struct TensorLayout {
    /// The tensor view's number of rows, columns, matrices, and 3-tensors.
    pub size: [u32; 4],
    /// The stride along each dimension.
    pub stride: [u32; 4],
    /// The tensor rank.
    pub rank: u32,
    /// The starting index in the underlying buffer.
    pub offset: u32,
}

impl TensorLayout {
    /// The layout's mathematical content.
    pub open spec fn model(self) -> LayoutView {
        LayoutView { size: self.size@, stride: self.stride@, rank: self.rank, offset: self.offset }
    }
}

/// The eight values handed to shaders for a layout: sizes and strides
/// beyond the rank are replaced by 1 and by the last stride within the rank
/// (1 for a rank-0 layout).
pub open spec fn gpu_size(v: LayoutView, k: int) -> u32 {
    if k < v.rank {
        v.size[k]
    } else {
        1
    }
}

/// See [`gpu_size`].
pub open spec fn gpu_stride(v: LayoutView, k: int) -> u32 {
    if k < v.rank {
        v.stride[k]
    } else if v.rank > 0 {
        v.stride[v.rank - 1]
    } else {
        1
    }
}

/// A tensor layout as laid out for shaders.
#[derive(Debug, Copy, Clone, PartialEq, Eq)]
pub struct GpuTensorLayout {
    pub n: u32,
    pub c: u32,
    pub h: u32,
    pub w: u32,
    pub n_stride: u32,
    pub c_stride: u32,
    pub h_stride: u32,
    pub w_stride: u32,
}

/// The shader layout of `v`.
pub open spec fn gpu_layout_of(v: LayoutView) -> GpuTensorLayout {
    GpuTensorLayout {
        n: gpu_size(v, 0),
        c: gpu_size(v, 1),
        h: gpu_size(v, 2),
        w: gpu_size(v, 3),
        n_stride: gpu_stride(v, 0),
        c_stride: gpu_stride(v, 1),
        h_stride: gpu_stride(v, 2),
        w_stride: gpu_stride(v, 3),
    }
}

impl From<TensorLayout> for GpuTensorLayout {
    fn from(shape: TensorLayout) -> (r: Self) {
        let mut size = shape.size;
        let mut stride = shape.stride;

        // Ensure we don't send garbage data on dimensions
        // beyond the tensor rank.
        let mut k = shape.rank;
        while k < 4
            invariant
                forall|i: int| 0 <= i < 4 && i < k ==> size[i] == gpu_size(shape.model(), i),
                forall|i: int| 0 <= i < 4 && i < k ==> stride[i] == gpu_stride(shape.model(), i),
                forall|i: int| 0 <= i < 4 && i >= k ==> size[i] == shape.size[i],
                forall|i: int| 0 <= i < 4 && i >= k ==> stride[i] == shape.stride[i],
                shape.rank <= k,
            decreases 4 - k,
        {
            size[k as usize] = 1;
            if shape.rank > 0 {
                stride[k as usize] = stride[shape.rank as usize - 1];
            } else {
                stride[k as usize] = 1;
            }
            k += 1;
        }
        Self {
            n: size[0],
            c: size[1],
            h: size[2],
            w: size[3],
            n_stride: stride[0],
            c_stride: stride[1],
            h_stride: stride[2],
            w_stride: stride[3],
        }
    }
}

impl vstd::std_specs::convert::FromSpecImpl<TensorLayout> for GpuTensorLayout {
    open spec fn obeys_from_spec() -> bool {
        true
    }

    open spec fn from_spec(v: TensorLayout) -> Self {
        gpu_layout_of(v.model())
    }
}

impl TensorLayout {
    /// The sizes of the first `rank` dimensions.
    pub fn dims(&self) -> (r: &[u32])
        requires
            self.rank <= 4,
        ensures
            r@ == self.size@.subrange(0, self.rank as int),
    {
        vstd::slice::slice_subrange(self.size.as_slice(), 0, self.rank as usize)
    }

    /// The strides of the first `rank` dimensions.
    pub fn stride(&self) -> (r: &[u32])
        requires
            self.rank <= 4,
        ensures
            r@ == self.stride@.subrange(0, self.rank as int),
    {
        vstd::slice::slice_subrange(self.stride.as_slice(), 0, self.rank as usize)
    }

    /// The layout as handed to shaders.
    pub fn into_gpu(self) -> (r: GpuTensorLayout)
        ensures
            r == gpu_layout_of(self.model()),
    {
        GpuTensorLayout::from(self)
    }

    /// `size` padded with ones up to four dimensions, and its length.
    pub(crate) fn append_ones(size: &[u32]) -> (r: ([u32; 4], u32))
        requires
            size.len() <= 4,
        ensures
            r.0@ == pad_ones(size@),
            r.1 == size.len(),
    {
        let mut result = [1u32; 4];
        let n = size.len();
        for i in 0..n
            invariant
                n == size.len() <= 4,
                forall|j: int| 0 <= j < i ==> result[j] == size@[j],
                forall|j: int| i <= j < 4 ==> result[j] == 1,
        {
            result[i] = size[i];
        }
        assert(result@ =~= pad_ones(size@));
        (result, n as u32)
    }

    /// Creates a contiguous view shape with the given size and ordering.
    ///
    /// The `size.len()` is the tensor rank.
    pub fn contiguous(size: &[u32]) -> (r: Self)
        requires
            size.len() <= 4,
            packed_strides_fit(size@),
        ensures
            r.model() =~= contiguous_of(size@),
    {
        let ghost dims = size@;
        let (size, rank) = Self::append_ones(size);
        assert(size@.subrange(0, rank as int) =~= dims);
        let mut stride = [1u32; 4];
        let mut curr: u32 = 1;
        let mut k = rank as usize;
        while k > 0
            invariant
                0 <= k <= rank <= 4,
                rank == dims.len(),
                size@ == pad_ones(dims),
                packed_strides_fit(dims),
                k > 0 ==> curr == product(dims.subrange(k as int, rank as int)),
                forall|i: int| k <= i < rank ==> stride[i] == packed_stride(dims, i),
                forall|i: int| 0 <= i < k || rank <= i < 4 ==> stride[i] == 1,
            decreases k,
        {
            k -= 1;
            proof {
                if k + 1 == rank {
                    lemma_product_empty(dims, rank as int);
                }
            }
            assert(curr == packed_stride(dims, k as int));
            stride[k] = curr;
            if k > 0 {
                proof {
                    lemma_product_step(dims, k as int, rank as int);
                    assert(size[k as int] == dims[k as int]);
                    assert(curr * size[k as int] == dims[k as int] * curr) by (nonlinear_arith)
                        requires
                            size[k as int] == dims[k as int],
                    ;
                    assert(packed_stride(dims, k - 1) <= u32::MAX);
                    assert(dims.subrange(k as int, rank as int) =~= dims.subrange(
                        (k - 1) + 1,
                        dims.len() as int,
                    ));
                }
                curr = curr * size[k];
            }
        }
        let r = Self { size, stride, rank, offset: 0 };
        assert(r.model().stride =~= contiguous_of(dims).stride);
        r
    }

    /// The strides of `size` packed in row-major order.
    pub fn contiguous_strides<const RANK: usize>(size: [u32; RANK]) -> (r: [u32; RANK])
        requires
            RANK <= 4,
            packed_strides_fit(size@),
        ensures
            forall|k: int| 0 <= k < RANK ==> r[k] == packed_stride(size@, k),
    {
        let cont = Self::contiguous(size.as_slice());
        let mut result = size;
        for k in 0..RANK
            invariant
                RANK <= 4,
                size@.len() == RANK,
                packed_strides_fit(size@),
                cont.model() == contiguous_of(size@),
                forall|j: int| 0 <= j < k ==> result[j] == packed_stride(size@, j),
        {
            assert(packed_stride(size@, k as int) <= u32::MAX);
            proof {
                lemma_product_bounds(size@.subrange(k + 1, RANK as int));
            }
            result[k] = cont.stride[k];
        }
        result
    }

    /// Reshapes this (contiguous) layout to `shape`, keeping the offset.
    pub fn reshape(&self, shape: &[u32]) -> (r: Self)
        requires
            self.model().can_view(0, shape@, Seq::empty()),
        ensures
            r.model() =~= self.model().viewed(0, shape@, Seq::empty()),
    {
        let no_strides: [Option<u32>; 0] = [];
        let no_strides = no_strides.as_slice();
        assert(no_strides@ =~= Seq::<Option<u32>>::empty());
        self.view(0, shape, no_strides)
    }

    /// Adds enough dimensions of size 1 at the end of this tensor so it has the desired rank.
    ///
    /// Returns `None` if `rank > 4 || rank < self.rank`.
    pub fn unsqueeze_to_rank(self, rank: u32) -> (r: Option<Self>)
        requires
            0 < self.rank < rank <= 4 ==> self.stride[self.rank - 1] * self.size[self.rank - 1]
                <= u32::MAX,
        ensures
            r is Some <==> self.model().unsqueezed_to_rank(rank) is Some,
            r is Some ==> r->0.model() =~= self.model().unsqueezed_to_rank(rank)->0,
    {
        if rank > 4 || rank < self.rank {
            return None;
        }
        if self.rank == rank {
            return Some(self);
        }
        if self.rank == 0 {
            let r = Self { size: [1; 4], stride: [1; 4], rank, offset: self.offset };
            assert(r.model().size =~= Seq::new(4, |i: int| 1u32));
            assert(r.model().stride =~= Seq::new(4, |i: int| 1u32));
            Some(r)
        } else {
            let mut r = self;
            let last = self.rank as usize - 1;
            let default_stride = self.stride[last] * self.size[last];
            let mut k = self.rank as usize;
            while k < 4
                invariant
                    0 < self.rank <= k <= 4,
                    r.rank == self.rank,
                    r.offset == self.offset,
                    forall|j: int| 0 <= j < self.rank ==> r.size[j] == self.size[j],
                    forall|j: int| 0 <= j < self.rank ==> r.stride[j] == self.stride[j],
                    forall|j: int| self.rank <= j < k ==> r.size[j] == 1,
                    forall|j: int| self.rank <= j < k ==> r.stride[j] == default_stride,
                decreases 4 - k,
            {
                r.size[k] = 1;
                r.stride[k] = default_stride;
                k += 1;
            }
            r.rank = rank;
            let ghost expected = self.model().unsqueezed_to_rank(rank)->0;
            assert(r.model().size =~= expected.size);
            assert(r.model().stride =~= expected.stride);
            Some(r)
        }
    }

    /// Insert dimensions of size 1 on the left of the tensor until
    /// it reaches the maximum rank (4).
    pub fn canonicalize(self) -> (r: Self)
        requires
            self.rank <= 4,
            self.rank < 4 ==> packed_strides_fit(self.model().left_padded_dims()),
        ensures
            r.model() =~= self.model().canonicalized(),
    {
        if self.rank == 4 {
            return self;
        }
        let rank_diff = (4 - self.rank) as usize;
        let mut size = [1u32; 4];
        let dims = self.dims();
        for i in 0..dims.len()
            invariant
                rank_diff == 4 - self.rank,
                dims@ == self.model().dims(),
                forall|j: int| 0 <= j < rank_diff ==> size[j] == 1,
                forall|j: int| rank_diff <= j < rank_diff + i ==> size[j] == self.size[j - rank_diff],
                forall|j: int| rank_diff + i <= j < 4 ==> size[j] == 1,
        {
            size[rank_diff + i] = dims[i];
        }
        assert(size@ =~= self.model().left_padded_dims());
        let mut result = Self::contiguous(size.as_slice());
        // Inserting leading dimensions of size 1 does not move the view.
        result.offset = self.offset;
        let strides = self.stride();
        for i in 0..strides.len()
            invariant
                rank_diff == 4 - self.rank,
                strides@ == self.model().strides(),
                result.model().size == self.model().left_padded_dims(),
                result.rank == 4,
                result.offset == self.offset,
                forall|j: int|
                    0 <= j < rank_diff ==> result.stride[j] == packed_stride(
                        self.model().left_padded_dims(),
                        j,
                    ) as u32,
                forall|j: int|
                    rank_diff <= j < rank_diff + i ==> result.stride[j] == self.stride[j
                        - rank_diff],
        {
            result.stride[rank_diff + i] = strides[i];
        }
        assert(result.model().stride =~= self.model().canonicalized().stride);
        result
    }

    /// Inserts a dimension of size 1 at the given `axis` of this tensor.
    ///
    /// Return `None` if unsqueezing is not possible either because it would overflow the
    /// maximum tensor rank supported (4), or if the axis is > to the current tensor rank.
    pub fn unsqueeze(self, axis: u32) -> (r: Option<Self>)
        ensures
            r is Some <==> self.model().unsqueezed(axis as int) is Some,
            r is Some ==> r->0.model() =~= self.model().unsqueezed(axis as int)->0,
    {
        if self.rank >= 4 || axis > self.rank {
            return None;
        }
        let mut r = self;
        let a = axis as usize;
        let mut i: usize = 3;
        while i > a
            invariant
                a <= i <= 3,
                r.rank == self.rank,
                r.offset == self.offset,
                forall|j: int| i < j < 4 ==> r.size[j] == self.size[j - 1],
                forall|j: int| i < j < 4 ==> r.stride[j] == self.stride[j - 1],
                forall|j: int| 0 <= j <= i ==> r.size[j] == self.size[j],
                forall|j: int| 0 <= j <= i ==> r.stride[j] == self.stride[j],
            decreases i,
        {
            r.size[i] = r.size[i - 1];
            r.stride[i] = r.stride[i - 1];
            i -= 1;
        }
        r.size[a] = 1;
        // The new axis takes the stride of the axis that now follows it, or 1
        // when it is the last of four axes. On a contiguous layout the
        // contiguity check still passes for an axis inside the rank only when
        // the following axis has size 1.
        r.stride[a] = if a < 3 {
            r.stride[a + 1]
        } else {
            1
        };
        r.rank = self.rank + 1;
        let ghost expected = self.model().unsqueezed(axis as int)->0;
        assert(r.model().size =~= expected.size);
        assert(r.model().stride =~= expected.stride);
        Some(r)
    }

    /// Removes the dimension `axis`, which must have a size of 1.
    pub fn squeeze_axis(self, axis: u32) -> (r: Self)
        requires
            self.model().can_squeeze_axis(axis as int),
        ensures
            r.model() =~= self.model().squeezed_axis(axis as int),
    {
        let ghost new_size = self.model().squeezed_axis_sizes(axis as int);
        let mut r = self;
        let n = (self.rank - 1) as usize;
        let mut k = axis as usize;
        while k < n
            invariant
                axis <= k <= n,
                n == self.rank - 1,
                self.rank <= 4,
                r.rank == self.rank,
                r.offset == self.offset,
                forall|j: int| 0 <= j < axis ==> r.size[j] == self.size[j],
                forall|j: int| 0 <= j < axis ==> r.stride[j] == self.stride[j],
                forall|j: int| axis <= j < k ==> r.size[j] == self.size[j + 1],
                forall|j: int| axis <= j < k ==> r.stride[j] == self.stride[j + 1],
                forall|j: int| k <= j < 4 ==> r.size[j] == self.size[j],
                forall|j: int| k <= j < 4 ==> r.stride[j] == self.stride[j],
            decreases n - k,
        {
            r.size[k] = r.size[k + 1];
            r.stride[k] = r.stride[k + 1];
            k += 1;
        }
        r.rank = self.rank - 1;
        // Doesn't really matter but good to know it contains sane values.
        r.size[n] = 1;
        assert(r.size@ =~= new_size);
        if n > 0 {
            let mut p: u64 = 1;
            let mut j = n - 1;
            while j > 0
                invariant
                    j <= n - 1,
                    n <= 3,
                    r.size@ == new_size,
                    p == product(new_size.subrange(j as int, n - 1)),
                decreases j,
            {
                j -= 1;
                proof {
                    let rest = new_size.subrange(j + 1, n - 1);
                    lemma_product_bounds(rest);
                    lemma_max_product_values();
                    assert(rest.len() <= 1);
                    assert(max_product(rest.len()) <= max_product(1)) by {
                        reveal_with_fuel(max_product, 2);
                    }
                    let x = new_size[j as int];
                    assert(p * x <= 0xFFFF_FFFF * 0xFFFF_FFFF) by (nonlinear_arith)
                        requires
                            0 <= p <= 0xFFFF_FFFF,
                            0 <= x <= 0xFFFF_FFFF,
                    ;
                    lemma_product_step(new_size, j as int, n - 1);
                    assert(p * x == new_size[j as int] * p) by (nonlinear_arith)
                        requires
                            x == new_size[j as int],
                    ;
                }
                p = p * r.size[j] as u64;
            }
            r.stride[n] = p as u32;
        }
        assert(r.model().stride =~= self.model().squeezed_axis(axis as int).stride);
        r
    }

    /// The `i`-th element along axis 0, with that axis removed.
    pub fn index(self, i: u32) -> (r: Self)
        requires
            self.model().can_narrow(0, i as int, 1),
            self.model().narrowed(0, i as int, 1).can_squeeze_axis(0),
        ensures
            r.model() =~= self.model().narrowed(0, i as int, 1).squeezed_axis(0),
    {
        self.narrow(0, i, 1).squeeze_axis(0)
    }

    /// Creates a view with the specified shape and strides within this shape.
    pub fn view(&self, offset: u32, shape: &[u32], stride: &[Option<u32>]) -> (r: Self)
        requires
            self.model().can_view(offset as int, shape@, stride@),
        ensures
            r.model() =~= self.model().viewed(offset as int, shape@, stride@),
    {
        let new_rank = shape.len();
        let (size, _) = Self::append_ones(shape);
        let mut new_stride = [0u32; 4];
        let mut k = new_rank;
        while k > 0
            invariant
                k <= new_rank <= 4,
                new_rank == shape.len(),
                size@ == pad_ones(shape@),
                self.model().can_view(offset as int, shape@, stride@),
                forall|j: int|
                    k <= j < new_rank ==> new_stride[j] == view_stride(shape@, stride@, j),
                forall|j: int| 0 <= j < k || new_rank <= j < 4 ==> new_stride[j] == 0,
            decreases k,
        {
            k -= 1;
            let explicit: Option<u32> = if k < stride.len() {
                stride[k]
            } else {
                None
            };
            assert(view_stride(shape@, stride@, k as int) <= u32::MAX);
            let s = match explicit {
                Some(s) => s,
                None => {
                    if k + 1 == new_rank {
                        1
                    } else {
                        assert(size[k + 1] == shape@[k + 1]);
                        new_stride[k + 1] * size[k + 1]
                    }
                },
            };
            new_stride[k] = s;
        }
        let r = Self {
            size,
            stride: new_stride,
            rank: new_rank as u32,
            offset: self.offset + offset,
        };
        assert(r.model().stride =~= self.model().viewed(offset as int, shape@, stride@).stride);
        r
    }

    /// Removes every dimension of size 1.
    pub fn squeeze(self) -> (r: Self)
        requires
            self.model().can_squeeze(),
        ensures
            r.model() =~= self.model().squeezed(),
    {
        let ghost v = self.model();
        let mut r = self;
        let mut new_rank: usize = 0;
        let rank = self.rank as usize;
        for k in 0..rank
            invariant
                rank == self.rank <= 4,
                v == self.model(),
                new_rank == v.kept_dims(k as int).len(),
                new_rank <= k,
                r.offset == self.offset,
                forall|j: int| 0 <= j < new_rank ==> r.size[j] == v.kept_dims(k as int)[j].0,
                forall|j: int| 0 <= j < new_rank ==> r.stride[j] == v.kept_dims(k as int)[j].1,
                forall|j: int| k <= j < 4 ==> r.size[j] == self.size[j],
                forall|j: int| k <= j < 4 ==> r.stride[j] == self.stride[j],
        {
            if r.size[k] != 1 {
                r.size[new_rank] = r.size[k];
                r.stride[new_rank] = r.stride[k];
                new_rank += 1;
            }
        }
        if new_rank == 0 {
            let z = Self { size: [1; 4], stride: [1; 4], rank: 0, offset: self.offset };
            assert(z.model().size =~= v.squeezed().size);
            assert(z.model().stride =~= v.squeezed().stride);
            z
        } else {
            let ghost kept = v.kept_dims(rank as int);
            let pad_stride = if new_rank < 4 {
                r.stride[new_rank - 1] * r.size[new_rank - 1]
            } else {
                0
            };
            for k in new_rank..4
                invariant
                    0 < new_rank <= 4,
                    new_rank == kept.len(),
                    kept == v.kept_dims(rank as int),
                    new_rank < 4 ==> pad_stride == (kept[new_rank - 1].1 * kept[new_rank
                        - 1].0) as u32,
                    r.offset == self.offset,
                    forall|j: int| 0 <= j < new_rank ==> r.size[j] == kept[j].0,
                    forall|j: int| 0 <= j < new_rank ==> r.stride[j] == kept[j].1,
                    forall|j: int| new_rank <= j < k ==> r.size[j] == 1,
                    forall|j: int| new_rank <= j < k ==> r.stride[j] == pad_stride,
            {
                r.size[k] = 1;
                // Not very important, but we set strides that maximizes changes of
                // the tensor being contiguous.
                r.stride[k] = pad_stride;
            }
            r.rank = new_rank as u32;
            assert(r.model().size =~= v.squeezed().size);
            assert(r.model().stride =~= v.squeezed().stride);
            r
        }
    }

    /// Permutes the dimensions according to the given permutation array:
    /// dimension `k` moves to position `permutations[k]`.
    pub fn permute(&self, permutations: [usize; 4]) -> (r: Self)
        requires
            self.rank <= 4,
            is_axis_permutation(permutations@, self.rank as int),
        ensures
            r.model() =~= self.model().permuted(permutations@),
    {
        let mut size = [0u32; 4];
        let mut stride = [0u32; 4];
        for k in 0..4
            invariant
                self.rank <= 4,
                is_axis_permutation(permutations@, self.rank as int),
                forall|j: int| 0 <= j < k ==> size[permutations[j] as int] == self.size[j],
                forall|j: int| 0 <= j < k ==> stride[permutations[j] as int] == self.stride[j],
        {
            size[permutations[k]] = self.size[k];
            stride[permutations[k]] = self.stride[k];
        }
        let r = Self { size, stride, rank: self.rank, offset: self.offset };
        let ghost p = permutations@;
        assert forall|j: int| 0 <= j < 4 implies p[axis_source(p, j)] == j
            && 0 <= axis_source(p, j) < 4 by {
            assert(p[0] as int == j || p[1] as int == j || p[2] as int == j || p[3] as int == j);
        }
        assert(r.model().size =~= self.model().permuted(p).size);
        assert(r.model().stride =~= self.model().permuted(p).stride);
        r
    }

    /// Permutes the dimensions according to GGML's dimension ordering convention.
    pub fn permute_ggml(&self, permutations: [usize; 4]) -> (r: Self)
        requires
            self.rank <= 4,
            forall|k: int| 0 <= k < 4 ==> permutations[k] < 4,
            is_axis_permutation(ggml_permutation(permutations@), self.rank as int),
        ensures
            r.model() =~= self.model().permuted(ggml_permutation(permutations@)),
    {
        let mut perm = permutations;
        let first = perm[0];
        perm[0] = perm[1];
        perm[1] = first;
        let mapped = [
            GGML_IDS[perm[0]],
            GGML_IDS[perm[1]],
            GGML_IDS[perm[2]],
            GGML_IDS[perm[3]],
        ];
        assert(mapped@ =~= ggml_permutation(permutations@));
        self.permute(mapped)
    }

    /// Broadcast `self` and `other` to make their dimensions compatible, if possible.
    pub fn broadcast(self, other: Self) -> (r: Option<(Self, Self)>)
        requires
            self.rank <= 4,
            other.rank <= 4,
        ensures
            r is Some <==> broadcast_of(self.model(), other.model()) is Some,
            r is Some ==> (r->0).0.model() =~= (broadcast_of(self.model(), other.model())->0).0,
            r is Some ==> (r->0).1.model() =~= (broadcast_of(self.model(), other.model())->0).1,
    {
        // To simplify the code, ensure the smallest rank is in `lo`.
        let flip = self.rank > other.rank;
        let (mut lo, mut hi) = if flip {
            (other, self)
        } else {
            (self, other)
        };
        let ghost lo0 = lo.model();
        let ghost hi0 = hi.model();
        let ghost expected_lo = lo0.aligned_to_rank(hi0.rank).unit_strides_zeroed();
        let ghost expected_hi = hi0.unit_strides_zeroed();

        // Equalize ranks.
        let rank_diff = (hi.rank - lo.rank) as usize;
        let mut k = lo.rank as usize;
        while k > 0
            invariant
                lo0.rank <= hi0.rank <= 4,
                lo.model().rank == lo0.rank,
                lo.offset == lo0.offset,
                rank_diff == hi0.rank - lo0.rank,
                k <= lo0.rank,
                forall|j: int|
                    k + rank_diff <= j < lo0.rank + rank_diff ==> lo.size[j] == lo0.size[j
                        - rank_diff],
                forall|j: int|
                    k + rank_diff <= j < lo0.rank + rank_diff ==> lo.stride[j] == lo0.stride[j
                        - rank_diff],
                forall|j: int|
                    0 <= j < 4 && !(k + rank_diff <= j < lo0.rank + rank_diff) ==> lo.size[j]
                        == lo0.size[j],
                forall|j: int|
                    0 <= j < 4 && !(k + rank_diff <= j < lo0.rank + rank_diff) ==> lo.stride[j]
                        == lo0.stride[j],
            decreases k,
        {
            k -= 1;
            lo.size[k + rank_diff] = lo.size[k];
            lo.stride[k + rank_diff] = lo.stride[k];
        }
        for k in 0..rank_diff
            invariant
                lo0.rank <= hi0.rank <= 4,
                rank_diff == hi0.rank - lo0.rank,
                lo.offset == lo0.offset,
                forall|j: int| 0 <= j < k ==> lo.size[j] == 1,
                forall|j: int| k <= j < rank_diff ==> lo.size[j] == lo0.size[j],
                forall|j: int| rank_diff <= j < hi0.rank ==> lo.size[j] == lo0.size[j - rank_diff],
                forall|j: int| hi0.rank <= j < 4 ==> lo.size[j] == lo0.size[j],
                lo.stride@ == lo0.aligned_to_rank(hi0.rank).stride,
        {
            lo.size[k] = 1;
            // NOTE: strides will be adjusted after.
        }
        lo.rank = hi.rank;
        assert(lo.model() =~= lo0.aligned_to_rank(hi0.rank));

        // Adjust strides.
        let rank = lo.rank as usize;
        for k in 0..rank
            invariant
                rank == hi0.rank <= 4,
                expected_lo == lo0.aligned_to_rank(hi0.rank).unit_strides_zeroed(),
                expected_hi == hi0.unit_strides_zeroed(),
                lo.size@ == expected_lo.size,
                lo.rank == expected_lo.rank,
                lo.offset == expected_lo.offset,
                hi.size@ == expected_hi.size,
                hi.rank == expected_hi.rank,
                hi.offset == expected_hi.offset,
                forall|j: int| 0 <= j < k ==> lo.stride[j] == expected_lo.stride[j],
                forall|j: int| k <= j < 4 ==> lo.stride[j] == lo0.aligned_to_rank(hi0.rank).stride[j],
                forall|j: int| 0 <= j < k ==> hi.stride[j] == expected_hi.stride[j],
                forall|j: int| k <= j < 4 ==> hi.stride[j] == hi0.stride[j],
        {
            if lo.size[k] == 1 {
                lo.stride[k] = 0;
            }
            if hi.size[k] == 1 {
                hi.stride[k] = 0;
            }
            assert(lo.stride[k as int] == expected_lo.stride[k as int]);
            assert(hi.stride[k as int] == expected_hi.stride[k as int]);
        }
        assert(lo.model() =~= expected_lo);
        assert(hi.model() =~= expected_hi);

        // Check compatibility.
        for k in 0..rank
            invariant
                rank == hi0.rank <= 4,
                flip == (self.rank > other.rank),
                flip ==> lo0 == other.model() && hi0 == self.model(),
                !flip ==> lo0 == self.model() && hi0 == other.model(),
                expected_lo == lo0.aligned_to_rank(hi0.rank).unit_strides_zeroed(),
                expected_hi == hi0.unit_strides_zeroed(),
                lo.model() == expected_lo,
                hi.model() == expected_hi,
                forall|j: int|
                    0 <= j < k ==> #[trigger] lo.size[j] == 1 || hi.size[j] == 1 || lo.size[j]
                        == hi.size[j],
        {
            if lo.size[k] != 1 && hi.size[k] != 1 && lo.size[k] != hi.size[k] {
                assert(!(expected_lo.size[k as int] == 1 || expected_hi.size[k as int] == 1
                    || expected_lo.size[k as int] == expected_hi.size[k as int]));
                return None;
            }
        }
        assert(broadcast_compatible(expected_lo, expected_hi));

        // Return results (flip is needed).
        if flip {
            Some((hi, lo))
        } else {
            Some((lo, hi))
        }
    }

    /// Same as [`Self::broadcast`] except that it also return `None` if the result of an assignment
    /// from `source` to `self` would grow the dimension of `self`.
    pub fn broadcast_assign(self, source: Self) -> (r: Option<(Self, Self)>)
        requires
            self.rank <= 4,
            source.rank <= 4,
        ensures
            r is Some <==> broadcast_assign_of(self.model(), source.model()) is Some,
            r is Some ==> (r->0).0.model() =~= (broadcast_assign_of(
                self.model(),
                source.model(),
            )->0).0,
            r is Some ==> (r->0).1.model() =~= (broadcast_assign_of(
                self.model(),
                source.model(),
            )->0).1,
    {
        let ghost both = broadcast_of(self.model(), source.model());
        let (target, src) = match self.broadcast(source) {
            Some(pair) => pair,
            None => return None,
        };
        let ghost t = target.model();
        let ghost s = src.model();
        let rank = target.rank as usize;
        for k in 0..rank
            invariant
                rank == target.rank,
                both == broadcast_of(self.model(), source.model()),
                both is Some,
                (both->0).0 =~= t,
                (both->0).1 =~= s,
                t == target.model(),
                s == src.model(),
                target.rank <= 4,
                forall|j: int| 0 <= j < k ==> #[trigger] t.size[j] >= s.size[j],
        {
            if target.size[k] < src.size[k] {
                assert(!((both->0).0.size[k as int] >= (both->0).1.size[k as int]));
                return None;
            }
        }
        Some((target, src))
    }

    /// Converts the shape `self` for a buffer `&[f32]` to a buffer `&[vec4f]`.
    pub fn f32_to_vec4(self) -> (r: Self)
        requires
            self.model().can_convert_to_vec4(),
        ensures
            r.model() =~= self.model().as_vec4(),
    {
        let dim = if self.rank == 0 {
            0
        } else {
            (self.rank - 1) as usize
        };
        let mut new_stride = self.stride;
        for k in 0..4
            invariant
                forall|j: int| 0 <= j < k ==> new_stride[j] == ((self.stride[j] + 3) / 4) as u32,
        {
            let s = self.stride[k];
            new_stride[k] = s / 4 + if s % 4 == 0 {
                0
            } else {
                1
            };
        }
        let mut new_size = self.size;
        new_size[dim] = new_size[dim] / 4;
        let r = Self { size: new_size, stride: new_stride, rank: self.rank, offset: self.offset };
        assert(r.model().size =~= self.model().as_vec4().size);
        assert(r.model().stride =~= self.model().as_vec4().stride);
        r
    }

    /// Checks if a tensor with this shape is contiguous in memory (in row-major order).
    pub fn is_contiguous(&self) -> (r: bool)
        requires
            self.rank <= 4,
        ensures
            r == self.model().is_contiguous(),
    {
        let ghost dims = self.model().dims();
        let rank = self.rank as usize;
        let mut curr: u128 = 1;
        let mut i = rank;
        while i > 0
            invariant
                i <= rank <= 4,
                rank == self.rank,
                dims == self.model().dims(),
                i > 0 ==> curr == product(dims.subrange(i as int, rank as int)),
                forall|j: int|
                    i <= j < rank ==> #[trigger] self.stride[j] == 0 || self.stride[j]
                        == packed_stride(dims, j),
            decreases i,
        {
            i -= 1;
            proof {
                if i + 1 == rank {
                    lemma_product_empty(dims, rank as int);
                }
            }
            assert(curr == packed_stride(dims, i as int));
            if self.stride[i] != 0 && self.stride[i] as u128 != curr {
                assert(!(self.model().stride[i as int] == 0 || self.model().stride[i as int] == packed_stride(
                    self.model().dims(),
                    i as int,
                )));
                return false;
            }
            if i > 0 {
                proof {
                    let rest = dims.subrange(i + 1, rank as int);
                    lemma_product_bounds(rest);
                    lemma_max_product_values();
                    assert(rest.len() <= 2);
                    assert(max_product(rest.len()) <= max_product(2)) by {
                        reveal_with_fuel(max_product, 3);
                    }
                    let x = self.size[i as int];
                    assert(curr * x <= 0xFFFF_FFFE_0000_0001 * 0xFFFF_FFFF) by (nonlinear_arith)
                        requires
                            0 <= curr <= 0xFFFF_FFFE_0000_0001,
                            0 <= x <= 0xFFFF_FFFF,
                    ;
                    lemma_product_step(dims, i as int, rank as int);
                    assert(self.size[i as int] == dims[i as int]);
                    assert(curr * x == dims[i as int] * curr) by (nonlinear_arith)
                        requires
                            x == dims[i as int],
                    ;
                }
                curr = curr * self.size[i] as u128;
            }
        }
        true
    }

    /// The product of the sizes within the rank, which never overflows a `u128`.
    fn elt_count(&self) -> (r: u128)
        requires
            self.rank <= 4,
        ensures
            r == self.model().len(),
    {
        let ghost dims = self.model().dims();
        let rank = self.rank as usize;
        let mut curr: u128 = 1;
        let mut i = rank;
        while i > 0
            invariant
                i <= rank <= 4,
                rank == self.rank,
                dims == self.model().dims(),
                curr == product(dims.subrange(i as int, rank as int)),
            decreases i,
        {
            i -= 1;
            proof {
                let rest = dims.subrange(i + 1, rank as int);
                lemma_product_bounds(rest);
                lemma_max_product_values();
                assert(rest.len() <= 3);
                assert(max_product(rest.len()) <= max_product(3)) by {
                    reveal_with_fuel(max_product, 4);
                }
                let x = self.size[i as int];
                assert(curr * x <= 0xFFFF_FFFD_0000_0002_FFFF_FFFF * 0xFFFF_FFFF)
                    by (nonlinear_arith)
                    requires
                        0 <= curr <= 0xFFFF_FFFD_0000_0002_FFFF_FFFF,
                        0 <= x <= 0xFFFF_FFFF,
                ;
                lemma_product_step(dims, i as int, rank as int);
                assert(self.size[i as int] == dims[i as int]);
                assert(curr * x == dims[i as int] * curr) by (nonlinear_arith)
                    requires
                        x == dims[i as int],
                ;
            }
            curr = curr * self.size[i] as u128;
        }
        assert(dims.subrange(0, rank as int) =~= dims);
        curr
    }

    /// Whether a buffer of `buffer_len` elements is exactly this view: as many
    /// elements, no offset, and a contiguous layout.
    pub fn is_entire(&self, buffer_len: u64) -> (r: bool)
        requires
            self.rank <= 4,
        ensures
            r == (buffer_len == self.model().len() && self.offset == 0
                && self.model().is_contiguous()),
    {
        buffer_len as u128 == self.elt_count() && self.offset == 0 && self.is_contiguous()
    }

    /// Checks if this shape contains zero elements.
    pub fn is_empty(&self) -> (r: bool)
        requires
            self.rank <= 4,
        ensures
            r == (self.model().len() == 0),
    {
        self.elt_count() == 0
    }

    /// Returns the total number of elements in this shape.
    pub fn len(&self) -> (r: u64)
        requires
            self.rank <= 4,
            self.model().len() <= u64::MAX,
        ensures
            r == self.model().len(),
    {
        self.elt_count() as u64
    }

    /// Returns a transposed view of this shape.
    pub fn transpose(self, axis_a: usize, axis_b: usize) -> (r: Self)
        requires
            axis_a < self.rank,
            axis_b < self.rank,
            axis_a < 4,
            axis_b < 4,
        ensures
            r.model() =~= self.model().transposed(axis_a as int, axis_b as int),
    {
        let mut r = self;
        let sa = r.stride[axis_a];
        let sb = r.stride[axis_b];
        r.stride[axis_a] = sb;
        r.stride[axis_b] = sa;
        let za = r.size[axis_a];
        let zb = r.size[axis_b];
        r.size[axis_a] = zb;
        r.size[axis_b] = za;
        r
    }

    /// Transposes the last two dimensions within the rank.
    pub fn transpose_last_dims(self) -> (r: Self)
        requires
            2 <= self.rank <= 4,
        ensures
            r.model() =~= self.model().transposed(self.rank - 2, self.rank - 1),
    {
        self.transpose(self.rank as usize - 2, self.rank as usize - 1)
    }

    /// Keeps `new_nelts` elements of `axis`, starting from index `first_elt`.
    pub fn narrow(&self, axis: u32, first_elt: u32, new_nelts: u32) -> (r: Self)
        requires
            self.model().can_narrow(axis as int, first_elt as int, new_nelts as int),
        ensures
            r.model() =~= self.model().narrowed(axis as int, first_elt as int, new_nelts),
    {
        let mut new_size = self.size;
        new_size[axis as usize] = new_nelts;
        assert(self.stride[axis as int] * first_elt <= u32::MAX) by (nonlinear_arith)
            requires
                self.offset + self.stride[axis as int] * first_elt <= u32::MAX,
        ;
        TensorLayout {
            size: new_size,
            stride: self.stride,
            rank: self.rank,
            offset: self.offset + self.stride[axis as usize] * first_elt,
        }
    }

    /// Returns a view of the `matrix_id`-th matrix in this tensor.
    pub fn matrix(&self, matrix_id: u32) -> (r: Self)
        requires
            self.model().can_narrow(2, matrix_id as int, 1),
        ensures
            r.model() =~= self.model().narrowed(2, matrix_id as int, 1),
    {
        self.narrow(2, matrix_id, 1)
    }

    /// Returns a view containing `new_ncols` columns starting from `first_col`.
    pub fn columns(&self, first_col: u32, new_ncols: u32) -> (r: Self)
        requires
            self.model().can_narrow(1, first_col as int, new_ncols as int),
        ensures
            r.model() =~= self.model().narrowed(1, first_col as int, new_ncols),
    {
        self.narrow(1, first_col, new_ncols)
    }

    /// Returns a view of the specified column.
    pub fn column(&self, col: u32) -> (r: Self)
        requires
            self.model().can_narrow(1, col as int, 1),
        ensures
            r.model() =~= self.model().narrowed(1, col as int, 1),
    {
        self.columns(col, 1)
    }

    /// Returns a view containing `new_nrows` rows starting from `first_row`.
    pub fn rows(&self, first_row: u32, new_nrows: u32) -> (r: Self)
        requires
            self.model().can_narrow(0, first_row as int, new_nrows as int),
        ensures
            r.model() =~= self.model().narrowed(0, first_row as int, new_nrows),
    {
        self.narrow(0, first_row, new_nrows)
    }

    /// Returns a view of the specified row.
    pub fn row(&self, row: u32) -> (r: Self)
        requires
            self.model().can_narrow(0, row as int, 1),
        ensures
            r.model() =~= self.model().narrowed(0, row as int, 1),
    {
        self.rows(row, 1)
    }
}

} // verus!
