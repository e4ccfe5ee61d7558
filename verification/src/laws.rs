//! What holds across the layout operations: the properties that the
//! documentation promises of the library as a whole, proved over the models
//! that the operations' contracts use.

use vstd::prelude::*;
use crate::products::{
    lemma_product_bounds, lemma_product_drop_last, lemma_product_empty, lemma_product_reindex,
    lemma_product_remove, lemma_product_step, lemma_product_zero, product,
};
use crate::shapes::gpu_layout_of;
use crate::model::{
    ggml_permutation, axis_source, broadcast_assign_of, broadcast_compatible, broadcast_of, contiguous_of, is_axis_permutation,
    packed_stride, packed_strides_fit, view_stride, LayoutView,
};

verus! {

/// The sizes and strides of `v` are four entries long, as those of every
/// `TensorLayout` are.
pub open spec fn four_dims(v: LayoutView) -> bool {
    v.size.len() == 4 && v.stride.len() == 4
}

/// `n` ones.
pub open spec fn ones(n: int) -> Seq<u32> {
    Seq::new(n as nat, |i: int| 1u32)
}

/// A layout created by `contiguous` passes the contiguity check, has the
/// requested dimensions and holds as many elements as they multiply to.
pub proof fn law_contiguous_is_contiguous(dims: Seq<u32>)
    requires
        dims.len() <= 4,
        packed_strides_fit(dims),
    ensures
        contiguous_of(dims).is_contiguous(),
        contiguous_of(dims).dims() =~= dims,
        contiguous_of(dims).len() == product(dims),
{
    let v = contiguous_of(dims);
    assert(v.dims() =~= dims);
    assert forall|i: int| 0 <= i < v.rank implies #[trigger] v.stride[i] == 0 || v.stride[i]
        == packed_stride(v.dims(), i) by {
        lemma_product_bounds(dims.subrange(i + 1, dims.len() as int));
        assert(packed_stride(dims, i) <= u32::MAX);
    }
}

/// With no explicit stride, the strides of a view are the packed ones.
pub proof fn lemma_view_stride_packed(shape: Seq<u32>, k: int)
    requires
        0 <= k < shape.len(),
    ensures
        view_stride(shape, Seq::empty(), k) == packed_stride(shape, k),
    decreases shape.len() - k,
{
    let n = shape.len() as int;
    if k == n - 1 {
        lemma_product_empty(shape, n);
    } else {
        lemma_view_stride_packed(shape, k + 1);
        lemma_product_step(shape, k + 1, n);
        let p = packed_stride(shape, k + 1);
        let x = shape[k + 1] as int;
        assert(p * x == x * p) by (nonlinear_arith);
    }
}

/// A reshaped layout is contiguous, has the requested dimensions, keeps the
/// source's offset, and holds no more elements than the source.
pub proof fn law_reshape_is_contiguous(v: LayoutView, shape: Seq<u32>)
    requires
        v.can_view(0, shape, Seq::empty()),
    ensures
        v.viewed(0, shape, Seq::empty()).is_contiguous(),
        v.viewed(0, shape, Seq::empty()).dims() =~= shape,
        v.viewed(0, shape, Seq::empty()).len() == product(shape),
        v.viewed(0, shape, Seq::empty()).len() <= product(v.size),
        v.viewed(0, shape, Seq::empty()).offset == v.offset,
        v.viewed(0, shape, Seq::empty()).size =~= contiguous_of(shape).size,
        v.viewed(0, shape, Seq::empty()).strides() =~= contiguous_of(shape).strides(),
        v.viewed(0, shape, Seq::empty()).rank == contiguous_of(shape).rank,
{
    let w = v.viewed(0, shape, Seq::empty());
    assert(w.dims() =~= shape);
    assert forall|i: int| 0 <= i < w.rank implies #[trigger] w.stride[i] == 0 || w.stride[i]
        == packed_stride(w.dims(), i) by {
        lemma_view_stride_packed(shape, i);
        lemma_product_bounds(shape.subrange(i + 1, shape.len() as int));
        assert(view_stride(shape, Seq::empty(), i) <= u32::MAX);
    }
    assert forall|i: int| 0 <= i < shape.len() implies #[trigger] w.strides()[i]
        == contiguous_of(shape).strides()[i] by {
        lemma_view_stride_packed(shape, i);
    }
    assert(w.strides() =~= contiguous_of(shape).strides());
}

/// Transposing the same two axes twice gives the layout back.
pub proof fn law_transpose_twice(v: LayoutView, a: int, b: int)
    requires
        four_dims(v),
        0 <= a < 4,
        0 <= b < 4,
    ensures
        v.transposed(a, b).transposed(a, b) =~= v,
{
}

/// Transposing keeps the number of elements.
pub proof fn law_transpose_keeps_len(v: LayoutView, a: int, b: int)
    requires
        four_dims(v),
        v.rank <= 4,
        0 <= a < v.rank,
        0 <= b < v.rank,
    ensures
        v.transposed(a, b).len() == v.len(),
        v.transposed(a, b).rank == v.rank,
{
    let t = v.transposed(a, b);
    let f = |j: int|
        if j == a {
            b
        } else if j == b {
            a
        } else {
            j
        };
    assert forall|j: int| 0 <= j < t.dims().len() implies 0 <= #[trigger] f(j) < v.dims().len()
        && t.dims()[j] == v.dims()[f(j)] by {}
    assert forall|i: int, j: int| 0 <= i < j < t.dims().len() implies #[trigger] f(i)
        != #[trigger] f(j) by {}
    lemma_product_reindex(v.dims(), t.dims(), f);
}

/// Permuting keeps the rank and the number of elements.
pub proof fn law_permute_keeps_len(v: LayoutView, p: Seq<usize>)
    requires
        four_dims(v),
        v.rank <= 4,
        is_axis_permutation(p, v.rank as int),
    ensures
        v.permuted(p).len() == v.len(),
        v.permuted(p).rank == v.rank,
{
    let w = v.permuted(p);
    let f = |j: int| axis_source(p, j);
    assert forall|j: int| 0 <= j < 4 implies p[axis_source(p, j)] == j && 0 <= axis_source(p, j)
        < 4 by {
        assert(p[0] as int == j || p[1] as int == j || p[2] as int == j || p[3] as int == j);
    }
    assert forall|j: int| 0 <= j < w.dims().len() implies 0 <= #[trigger] f(j) < v.dims().len()
        && w.dims()[j] == v.dims()[f(j)] by {
        let k = axis_source(p, j);
        if k >= v.rank {
            assert(p[k] == k);
        }
    }
    assert forall|i: int, j: int| 0 <= i < j < w.dims().len() implies #[trigger] f(i)
        != #[trigger] f(j) by {
        assert(p[axis_source(p, i)] == i);
        assert(p[axis_source(p, j)] == j);
    }
    lemma_product_reindex(v.dims(), w.dims(), f);
}

/// Bringing a layout to its own rank changes nothing.
pub proof fn lemma_aligned_to_own_rank(v: LayoutView)
    requires
        four_dims(v),
    ensures
        v.aligned_to_rank(v.rank) =~= v,
{
}

/// Broadcasting is symmetric: swapping the two layouts swaps the results,
/// and one order fails exactly when the other does.
pub proof fn law_broadcast_symmetric(a: LayoutView, b: LayoutView)
    requires
        four_dims(a),
        four_dims(b),
    ensures
        broadcast_of(a, b) is Some <==> broadcast_of(b, a) is Some,
        broadcast_of(a, b) is Some ==> (broadcast_of(a, b)->0).0 =~= (broadcast_of(b, a)->0).1,
        broadcast_of(a, b) is Some ==> (broadcast_of(a, b)->0).1 =~= (broadcast_of(b, a)->0).0,
{
    if a.rank == b.rank {
        lemma_aligned_to_own_rank(a);
        lemma_aligned_to_own_rank(b);
        let a2 = a.unit_strides_zeroed();
        let b2 = b.unit_strides_zeroed();
        assert(broadcast_compatible(a2, b2) <==> broadcast_compatible(b2, a2));
    }
}

/// A successful broadcast gives both layouts the larger rank and sizes that
/// agree wherever neither is 1; the smaller layout gets leading dimensions
/// of size 1, every dimension of size 1 gets stride 0, and offsets are kept.
pub proof fn law_broadcast_result(a: LayoutView, b: LayoutView)
    requires
        four_dims(a),
        four_dims(b),
        a.rank <= 4,
        b.rank <= 4,
        broadcast_of(a, b) is Some,
    ensures
        ({
            let (x, y) = broadcast_of(a, b)->0;
            let r = if a.rank <= b.rank {
                b.rank
            } else {
                a.rank
            };
            &&& x.rank == r && y.rank == r
            &&& broadcast_compatible(x, y)
            &&& x.dims() =~= ones(r - a.rank) + a.dims()
            &&& y.dims() =~= ones(r - b.rank) + b.dims()
            &&& forall|k: int| 0 <= k < r && x.size[k] == 1 ==> #[trigger] x.stride[k] == 0
            &&& forall|k: int| 0 <= k < r && y.size[k] == 1 ==> #[trigger] y.stride[k] == 0
            &&& x.offset == a.offset && y.offset == b.offset
        }),
{
    let (x, y) = broadcast_of(a, b)->0;
    if a.rank <= b.rank {
        lemma_aligned_to_own_rank(b);
        assert(x.dims() =~= ones(b.rank - a.rank) + a.dims());
        assert(y.dims() =~= ones(0) + b.dims());
    } else {
        lemma_aligned_to_own_rank(a);
        assert(x.dims() =~= ones(0) + a.dims());
        assert(y.dims() =~= ones(a.rank - b.rank) + b.dims());
        assert(broadcast_compatible(x, y)) by {
            assert forall|k: int| 0 <= k < x.rank implies #[trigger] x.size[k] == 1 || y.size[k]
                == 1 || x.size[k] == y.size[k] by {
                assert(y.size[k] == 1 || x.size[k] == 1 || y.size[k] == x.size[k]);
            }
        }
    }
}

/// The sizes of a sequence of (size, stride) pairs.
pub open spec fn sizes_of(kept: Seq<(u32, u32)>) -> Seq<u32> {
    Seq::new(kept.len(), |k: int| kept[k].0)
}

/// The dimensions kept by `squeeze` among the first `m` are those whose size
/// is not 1, and they multiply to the same product as the first `m` sizes.
pub proof fn lemma_kept_dims(v: LayoutView, m: int)
    requires
        four_dims(v),
        0 <= m <= 4,
    ensures
        v.kept_dims(m).len() <= m,
        product(sizes_of(v.kept_dims(m))) == product(v.size.subrange(0, m)),
        forall|k: int| 0 <= k < v.kept_dims(m).len() ==> #[trigger] v.kept_dims(m)[k].0 != 1,
    decreases m,
{
    if m > 0 {
        lemma_kept_dims(v, m - 1);
        let prev = v.kept_dims(m - 1);
        let prefix = v.size.subrange(0, m);
        lemma_product_drop_last(prefix);
        assert(prefix.drop_last() =~= v.size.subrange(0, m - 1));
        if v.size[m - 1] != 1 {
            let cur = v.kept_dims(m);
            assert(cur == prev.push((v.size[m - 1], v.stride[m - 1])));
            lemma_product_drop_last(sizes_of(cur));
            assert(sizes_of(cur).drop_last() =~= sizes_of(prev));
        }
    }
}

/// Squeezing keeps the number of elements and the offset, and leaves no
/// dimension of size 1 within the rank.
pub proof fn law_squeeze_keeps_len(v: LayoutView)
    requires
        four_dims(v),
        v.rank <= 4,
    ensures
        v.squeezed().len() == v.len(),
        v.squeezed().offset == v.offset,
        forall|k: int| 0 <= k < v.squeezed().rank ==> #[trigger] v.squeezed().size[k] != 1,
{
    lemma_kept_dims(v, v.rank as int);
    let kept = v.kept_dims(v.rank as int);
    let w = v.squeezed();
    if kept.len() > 0 {
        assert(w.dims() =~= sizes_of(kept));
    } else {
        assert(w.dims() =~= sizes_of(kept));
    }
}

/// Removing the axis that `unsqueeze` inserted gives back the dimensions
/// and strides that the layout had.
pub proof fn law_squeeze_axis_undoes_unsqueeze(v: LayoutView, axis: int)
    requires
        four_dims(v),
        v.rank < 4,
        0 <= axis <= v.rank,
        v.unsqueezed(axis)->0.can_squeeze_axis(axis),
    ensures
        v.unsqueezed(axis)->0.squeezed_axis(axis).dims() =~= v.dims(),
        v.unsqueezed(axis)->0.squeezed_axis(axis).strides() =~= v.strides(),
        v.unsqueezed(axis)->0.squeezed_axis(axis).rank == v.rank,
        v.unsqueezed(axis)->0.squeezed_axis(axis).offset == v.offset,
{
}

/// Unsqueezing inserts a dimension of size 1 and keeps the number of
/// elements.
pub proof fn law_unsqueeze_keeps_len(v: LayoutView, axis: int)
    requires
        four_dims(v),
        v.rank < 4,
        0 <= axis <= v.rank,
    ensures
        v.unsqueezed(axis)->0.dims() =~= v.dims().insert(axis, 1),
        v.unsqueezed(axis)->0.len() == v.len(),
{
    let w = v.unsqueezed(axis)->0;
    assert(w.dims() =~= v.dims().insert(axis, 1));
    lemma_product_remove(w.dims(), axis);
    assert(w.dims().remove(axis) =~= v.dims());
    assert(w.dims()[axis] == 1);
    assert(w.len() == product(v.dims()));
}

/// Ones appended to a sequence leave its product unchanged.
pub proof fn lemma_product_append_ones(s: Seq<u32>, n: int)
    requires
        0 <= n,
    ensures
        product(s + ones(n)) == product(s),
    decreases n,
{
    if n > 0 {
        lemma_product_append_ones(s, n - 1);
        lemma_product_drop_last(s + ones(n));
        assert((s + ones(n)).drop_last() =~= s + ones(n - 1));
    } else {
        assert(s + ones(0) =~= s);
    }
}

/// Ones put before a sequence leave its product unchanged.
pub proof fn lemma_product_prepend_ones(s: Seq<u32>, n: int)
    requires
        0 <= n,
    ensures
        product(ones(n) + s) == product(s),
    decreases n,
{
    if n > 0 {
        lemma_product_prepend_ones(s, n - 1);
        assert((ones(n) + s).drop_first() =~= ones(n - 1) + s);
        assert((ones(n) + s)[0] == 1);
    } else {
        assert(ones(0) + s =~= s);
    }
}

/// Unsqueezing up to a rank appends dimensions of size 1 and keeps the
/// number of elements.
pub proof fn law_unsqueeze_to_rank_keeps_len(v: LayoutView, rank: u32)
    requires
        four_dims(v),
        v.rank <= rank <= 4,
    ensures
        v.unsqueezed_to_rank(rank) is Some,
        v.unsqueezed_to_rank(rank)->0.dims() =~= v.dims() + ones(rank - v.rank),
        v.unsqueezed_to_rank(rank)->0.len() == v.len(),
        v.unsqueezed_to_rank(rank)->0.offset == v.offset,
{
    let w = v.unsqueezed_to_rank(rank)->0;
    assert(w.dims() =~= v.dims() + ones(rank - v.rank));
    lemma_product_append_ones(v.dims(), rank - v.rank);
}

/// Canonicalizing gives rank 4, puts dimensions of size 1 before the
/// existing ones and keeps the number of elements.
pub proof fn law_canonicalize_keeps_len(v: LayoutView)
    requires
        four_dims(v),
        v.rank <= 4,
    ensures
        v.canonicalized().rank == 4,
        v.canonicalized().dims() =~= ones(4 - v.rank) + v.dims(),
        v.canonicalized().len() == v.len(),
        v.canonicalized().offset == v.offset,
        v.canonicalized().strides() =~= v.canonicalized().stride.subrange(0, 4 - v.rank as int)
            + v.strides(),
{
    let w = v.canonicalized();
    assert(w.dims() =~= ones(4 - v.rank) + v.dims());
    assert(w.strides() =~= w.stride.subrange(0, 4 - v.rank as int) + v.strides());
    lemma_product_prepend_ones(v.dims(), 4 - v.rank);
}

/// Indexing along axis 0 removes that axis and moves the offset to the
/// chosen element.
pub proof fn law_index_drops_first_axis(v: LayoutView, i: int)
    requires
        four_dims(v),
        v.can_narrow(0, i, 1),
        v.narrowed(0, i, 1).can_squeeze_axis(0),
    ensures
        v.narrowed(0, i, 1).squeezed_axis(0).rank == v.rank - 1,
        v.narrowed(0, i, 1).squeezed_axis(0).dims() =~= v.dims().drop_first(),
        v.narrowed(0, i, 1).squeezed_axis(0).strides() =~= v.strides().drop_first(),
        v.narrowed(0, i, 1).squeezed_axis(0).offset == v.offset + v.stride[0] * i,
{
    let st = v.stride[0] as int;
    assert(st * i >= 0) by (nonlinear_arith)
        requires
            st >= 0,
            i >= 0,
    ;
}

/// A layout holds no element exactly when one of its dimensions is 0.
pub proof fn law_empty_iff_zero_dim(v: LayoutView)
    requires
        four_dims(v),
        v.rank <= 4,
    ensures
        v.len() == 0 <==> exists|k: int| 0 <= k < v.rank && #[trigger] v.size[k] == 0,
{
    lemma_product_zero(v.dims());
    if exists|k: int| 0 <= k < v.rank && #[trigger] v.size[k] == 0 {
        let k = choose|k: int| 0 <= k < v.rank && #[trigger] v.size[k] == 0;
        assert(v.dims()[k] == 0);
    }
}

/// Replacing one factor of a product.
pub proof fn lemma_product_update(s: Seq<u32>, i: int, x: u32)
    requires
        0 <= i < s.len(),
    ensures
        product(s.update(i, x)) * s[i] == product(s) * x,
{
    lemma_product_remove(s, i);
    lemma_product_remove(s.update(i, x), i);
    assert(s.update(i, x).remove(i) =~= s.remove(i));
    let p = product(s.remove(i));
    let a = s[i] as int;
    let b = x as int;
    assert((b * p) * a == (a * p) * b) by (nonlinear_arith);
}

/// Narrowing an axis to `new_nelts` elements scales the number of elements
/// accordingly.
pub proof fn law_narrow_len(v: LayoutView, axis: int, first_elt: int, new_nelts: u32)
    requires
        four_dims(v),
        v.rank <= 4,
        v.can_narrow(axis, first_elt, new_nelts as int),
    ensures
        v.narrowed(axis, first_elt, new_nelts).len() * v.size[axis] == v.len() * new_nelts,
        v.narrowed(axis, first_elt, new_nelts).rank == v.rank,
{
    let w = v.narrowed(axis, first_elt, new_nelts);
    assert(w.dims() =~= v.dims().update(axis, new_nelts));
    lemma_product_update(v.dims(), axis, new_nelts);
}

/// Seeing `f32` data as `vec4` data divides the number of elements by 4.
pub proof fn law_vec4_len(v: LayoutView)
    requires
        four_dims(v),
        1 <= v.rank <= 4,
        v.can_convert_to_vec4(),
    ensures
        v.as_vec4().len() * 4 == v.len(),
{
    let w = v.as_vec4();
    let d = v.vec4_axis();
    let x = (v.size[d] / 4) as u32;
    assert(w.dims() =~= v.dims().update(d, x));
    lemma_product_update(v.dims(), d, x);
    let p = product(v.dims());
    let q = product(w.dims());
    let s = v.size[d] as int;
    if s == 0 {
        lemma_product_zero(v.dims());
        lemma_product_zero(w.dims());
        assert(v.dims()[d] == 0);
        assert(w.dims()[d] == 0);
    } else {
        assert(q * 4 == p) by (nonlinear_arith)
            requires
                q * s == p * x,
                s == 4 * x,
                x > 0,
        ;
    }
}

/// A view has the requested dimensions, takes every explicit stride as
/// given, and asks for no more elements than the source holds.
pub proof fn law_view_honors_shape_and_strides(
    v: LayoutView,
    offset: int,
    shape: Seq<u32>,
    stride: Seq<Option<u32>>,
)
    requires
        v.can_view(offset, shape, stride),
    ensures
        v.viewed(offset, shape, stride).dims() =~= shape,
        forall|k: int|
            0 <= k < stride.len() && stride[k] is Some ==> #[trigger] v.viewed(
                offset,
                shape,
                stride,
            ).stride[k] == stride[k]->0,
        product(shape) + offset <= product(v.size),
        v.viewed(offset, shape, stride).offset == v.offset + offset,
{
    let w = v.viewed(offset, shape, stride);
    assert(w.dims() =~= shape);
    assert forall|k: int| 0 <= k < stride.len() && stride[k] is Some implies #[trigger] w.stride[k]
        == stride[k]->0 by {
        assert(view_stride(shape, stride, k) == stride[k]->0 as int);
    }
}

/// Squeezing an axis of size 1 removes it from the dimensions and strides
/// and keeps the number of elements.
pub proof fn law_squeeze_axis_keeps_len(v: LayoutView, axis: int)
    requires
        four_dims(v),
        v.can_squeeze_axis(axis),
    ensures
        v.squeezed_axis(axis).dims() =~= v.dims().remove(axis),
        v.squeezed_axis(axis).strides() =~= v.strides().remove(axis),
        v.squeezed_axis(axis).len() == v.len(),
        v.squeezed_axis(axis).rank == v.rank - 1,
        v.squeezed_axis(axis).offset == v.offset,
        v.squeezed_axis(axis).size[v.rank - 1] == 1,
        v.rank > 1 ==> v.squeezed_axis(axis).stride[v.rank - 1] == product(
            v.dims().remove(axis).drop_last(),
        ),
{
    let w = v.squeezed_axis(axis);
    if v.rank > 1 {
        assert(w.size.subrange(0, v.rank - 2) =~= v.dims().remove(axis).drop_last());
        lemma_product_bounds(v.dims().remove(axis).drop_last());
    }
    assert(w.dims() =~= v.dims().remove(axis));
    assert(w.strides() =~= v.strides().remove(axis));
    lemma_product_remove(v.dims(), axis);
}

/// An accepted assignment broadcast is the plain broadcast, and never makes
/// a dimension of the target larger than it was.
pub proof fn law_broadcast_assign_never_grows(target: LayoutView, source: LayoutView)
    requires
        broadcast_assign_of(target, source) is Some,
    ensures
        broadcast_of(target, source) == broadcast_assign_of(target, source),
        forall|k: int|
            0 <= k < (broadcast_assign_of(target, source)->0).0.rank ==> #[trigger] (
            broadcast_assign_of(target, source)->0).0.size[k] >= (broadcast_assign_of(
                target,
                source,
            )->0).1.size[k],
{
}

/// The permutation that moves every dimension back to where `p` took it
/// from.
pub open spec fn inverse_permutation(p: Seq<usize>) -> Seq<usize> {
    Seq::new(4, |j: int| axis_source(p, j) as usize)
}

/// Where a valid permutation sends each dimension, and where each
/// position's dimension comes from.
pub proof fn lemma_axis_source(p: Seq<usize>, rank: int)
    requires
        is_axis_permutation(p, rank),
        rank <= 4,
    ensures
        forall|j: int|
            0 <= j < 4 ==> 0 <= #[trigger] axis_source(p, j) < 4 && p[axis_source(p, j)] == j,
        forall|k: int| 0 <= k < 4 ==> axis_source(p, #[trigger] p[k] as int) == k,
{
    assert forall|j: int| 0 <= j < 4 implies 0 <= #[trigger] axis_source(p, j) < 4 && p[axis_source(
        p,
        j,
    )] == j by {
        assert(p[0] as int == j || p[1] as int == j || p[2] as int == j || p[3] as int == j);
    }
    assert forall|k: int| 0 <= k < 4 implies axis_source(p, #[trigger] p[k] as int) == k by {
        assert(p[k] < 4) by {
            if k >= rank {
                assert(p[k] == k);
            }
        }
        let s = axis_source(p, p[k] as int);
        assert(p[s] == p[k]);
    }
}

/// Permuting by `p` and then by its inverse gives the layout back.
pub proof fn law_permute_inverse(v: LayoutView, p: Seq<usize>)
    requires
        four_dims(v),
        v.rank <= 4,
        is_axis_permutation(p, v.rank as int),
    ensures
        is_axis_permutation(inverse_permutation(p), v.rank as int),
        v.permuted(p).permuted(inverse_permutation(p)) =~= v,
{
    let q = inverse_permutation(p);
    lemma_axis_source(p, v.rank as int);
    assert forall|i: int, j: int| 0 <= i < j < 4 implies q[i] != q[j] by {
        assert(p[axis_source(p, i)] == i);
        assert(p[axis_source(p, j)] == j);
    }
    assert forall|k: int| 0 <= k < v.rank implies q[k] < v.rank by {
        let s = axis_source(p, k);
        if s >= v.rank {
            assert(p[s] == s);
        }
    }
    assert forall|k: int| v.rank <= k < 4 implies q[k] == k by {
        assert(axis_source(p, p[k] as int) == k);
        assert(p[k] == k);
    }
    lemma_axis_source(q, v.rank as int);
    assert forall|i: int| 0 <= i < 4 implies axis_source(q, i) == p[i] by {
        assert(q[p[i] as int] == axis_source(p, p[i] as int));
        assert(axis_source(q, q[p[i] as int] as int) == p[i]);
    }
    let w = v.permuted(p).permuted(q);
    assert(w.size =~= v.size);
    assert(w.stride =~= v.stride);
}

/// An assignment broadcast is the plain broadcast, refused when a
/// dimension of the target would have to grow.
pub proof fn law_broadcast_assign_is_checked_broadcast(target: LayoutView, source: LayoutView)
    ensures
        broadcast_assign_of(target, source) == match broadcast_of(target, source) {
            None => None,
            Some((t, s)) => if forall|k: int| 0 <= k < t.rank ==> #[trigger] t.size[k] >= s.size[k] {
                Some((t, s))
            } else {
                None
            },
        },
{
}

/// The positions, in increasing order, of the dimensions among the first
/// `m` whose size is not 1.
pub open spec fn kept_axes(v: LayoutView, m: int) -> Seq<int>
    decreases m,
{
    if m <= 0 {
        Seq::empty()
    } else {
        let prev = kept_axes(v, m - 1);
        if v.size[m - 1] != 1 {
            prev.push(m - 1)
        } else {
            prev
        }
    }
}

/// `kept_dims` holds the size and stride of exactly the dimensions listed by
/// `kept_axes`, which are the increasing positions of the sizes other than 1.
pub proof fn lemma_kept_axes(v: LayoutView, m: int)
    requires
        four_dims(v),
        0 <= m <= 4,
    ensures
        kept_axes(v, m).len() == v.kept_dims(m).len(),
        forall|j: int|
            0 <= j < kept_axes(v, m).len() ==> {
                let k = #[trigger] kept_axes(v, m)[j];
                &&& 0 <= k < m
                &&& v.size[k] != 1
                &&& v.kept_dims(m)[j] == (v.size[k], v.stride[k])
            },
        forall|i: int, j: int|
            0 <= i < j < kept_axes(v, m).len() ==> #[trigger] kept_axes(v, m)[i] < #[trigger] kept_axes(
                v,
                m,
            )[j],
        forall|k: int| 0 <= k < m && v.size[k] != 1 ==> #[trigger] kept_axes(v, m).contains(k),
    decreases m,
{
    if m > 0 {
        lemma_kept_axes(v, m - 1);
        let prev = kept_axes(v, m - 1);
        assert forall|k: int| 0 <= k < m && v.size[k] != 1 implies #[trigger] kept_axes(
            v,
            m,
        ).contains(k) by {
            if k < m - 1 {
                assert(prev.contains(k));
                let j = choose|j: int| 0 <= j < prev.len() && prev[j] == k;
                assert(kept_axes(v, m)[j] == k);
            } else {
                assert(kept_axes(v, m)[prev.len() as int] == k);
            }
        }
    }
}

/// The dimensions that squeezing keeps of an already squeezed layout are
/// all of its dimensions.
pub proof fn lemma_squeezed_kept_dims(v: LayoutView, m: int)
    requires
        four_dims(v),
        v.rank <= 4,
        0 <= m <= v.kept_dims(v.rank as int).len(),
    ensures
        v.squeezed().kept_dims(m) =~= v.kept_dims(v.rank as int).subrange(0, m),
    decreases m,
{
    lemma_kept_dims(v, v.rank as int);
    if m > 0 {
        lemma_squeezed_kept_dims(v, m - 1);
    }
}

/// Squeezing keeps exactly the dimensions whose size is not 1, in their
/// order, with their strides; it pads the rest with size 1, keeps the
/// offset, and squeezing the result again changes nothing.
pub proof fn law_squeeze_keeps_non_unit_axes(v: LayoutView)
    requires
        four_dims(v),
        v.rank <= 4,
    ensures
        ({
            let ks = kept_axes(v, v.rank as int);
            let w = v.squeezed();
            &&& w.rank == ks.len()
            &&& w.offset == v.offset
            &&& forall|j: int|
                0 <= j < ks.len() ==> w.size[j] == v.size[#[trigger] ks[j]] && w.stride[j]
                    == v.stride[ks[j]]
            &&& forall|i: int, j: int| 0 <= i < j < ks.len() ==> #[trigger] ks[i] < #[trigger] ks[j]
            &&& forall|k: int| 0 <= k < v.rank && v.size[k] != 1 ==> #[trigger] ks.contains(k)
            &&& forall|j: int| 0 <= j < ks.len() ==> 0 <= #[trigger] ks[j] < v.rank && v.size[ks[j]] != 1
            &&& forall|k: int| w.rank <= k < 4 ==> #[trigger] w.size[k] == 1
            &&& w.squeezed() =~= w
        }),
{
    let r = v.rank as int;
    lemma_kept_axes(v, r);
    lemma_kept_dims(v, r);
    let kept = v.kept_dims(r);
    let n = kept.len() as int;
    let w = v.squeezed();
    lemma_squeezed_kept_dims(v, n);
    assert(kept.subrange(0, n) =~= kept);
    if n > 0 {
        assert(w.squeezed().size =~= w.size);
        assert(w.squeezed().stride =~= w.stride);
    } else {
        assert(w.squeezed().size =~= w.size);
        assert(w.squeezed().stride =~= w.stride);
    }
}

/// Canonicalizing does not change the answer of the contiguity check.
pub proof fn law_canonicalize_keeps_contiguity(v: LayoutView)
    requires
        four_dims(v),
        v.rank <= 4,
        v.rank < 4 ==> packed_strides_fit(v.left_padded_dims()),
    ensures
        v.canonicalized().is_contiguous() == v.is_contiguous(),
{
    if v.rank < 4 {
        let w = v.canonicalized();
        let d = 4 - v.rank;
        let p = v.left_padded_dims();
        assert(w.dims() =~= p);
        assert forall|k: int| 0 <= k < v.rank implies packed_stride(p, d + k) == packed_stride(
            v.dims(),
            k,
        ) by {
            assert(p.subrange(d + k + 1, 4) =~= v.dims().subrange(k + 1, v.rank as int));
        }
        assert forall|i: int| 0 <= i < d implies w.stride[i] == packed_stride(w.dims(), i) by {
            lemma_product_bounds(p.subrange(i + 1, 4));
            assert(packed_stride(p, i) <= u32::MAX);
        }
        if v.is_contiguous() {
            assert forall|i: int| 0 <= i < w.rank implies #[trigger] w.stride[i] == 0
                || w.stride[i] == packed_stride(w.dims(), i) by {
                if i >= d {
                    let k = i - d;
                    assert(v.stride[k] == 0 || v.stride[k] == packed_stride(v.dims(), k));
                }
            }
        }
        if w.is_contiguous() {
            assert forall|k: int| 0 <= k < v.rank implies #[trigger] v.stride[k] == 0
                || v.stride[k] == packed_stride(v.dims(), k) by {
                let i = k + d;
                assert(w.stride[i] == 0 || w.stride[i] == packed_stride(w.dims(), i));
            }
        }
    }
}

/// A packed layout: the last dimension has stride 1, every other one the
/// stride times the size of the next, the dimensions past the rank have size
/// and stride 1, and the offset is 0.
pub proof fn law_contiguous_strides(dims: Seq<u32>)
    requires
        dims.len() <= 4,
        packed_strides_fit(dims),
    ensures
        ({
            let c = contiguous_of(dims);
            let n = dims.len() as int;
            &&& c.rank == n && c.offset == 0
            &&& forall|k: int| 0 <= k < n ==> #[trigger] c.size[k] == dims[k]
            &&& n > 0 ==> c.stride[n - 1] == 1
            &&& forall|k: int|
                0 <= k < n - 1 ==> #[trigger] c.stride[k] == c.stride[k + 1] * dims[k + 1]
            &&& forall|k: int| n <= k < 4 ==> #[trigger] c.size[k] == 1 && c.stride[k] == 1
        }),
{
    let c = contiguous_of(dims);
    let n = dims.len() as int;
    if n > 0 {
        lemma_product_empty(dims, n);
    }
    assert forall|k: int| 0 <= k < n - 1 implies #[trigger] c.stride[k] == c.stride[k + 1]
        * dims[k + 1] by {
        lemma_product_step(dims, k + 1, n);
        lemma_product_bounds(dims.subrange(k + 1, n));
        lemma_product_bounds(dims.subrange(k + 2, n));
        assert(packed_stride(dims, k) <= u32::MAX);
        assert(packed_stride(dims, k + 1) <= u32::MAX);
        let p = packed_stride(dims, k + 1);
        let x = dims[k + 1] as int;
        assert(x * p == p * x) by (nonlinear_arith);
    }
}

/// Transposing swaps the sizes and the strides of the two axes, whatever
/// their sizes, and leaves every other axis, the rank and the offset alone.
pub proof fn law_transpose_swaps_axes(v: LayoutView, a: int, b: int)
    requires
        four_dims(v),
        0 <= a < 4,
        0 <= b < 4,
    ensures
        ({
            let t = v.transposed(a, b);
            &&& t.size[a] == v.size[b] && t.size[b] == v.size[a]
            &&& t.stride[a] == v.stride[b] && t.stride[b] == v.stride[a]
            &&& forall|k: int|
                0 <= k < 4 && k != a && k != b ==> #[trigger] t.size[k] == v.size[k]
                    && t.stride[k] == v.stride[k]
            &&& t.rank == v.rank && t.offset == v.offset
        }),
{
}

/// Narrowing any axis sets its size, moves the offset by the axis's stride
/// times the first kept index, and leaves every stride, every other size and
/// the rank alone.
pub proof fn law_narrow_moves_offset(v: LayoutView, axis: int, first_elt: int, new_nelts: u32)
    requires
        four_dims(v),
        v.can_narrow(axis, first_elt, new_nelts as int),
    ensures
        ({
            let w = v.narrowed(axis, first_elt, new_nelts);
            &&& w.offset == v.offset + v.stride[axis] * first_elt
            &&& w.size[axis] == new_nelts
            &&& forall|k: int| 0 <= k < 4 && k != axis ==> #[trigger] w.size[k] == v.size[k]
            &&& forall|k: int| 0 <= k < 4 ==> #[trigger] w.stride[k] == v.stride[k]
            &&& w.rank == v.rank
        }),
{
    let st = v.stride[axis] as int;
    assert(st * first_elt >= 0) by (nonlinear_arith)
        requires
            st >= 0,
            first_elt >= 0,
    ;
}

/// After a successful broadcast, every dimension of each input reappears,
/// aligned to the right of the common rank, with its size, and with its
/// stride unless its size is 1 (then the stride is 0); the dimensions added
/// on the left have size 1 and stride 0.
pub proof fn law_broadcast_keeps_strides(a: LayoutView, b: LayoutView)
    requires
        four_dims(a),
        four_dims(b),
        a.rank <= 4,
        b.rank <= 4,
        broadcast_of(a, b) is Some,
    ensures
        ({
            let (x, y) = broadcast_of(a, b)->0;
            let r = common_rank(a, b);
            let da = r - a.rank;
            let db = r - b.rank;
            &&& x.rank == r && y.rank == r
            &&& forall|k: int|
                0 <= k < a.rank ==> #[trigger] x.size[k + da] == a.size[k] && (a.size[k] != 1
                    ==> x.stride[k + da] == a.stride[k]) && (a.size[k] == 1 ==> x.stride[k + da]
                    == 0)
            &&& forall|k: int|
                0 <= k < b.rank ==> #[trigger] y.size[k + db] == b.size[k] && (b.size[k] != 1
                    ==> y.stride[k + db] == b.stride[k]) && (b.size[k] == 1 ==> y.stride[k + db]
                    == 0)
            &&& forall|k: int| 0 <= k < da ==> #[trigger] x.size[k] == 1 && x.stride[k] == 0
            &&& forall|k: int| 0 <= k < db ==> #[trigger] y.size[k] == 1 && y.stride[k] == 0
            &&& x.offset == a.offset && y.offset == b.offset
        }),
{
    lemma_aligned_to_own_rank(a);
    lemma_aligned_to_own_rank(b);
}

/// Unsqueezing up to a rank keeps the sizes and strides of the existing
/// dimensions, gives the new ones size 1, and keeps the offset.
pub proof fn law_unsqueeze_to_rank_keeps_axes(v: LayoutView, rank: u32)
    requires
        four_dims(v),
        v.rank <= rank <= 4,
    ensures
        v.unsqueezed_to_rank(rank) is Some,
        ({
            let w = v.unsqueezed_to_rank(rank)->0;
            &&& w.rank == rank && w.offset == v.offset
            &&& forall|k: int|
                0 <= k < v.rank ==> #[trigger] w.size[k] == v.size[k] && w.stride[k]
                    == v.stride[k]
            &&& forall|k: int| v.rank <= k < rank ==> #[trigger] w.size[k] == 1
        }),
{
}

/// Unsqueezing at `axis` keeps the dimensions before it, inserts one of
/// size 1, and shifts the following ones up by one position with their
/// sizes and strides; the rank grows by one and the offset is kept.
pub proof fn law_unsqueeze_shifts_axes(v: LayoutView, axis: int)
    requires
        four_dims(v),
        v.rank < 4,
        0 <= axis <= v.rank,
    ensures
        v.unsqueezed(axis) is Some,
        ({
            let w = v.unsqueezed(axis)->0;
            &&& w.rank == v.rank + 1 && w.offset == v.offset
            &&& w.size[axis] == 1
            &&& forall|k: int|
                0 <= k < axis ==> #[trigger] w.size[k] == v.size[k] && w.stride[k] == v.stride[k]
            &&& forall|k: int|
                axis < k <= v.rank ==> #[trigger] w.size[k] == v.size[k - 1] && w.stride[k]
                    == v.stride[k - 1]
        }),
{
}

/// Seeing `f32` data as `vec4` data rounds every stride up to a number of
/// groups of four, divides the size of the last axis by 4, and keeps every
/// other size, the rank and the offset.
pub proof fn law_vec4_divides_strides(v: LayoutView)
    requires
        four_dims(v),
        v.can_convert_to_vec4(),
    ensures
        ({
            let w = v.as_vec4();
            let d = v.vec4_axis();
            &&& forall|k: int|
                0 <= k < 4 ==> v.stride[k] <= #[trigger] w.stride[k] * 4 < v.stride[k] + 4
            &&& forall|k: int|
                0 <= k < 4 ==> #[trigger] w.stride[k] == if v.stride[k] == 1 {
                    1
                } else {
                    v.stride[k] / 4
                }
            &&& w.size[d] * 4 == v.size[d]
            &&& forall|k: int| 0 <= k < 4 && k != d ==> #[trigger] w.size[k] == v.size[k]
            &&& w.rank == v.rank && w.offset == v.offset
        }),
{
}

/// Permuting moves the size and the stride of dimension `k` to position
/// `p[k]`, and keeps the rank and the offset.
pub proof fn law_permute_moves_axes(v: LayoutView, p: Seq<usize>)
    requires
        four_dims(v),
        v.rank <= 4,
        is_axis_permutation(p, v.rank as int),
    ensures
        forall|k: int|
            0 <= k < 4 ==> #[trigger] v.permuted(p).size[p[k] as int] == v.size[k]
                && v.permuted(p).stride[p[k] as int] == v.stride[k],
        v.permuted(p).rank == v.rank,
        v.permuted(p).offset == v.offset,
{
    lemma_axis_source(p, v.rank as int);
}

/// A view's default strides are packed: the last dimension without an
/// explicit stride gets 1, any other gets the stride times the size of the
/// next dimension; the dimensions past the new rank have size 1.
pub proof fn law_view_default_strides(
    v: LayoutView,
    offset: int,
    shape: Seq<u32>,
    stride: Seq<Option<u32>>,
)
    requires
        v.can_view(offset, shape, stride),
    ensures
        ({
            let w = v.viewed(offset, shape, stride);
            let n = shape.len() as int;
            &&& w.rank == n
            &&& forall|k: int| 0 <= k < n ==> #[trigger] w.size[k] == shape[k]
            &&& forall|k: int| n <= k < 4 ==> #[trigger] w.size[k] == 1
            &&& forall|k: int|
                0 <= k < n && !(k < stride.len() && stride[k] is Some) ==> #[trigger] w.stride[k]
                    == if k == n - 1 {
                    1
                } else {
                    w.stride[k + 1] * shape[k + 1]
                }
        }),
{
    let w = v.viewed(offset, shape, stride);
    let n = shape.len() as int;
    assert forall|k: int|
        0 <= k < n && !(k < stride.len() && stride[k] is Some) implies #[trigger] w.stride[k] == if k
        == n - 1 {
        1
    } else {
        w.stride[k + 1] * shape[k + 1]
    } by {
        assert(view_stride(shape, stride, k) <= u32::MAX);
        if k < n - 1 {
            assert(view_stride(shape, stride, k + 1) <= u32::MAX);
            assert(view_stride(shape, stride, k + 1) >= 0) by {
                lemma_view_stride_nonneg(shape, stride, k + 1);
            }
        }
    }
}

/// View strides are never negative.
pub proof fn lemma_view_stride_nonneg(shape: Seq<u32>, stride: Seq<Option<u32>>, k: int)
    ensures
        view_stride(shape, stride, k) >= 0,
    decreases shape.len() - k,
{
    if 0 <= k < shape.len() - 1 && !(k < stride.len() && stride[k] is Some) {
        lemma_view_stride_nonneg(shape, stride, k + 1);
        let p = view_stride(shape, stride, k + 1);
        let x = shape[k + 1] as int;
        assert(p * x >= 0) by (nonlinear_arith)
            requires
                p >= 0,
                x >= 0,
        ;
    }
}

/// Canonicalizing keeps the offset and the sizes and strides of the existing
/// dimensions, moved to the end; the dimensions inserted on the left have
/// size 1 and as stride the number of elements of the view.
pub proof fn law_canonicalize_moves_axes(v: LayoutView)
    requires
        four_dims(v),
        v.rank < 4,
        packed_strides_fit(v.left_padded_dims()),
    ensures
        ({
            let w = v.canonicalized();
            let d = 4 - v.rank;
            &&& w.rank == 4 && w.offset == v.offset
            &&& forall|k: int|
                0 <= k < v.rank ==> #[trigger] w.size[k + d] == v.size[k] && w.stride[k + d]
                    == v.stride[k]
            &&& forall|k: int| 0 <= k < d ==> #[trigger] w.size[k] == 1 && w.stride[k] == v.len()
        }),
{
    let w = v.canonicalized();
    let d = 4 - v.rank;
    let p = v.left_padded_dims();
    assert forall|k: int| 0 <= k < d implies #[trigger] w.size[k] == 1 && w.stride[k] == v.len() by {
        assert(p.subrange(k + 1, 4) =~= ones(d - k - 1) + v.dims());
        lemma_product_prepend_ones(v.dims(), d - k - 1);
        lemma_product_bounds(p.subrange(k + 1, 4));
        assert(packed_stride(p, k) <= u32::MAX);
    }
}

/// What the shader layout holds: the sizes and strides within the rank, then
/// size 1 and the last stride within the rank (1 at rank 0).
pub proof fn law_gpu_layout_pads(v: LayoutView)
    requires
        four_dims(v),
    ensures
        ({
            let g = gpu_layout_of(v);
            let pad = if v.rank == 0 {
                1
            } else {
                v.stride[v.rank - 1]
            };
            &&& g.n == (if 0 < v.rank { v.size[0] } else { 1 })
            &&& g.c == (if 1 < v.rank { v.size[1] } else { 1 })
            &&& g.h == (if 2 < v.rank { v.size[2] } else { 1 })
            &&& g.w == (if 3 < v.rank { v.size[3] } else { 1 })
            &&& g.n_stride == (if 0 < v.rank { v.stride[0] } else { pad })
            &&& g.c_stride == (if 1 < v.rank { v.stride[1] } else { pad })
            &&& g.h_stride == (if 2 < v.rank { v.stride[2] } else { pad })
            &&& g.w_stride == (if 3 < v.rank { v.stride[3] } else { pad })
        }),
{
}

/// Squeezing pads the dimensions past the new rank with the stride that
/// packs them after the last kept dimension (size and stride 1 when no
/// dimension is kept).
pub proof fn law_squeeze_pads(v: LayoutView)
    requires
        four_dims(v),
        v.can_squeeze(),
    ensures
        ({
            let ks = kept_axes(v, v.rank as int);
            let w = v.squeezed();
            let n = ks.len() as int;
            &&& n == 0 ==> forall|k: int| 0 <= k < 4 ==> #[trigger] w.size[k] == 1 && w.stride[k] == 1
            &&& 0 < n ==> forall|k: int|
                n <= k < 4 ==> #[trigger] w.stride[k] == v.stride[ks[n - 1]] * v.size[ks[n - 1]]
        }),
{
    lemma_kept_axes(v, v.rank as int);
}

/// `unsqueeze_to_rank` fails exactly when the rank is above 4 or below the
/// layout's; the dimensions it adds pack after the last existing one (size
/// and stride 1 for a rank-0 layout).
pub proof fn law_unsqueeze_to_rank_pads(v: LayoutView, rank: u32)
    requires
        four_dims(v),
        0 < v.rank < rank <= 4 ==> v.stride[v.rank - 1] * v.size[v.rank - 1] <= u32::MAX,
    ensures
        v.unsqueezed_to_rank(rank) is None <==> rank > 4 || rank < v.rank,
        v.unsqueezed_to_rank(rank) is Some && v.rank < rank && v.rank > 0 ==> forall|k: int|
            v.rank <= k < 4 ==> #[trigger] v.unsqueezed_to_rank(rank)->0.size[k] == 1
                && v.unsqueezed_to_rank(rank)->0.stride[k] == v.stride[v.rank - 1] * v.size[v.rank
                - 1],
        v.unsqueezed_to_rank(rank) is Some && v.rank < rank && v.rank == 0 ==> forall|k: int|
            0 <= k < 4 ==> #[trigger] v.unsqueezed_to_rank(rank)->0.size[k] == 1
                && v.unsqueezed_to_rank(rank)->0.stride[k] == 1,
{
}

/// `unsqueeze` fails exactly when the rank is already 4 or the axis is past
/// the rank; otherwise the new axis takes the stride of the axis that now
/// follows it (1 at the last of four positions), and every later position
/// holds what the position before it held.
pub proof fn law_unsqueeze_new_axis(v: LayoutView, axis: int)
    requires
        four_dims(v),
        0 <= axis,
    ensures
        v.unsqueezed(axis) is None <==> v.rank >= 4 || axis > v.rank,
        v.unsqueezed(axis) is Some ==> v.unsqueezed(axis)->0.stride[axis] == if axis < 3 {
            v.stride[axis]
        } else {
            1
        },
        v.unsqueezed(axis) is Some ==> forall|k: int|
            axis < k < 4 ==> #[trigger] v.unsqueezed(axis)->0.size[k] == v.size[k - 1]
                && v.unsqueezed(axis)->0.stride[k] == v.stride[k - 1],
{
}

/// In GGML's ordering, where axes 0 and 1 are swapped, `permute_ggml` moves
/// axis `k` to axis `p[k]`.
pub proof fn law_permute_ggml_in_ggml_order(v: LayoutView, p: Seq<usize>)
    requires
        four_dims(v),
        v.rank <= 4,
        p.len() == 4,
        forall|k: int| 0 <= k < 4 ==> p[k] < 4,
        is_axis_permutation(ggml_permutation(p), v.rank as int),
    ensures
        forall|k: int|
            0 <= k < 4 ==> #[trigger] v.permuted(ggml_permutation(p)).size[ggml_order(
                p[k] as int,
            )] == v.size[ggml_order(k)] && v.permuted(ggml_permutation(p)).stride[ggml_order(
                p[k] as int,
            )] == v.stride[ggml_order(k)],
{
    let q = ggml_permutation(p);
    law_permute_moves_axes(v, q);
    let w = v.permuted(q);
    assert forall|k: int| 0 <= k < 4 implies #[trigger] w.size[ggml_order(p[k] as int)] == v.size[ggml_order(k)]
        && w.stride[ggml_order(p[k] as int)] == v.stride[ggml_order(k)] by {
        let j = ggml_order(k);
        assert(q[j] as int == ggml_order(p[k] as int));
        assert(w.size[q[j] as int] == v.size[j]);
    }
}

/// A view's dimensions past its rank have stride 0.
pub proof fn law_view_pads_with_zero_strides(
    v: LayoutView,
    offset: int,
    shape: Seq<u32>,
    stride: Seq<Option<u32>>,
)
    requires
        v.can_view(offset, shape, stride),
    ensures
        forall|k: int|
            shape.len() <= k < 4 ==> #[trigger] v.viewed(offset, shape, stride).stride[k] == 0,
{
}

/// A layout of rank 4 is already canonical.
pub proof fn law_canonicalize_rank_4(v: LayoutView)
    requires
        v.rank == 4,
    ensures
        v.canonicalized() == v,
{
}

/// The larger of the two ranks.
pub open spec fn common_rank(a: LayoutView, b: LayoutView) -> int {
    if a.rank <= b.rank {
        b.rank as int
    } else {
        a.rank as int
    }
}

/// Axes 0 and 1 swapped: the map between GGML's axis order and this crate's.
pub open spec fn ggml_order(i: int) -> int {
    if i == 0 {
        1
    } else if i == 1 {
        0
    } else {
        i
    }
}

/// The size of dimension `k` once the layout is aligned to the right of rank
/// `r`: 1 for the added leading dimensions.
pub open spec fn aligned_size(v: LayoutView, r: int, k: int) -> int {
    if k < r - v.rank {
        1
    } else {
        v.size[k - (r - v.rank)] as int
    }
}

/// Broadcasting succeeds exactly when, with both layouts aligned to the
/// right, each pair of sizes is equal or has a 1.
pub proof fn law_broadcast_succeeds_iff_compatible(a: LayoutView, b: LayoutView)
    requires
        four_dims(a),
        four_dims(b),
        a.rank <= 4,
        b.rank <= 4,
    ensures
        ({
            let r = common_rank(a, b);
            broadcast_of(a, b) is Some <==> forall|k: int|
                0 <= k < r ==> #[trigger] aligned_size(a, r, k) == 1 || aligned_size(b, r, k) == 1
                    || aligned_size(a, r, k) == aligned_size(b, r, k)
        }),
{
    let r = common_rank(a, b);
    lemma_aligned_to_own_rank(a);
    lemma_aligned_to_own_rank(b);
    let c = forall|k: int|
        0 <= k < r ==> #[trigger] aligned_size(a, r, k) == 1 || aligned_size(b, r, k) == 1
            || aligned_size(a, r, k) == aligned_size(b, r, k);
    if a.rank <= b.rank {
        let x = a.aligned_to_rank(b.rank).unit_strides_zeroed();
        let y = b.unit_strides_zeroed();
        assert forall|k: int| 0 <= k < r implies x.size[k] == aligned_size(a, r, k) && y.size[k]
            == aligned_size(b, r, k) by {}
        if c {
            assert forall|k: int| 0 <= k < x.rank implies #[trigger] x.size[k] == 1 || y.size[k]
                == 1 || x.size[k] == y.size[k] by {
                assert(aligned_size(a, r, k) == 1 || aligned_size(b, r, k) == 1 || aligned_size(
                    a,
                    r,
                    k,
                ) == aligned_size(b, r, k));
            }
        }
        if broadcast_compatible(x, y) {
            assert forall|k: int| 0 <= k < r implies #[trigger] aligned_size(a, r, k) == 1
                || aligned_size(b, r, k) == 1 || aligned_size(a, r, k) == aligned_size(
                b,
                r,
                k,
            ) by {
                assert(x.size[k] == 1 || y.size[k] == 1 || x.size[k] == y.size[k]);
            }
        }
    } else {
        let x = a.unit_strides_zeroed();
        let y = b.aligned_to_rank(a.rank).unit_strides_zeroed();
        assert forall|k: int| 0 <= k < r implies x.size[k] == aligned_size(a, r, k) && y.size[k]
            == aligned_size(b, r, k) by {}
        if c {
            assert forall|k: int| 0 <= k < y.rank implies #[trigger] y.size[k] == 1 || x.size[k]
                == 1 || y.size[k] == x.size[k] by {
                assert(aligned_size(a, r, k) == 1 || aligned_size(b, r, k) == 1 || aligned_size(
                    a,
                    r,
                    k,
                ) == aligned_size(b, r, k));
            }
        }
        if broadcast_compatible(y, x) {
            assert forall|k: int| 0 <= k < r implies #[trigger] aligned_size(a, r, k) == 1
                || aligned_size(b, r, k) == 1 || aligned_size(a, r, k) == aligned_size(
                b,
                r,
                k,
            ) by {
                assert(y.size[k] == 1 || x.size[k] == 1 || y.size[k] == x.size[k]);
            }
        }
    }
}

/// The contiguity check accepts a layout exactly when every dimension within
/// the rank has stride 0 or the number of elements of the dimensions after
/// it: 1 for the last one, then the stride times the size of the next.
pub proof fn law_contiguity_check(v: LayoutView)
    requires
        four_dims(v),
        v.rank <= 4,
    ensures
        v.is_contiguous() <==> forall|k: int|
            0 <= k < v.rank ==> #[trigger] v.stride[k] == 0 || v.stride[k] == product(
                v.size.subrange(k + 1, v.rank as int),
            ),
        v.rank > 0 ==> (v.is_contiguous() ==> v.stride[v.rank - 1] == 0 || v.stride[v.rank - 1]
            == 1),
{
    assert forall|k: int| 0 <= k < v.rank implies #[trigger] packed_stride(v.dims(), k) == product(
        v.size.subrange(k + 1, v.rank as int),
    ) by {
        assert(v.dims().subrange(k + 1, v.rank as int) =~= v.size.subrange(k + 1, v.rank as int));
    }
    if v.rank > 0 {
        lemma_product_empty(v.size, v.rank as int);
        if v.is_contiguous() {
            let k = v.rank - 1;
            assert(v.stride[k] == 0 || v.stride[k] == packed_stride(v.dims(), k));
            assert(v.dims().subrange(k + 1, v.rank as int) =~= v.size.subrange(
                k + 1,
                v.rank as int,
            ));
        }
    }
}

/// The number of elements of a layout is the product of its sizes within
/// the rank.
pub proof fn law_len_multiplies_sizes(v: LayoutView)
    requires
        four_dims(v),
        v.rank <= 4,
    ensures
        v.len() == (if 0 < v.rank {
            v.size[0] as int
        } else {
            1
        }) * ((if 1 < v.rank {
            v.size[1] as int
        } else {
            1
        }) * ((if 2 < v.rank {
            v.size[2] as int
        } else {
            1
        }) * (if 3 < v.rank {
            v.size[3] as int
        } else {
            1
        }))),
{
    let d = v.dims();
    reveal_with_fuel(product, 5);
    if d.len() >= 1 {
        let t1 = d.drop_first();
        if t1.len() >= 1 {
            let t2 = t1.drop_first();
            if t2.len() >= 1 {
                let t3 = t2.drop_first();
                assert(t3.len() >= 1 ==> t3.drop_first().len() == 0);
            }
        }
    }
}

} // verus!
