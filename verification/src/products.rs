//! Products of dimension sizes, the arithmetic that every layout computation
//! rests on.

use vstd::prelude::*;

verus! {

/// The product of all the values of `s` (1 for the empty sequence).
pub open spec fn product(s: Seq<u32>) -> int
    decreases s.len(),
{
    if s.len() == 0 {
        1
    } else {
        s[0] * product(s.drop_first())
    }
}

/// The largest product that `n` values of type `u32` can have.
pub open spec fn max_product(n: nat) -> int
    decreases n,
{
    if n == 0 {
        1
    } else {
        0xFFFF_FFFF * max_product((n - 1) as nat)
    }
}

/// A product of sizes is never negative, and never exceeds what as many
/// `u32` values can multiply to.
pub proof fn lemma_product_bounds(s: Seq<u32>)
    ensures
        0 <= product(s) <= max_product(s.len()),
    decreases s.len(),
{
    if s.len() > 0 {
        lemma_product_bounds(s.drop_first());
        let p = product(s.drop_first());
        let m = max_product((s.len() - 1) as nat);
        assert(0 <= s[0] * p <= 0xFFFF_FFFF * m) by (nonlinear_arith)
            requires
                0 <= s[0] <= 0xFFFF_FFFF,
                0 <= p <= m,
        ;
    }
}

/// The largest products of up to four `u32` values.
pub proof fn lemma_max_product_values()
    ensures
        max_product(0) == 1,
        max_product(1) == 0xFFFF_FFFF,
        max_product(2) == 0xFFFF_FFFE_0000_0001,
        max_product(3) == 0xFFFF_FFFD_0000_0002_FFFF_FFFF,
        max_product(4) == 0xFFFF_FFFC_0000_0005_FFFF_FFFC_0000_0001,
{
    reveal_with_fuel(max_product, 5);
}

/// Peeling the first factor off a range of a sequence.
pub proof fn lemma_product_step(s: Seq<u32>, k: int, r: int)
    requires
        0 <= k < r <= s.len(),
    ensures
        product(s.subrange(k, r)) == s[k] * product(s.subrange(k + 1, r)),
{
    assert(s.subrange(k, r).drop_first() =~= s.subrange(k + 1, r));
}

/// The product of an empty range is 1.
pub proof fn lemma_product_empty(s: Seq<u32>, k: int)
    requires
        0 <= k <= s.len(),
    ensures
        product(s.subrange(k, k)) == 1,
{
}

/// Taking any one factor out of a product.
pub proof fn lemma_product_remove(s: Seq<u32>, i: int)
    requires
        0 <= i < s.len(),
    ensures
        product(s) == s[i] * product(s.remove(i)),
    decreases i,
{
    if i == 0 {
        assert(s.remove(0) =~= s.drop_first());
    } else {
        let t = s.drop_first();
        lemma_product_remove(t, i - 1);
        assert(s.remove(i).drop_first() =~= t.remove(i - 1));
        assert(s.remove(i)[0] == s[0]);
        let p = product(t.remove(i - 1));
        let a = s[0] as int;
        let b = s[i] as int;
        assert(a * (b * p) == b * (a * p)) by (nonlinear_arith);
    }
}

/// Taking the last factor out of a product.
pub proof fn lemma_product_drop_last(s: Seq<u32>)
    requires
        s.len() > 0,
    ensures
        product(s) == product(s.drop_last()) * s.last(),
{
    lemma_product_remove(s, s.len() - 1);
    assert(s.remove(s.len() - 1) =~= s.drop_last());
    let p = product(s.drop_last());
    let x = s.last() as int;
    assert(x * p == p * x) by (nonlinear_arith);
}

/// Two sequences whose values are the same up to an injective reindexing
/// have the same product.
pub proof fn lemma_product_reindex(s: Seq<u32>, t: Seq<u32>, f: spec_fn(int) -> int)
    requires
        s.len() == t.len(),
        forall|j: int| 0 <= j < t.len() ==> 0 <= #[trigger] f(j) < s.len() && t[j] == s[f(j)],
        forall|i: int, j: int| 0 <= i < j < t.len() ==> #[trigger] f(i) != #[trigger] f(j),
    ensures
        product(s) == product(t),
    decreases t.len(),
{
    if t.len() > 0 {
        let n = t.len() - 1;
        let k = f(n);
        let s2 = s.remove(k);
        let t2 = t.drop_last();
        let g = |j: int| if f(j) < k { f(j) } else { f(j) - 1 };
        assert forall|j: int| 0 <= j < t2.len() implies 0 <= #[trigger] g(j) < s2.len() && t2[j]
            == s2[g(j)] by {
            assert(f(j) != k);
        }
        assert forall|i: int, j: int| 0 <= i < j < t2.len() implies #[trigger] g(i) != #[trigger] g(j) by {
            assert(f(i) != k && f(j) != k && f(i) != f(j));
        }
        lemma_product_reindex(s2, t2, g);
        lemma_product_remove(s, k);
        lemma_product_drop_last(t);
        let p = product(s2);
        let x = s[k] as int;
        assert(x * p == p * x) by (nonlinear_arith);
    }
}

/// A product has a zero factor exactly when it is zero.
pub proof fn lemma_product_zero(s: Seq<u32>)
    ensures
        product(s) == 0 <==> exists|i: int| 0 <= i < s.len() && s[i] == 0,
    decreases s.len(),
{
    if s.len() > 0 {
        lemma_product_zero(s.drop_first());
        let p = product(s.drop_first());
        let x = s[0] as int;
        assert(x * p == 0 <==> x == 0 || p == 0) by (nonlinear_arith);
        if exists|i: int| 0 <= i < s.len() && s[i] == 0 {
            let i = choose|i: int| 0 <= i < s.len() && s[i] == 0;
            if i > 0 {
                assert(s.drop_first()[i - 1] == 0);
            }
        }
        if p == 0 {
            let i = choose|i: int| 0 <= i < s.len() - 1 && s.drop_first()[i] == 0;
            assert(s[i + 1] == 0);
        }
    }
}

} // verus!
