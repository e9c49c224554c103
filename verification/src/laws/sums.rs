//! Sums, dot products and weighted sums in exact arithmetic.
use crate::mat::Mat;
use crate::scalar::{Exact, Scalar};
use crate::score::{dot_spec, mix, sum_of};
use vstd::prelude::*;

verus! {

/// The first `k` elements of a sequence are finite.
pub open spec fn finite_upto<S: Scalar>(x: Seq<S>, k: int) -> bool {
    forall|j: int| 0 <= j < k ==> (#[trigger] x[j]).is_finite_spec()
}

/// Finite terms have a finite sum.
pub(crate) proof fn lemma_sum_finite<S: Exact>(x: Seq<S>, k: nat)
    requires
        finite_upto(x, k as int),
    ensures
        sum_of(x, k).is_finite_spec(),
    decreases k,
{
    if k == 0 {
        S::zero_is_finite();
    } else {
        lemma_sum_finite(x, (k - 1) as nat);
        S::add_is_finite(sum_of(x, (k - 1) as nat), x[k - 1]);
    }
}

/// Finite operands have a finite dot product.
pub(crate) proof fn lemma_dot_finite<S: Exact>(a: Seq<S>, b: Seq<S>, d: nat)
    requires
        finite_upto(a, d as int),
        finite_upto(b, d as int),
    ensures
        dot_spec(a, b, d).is_finite_spec(),
    decreases d,
{
    if d == 0 {
        S::zero_is_finite();
    } else {
        lemma_dot_finite(a, b, (d - 1) as nat);
        S::mul_is_finite(a[d - 1], b[d - 1]);
        S::add_is_finite(dot_spec(a, b, (d - 1) as nat), a[d - 1].mul_spec(b[d - 1]));
    }
}

/// Finite weights and values have a finite weighted sum.
pub(crate) proof fn lemma_mix_finite<S: Exact>(w: Seq<S>, v: Mat<S>, t: int, k: nat)
    requires
        finite_upto(w, k as int),
        forall|j: int| 0 <= j < k ==> (#[trigger] v.at(j, t)).is_finite_spec(),
    ensures
        mix(S::zero_spec(), w, v, t, k).is_finite_spec(),
    decreases k,
{
    if k == 0 {
        S::zero_is_finite();
    } else {
        lemma_mix_finite(w, v, t, (k - 1) as nat);
        S::mul_is_finite(w[k - 1], v.at(k - 1, t));
        S::add_is_finite(
            mix(S::zero_spec(), w, v, t, (k - 1) as nat),
            w[k - 1].mul_spec(v.at(k - 1, t)),
        );
    }
}

/// A sum depends only on the terms it adds.
pub(crate) proof fn lemma_sum_same<S: Scalar>(x: Seq<S>, y: Seq<S>, k: nat)
    requires
        forall|j: int| 0 <= j < k ==> #[trigger] x[j] == y[j],
    ensures
        sum_of(x, k) == sum_of(y, k),
    decreases k,
{
    if k > 0 {
        lemma_sum_same(x, y, (k - 1) as nat);
    }
}

/// Trailing zeros do not change a sum.
pub(crate) proof fn lemma_sum_zeros<S: Exact>(x: Seq<S>, r: nat, n: nat)
    requires
        r <= n,
        finite_upto(x, r as int),
        forall|j: int| r <= j < n ==> #[trigger] x[j] == S::zero_spec(),
    ensures
        sum_of(x, n) == sum_of(x, r),
    decreases n,
{
    if r < n {
        lemma_sum_zeros(x, r, (n - 1) as nat);
        lemma_sum_finite(x, r);
        S::add_zero(sum_of(x, r));
    }
}

/// A sum over `c + k` terms is the sum over the first `c` plus the sum over the
/// next `k`.
pub(crate) proof fn lemma_sum_splits<S: Exact>(x: Seq<S>, tail: Seq<S>, c: nat, k: nat)
    requires
        finite_upto(x, (c + k) as int),
        forall|j: int| 0 <= j < k ==> #[trigger] tail[j] == x[c + j],
    ensures
        sum_of(x, c + k) == sum_of(x, c).add_spec(sum_of(tail, k)),
    decreases k,
{
    lemma_sum_finite(x, c);
    if k == 0 {
        S::add_zero(sum_of(x, c));
    } else {
        assert(tail[k - 1] == x[c + (k - 1)]);
        lemma_sum_splits(x, tail, c, (k - 1) as nat);
        assert(finite_upto(tail, k - 1)) by {
            assert forall|j: int| 0 <= j < k - 1 implies (#[trigger] tail[j]).is_finite_spec() by {
                assert(tail[j] == x[c + j]);
            }
        }
        lemma_sum_finite(tail, (k - 1) as nat);
        S::add_associates(sum_of(x, c), sum_of(tail, (k - 1) as nat), tail[k - 1]);
    }
}

/// Multiplying every term by `f` multiplies the sum by `f`.
pub(crate) proof fn lemma_sum_scales<S: Exact>(x: Seq<S>, y: Seq<S>, f: S, k: nat)
    requires
        finite_upto(x, k as int),
        f.is_finite_spec(),
        forall|j: int| 0 <= j < k ==> #[trigger] y[j] == x[j].mul_spec(f),
    ensures
        sum_of(x, k).mul_spec(f) == sum_of(y, k),
    decreases k,
{
    S::zero_is_finite();
    if k == 0 {
        S::mul_commutes(S::zero_spec(), f);
        S::mul_zero(f);
    } else {
        lemma_sum_scales(x, y, f, (k - 1) as nat);
        let head = sum_of(x, (k - 1) as nat);
        lemma_sum_finite(x, (k - 1) as nat);
        lemma_right_distributes(head, x[k - 1], f);
    }
}

/// `(a + b) * c = a * c + b * c`.
pub(crate) proof fn lemma_right_distributes<S: Exact>(a: S, b: S, c: S)
    requires
        a.is_finite_spec(),
        b.is_finite_spec(),
        c.is_finite_spec(),
    ensures
        a.add_spec(b).mul_spec(c) == a.mul_spec(c).add_spec(b.mul_spec(c)),
{
    S::add_is_finite(a, b);
    S::mul_commutes(a.add_spec(b), c);
    S::mul_distributes(c, a, b);
    S::mul_commutes(c, a);
    S::mul_commutes(c, b);
}

/// Multiplying every weight by `f` multiplies the weighted sum by `f`.
pub(crate) proof fn lemma_mix_scales<S: Exact>(w: Seq<S>, y: Seq<S>, v: Mat<S>, t: int, f: S, k: nat)
    requires
        finite_upto(w, k as int),
        f.is_finite_spec(),
        forall|j: int| 0 <= j < k ==> (#[trigger] v.at(j, t)).is_finite_spec(),
        forall|j: int| 0 <= j < k ==> #[trigger] y[j] == w[j].mul_spec(f),
    ensures
        mix(S::zero_spec(), w, v, t, k).mul_spec(f) == mix(S::zero_spec(), y, v, t, k),
    decreases k,
{
    S::zero_is_finite();
    if k == 0 {
        S::mul_commutes(S::zero_spec(), f);
        S::mul_zero(f);
    } else {
        lemma_mix_scales(w, y, v, t, f, (k - 1) as nat);
        let head = mix(S::zero_spec(), w, v, t, (k - 1) as nat);
        let x = v.at(k - 1, t);
        let p = w[k - 1];
        lemma_mix_finite(w, v, t, (k - 1) as nat);
        S::mul_is_finite(p, x);
        lemma_right_distributes(head, p.mul_spec(x), f);
        // (p * x) * f = (p * f) * x
        S::mul_associates(p, x, f);
        S::mul_commutes(x, f);
        S::mul_associates(p, f, x);
    }
}

} // verus!
