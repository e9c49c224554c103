//! What the kernels' results are, in exact arithmetic: softmax attention.
use crate::laws::maxima::{is_largest, lemma_largest_unique};
use crate::laws::softmax::{
    finite_inputs, finite_mat, invertible, lemma_massless, lemma_naive, lemma_normalizer,
    live_scores, normalizer, row_weights, tiled_matches_naive,
};
use crate::laws::sums::{lemma_mix_finite, lemma_sum_finite};
use crate::laws::terms::{entry, largest, seen, shaped_like, total};
use crate::mat::{lemma_row_at, Mat};
use crate::naive;
use crate::naive::naive_at;
use crate::scalar::{Exact, Scalar};
use crate::score::{
    attends, dot_spec, exps, max_of, mix, reach, scale_spec, score, score_row, softmax, sum_of,
};
use crate::tiled;
use crate::tiled::BLOCK;
use vstd::prelude::*;

verus! {

/// The product of query `i` and key `j`, summed over the head dimension.
pub open spec fn product<S: Scalar>(q: Mat<S>, k: Mat<S>, i: int, j: int) -> S {
    total(|t: int| entry(q, i, t).mul_spec(entry(k, j, t)), q.cols as nat)
}

/// The square root of the head dimension.
pub open spec fn root<S: Scalar>(d: usize) -> S {
    S::from_usize_spec(d).sqrt_spec()
}

/// The scores of query `i`: numbers which, times the root of the head dimension,
/// are its products with the keys that it may attend to.
pub open spec fn are_scores<S: Scalar>(
    x: Seq<S>,
    q: Mat<S>,
    k: Mat<S>,
    causal: bool,
    i: int,
) -> bool {
    &&& x.len() == seen(q.rows as int, causal, i)
    &&& forall|j: int|
        0 <= j < x.len() ==> (#[trigger] x[j]).is_finite_spec() && x[j].mul_spec(root(q.cols))
            == product(q, k, i, j)
}

/// `top` is one of the scores, and none is above it.
pub open spec fn tops<S: Scalar>(top: S, x: Seq<S>) -> bool {
    &&& exists|j: int| 0 <= j < x.len() && #[trigger] x[j] == top
    &&& forall|j: int| 0 <= j < x.len() ==> !(#[trigger] x[j]).greater_than_spec(top)
}

/// The exponentials of the scores, around `top`, added up.
pub open spec fn mass<S: Scalar>(x: Seq<S>, top: S) -> S {
    total(|j: int| x[j].sub_spec(top).exp_spec(), x.len())
}

/// The values, each times the exponential of its score, added up.
pub open spec fn weighed<S: Scalar>(x: Seq<S>, top: S, v: Mat<S>, t: int) -> S {
    total(|j: int| x[j].sub_spec(top).exp_spec().mul_spec(entry(v, j, t)), x.len())
}

/// Everything that attention starts from is finite, the scores can be divided by the
/// root, and `top` is the largest of them.
pub open spec fn scorable<S: Scalar>(q: Mat<S>, k: Mat<S>, v: Mat<S>, x: Seq<S>, top: S) -> bool {
    &&& forall|r: int, t: int|
        0 <= r < q.rows && 0 <= t < q.cols ==> (#[trigger] entry(q, r, t)).is_finite_spec()
    &&& forall|r: int, t: int|
        0 <= r < q.rows && 0 <= t < q.cols ==> (#[trigger] entry(k, r, t)).is_finite_spec()
    &&& forall|r: int, t: int|
        0 <= r < q.rows && 0 <= t < q.cols ==> (#[trigger] entry(v, r, t)).is_finite_spec()
    &&& root::<S>(q.cols).is_finite_spec()
    &&& root::<S>(q.cols) != S::zero_spec()
    &&& invertible(root::<S>(q.cols))
    &&& tops(top, x)
}

/// The scores of a query can also be divided by what the softmax divides them by.
pub open spec fn well_posed<S: Scalar>(
    q: Mat<S>,
    k: Mat<S>,
    v: Mat<S>,
    x: Seq<S>,
    top: S,
    i: int,
) -> bool {
    &&& scorable(q, k, v, x, top)
    &&& mass(x, top) != S::zero_spec()
    &&& invertible(mass(x, top))
}

/// The dot product is the sum of the products.
proof fn lemma_product<S: Scalar>(q: Mat<S>, k: Mat<S>, i: int, j: int, d: nat)
    requires
        0 <= i < q.rows,
        0 <= j < q.rows,
        d <= q.cols <= k.cols,
        q.rows * q.cols <= q.data@.len(),
        q.rows * k.cols <= k.data@.len(),
    ensures
        dot_spec(q.row_seq(i), k.row_seq(j), d) == total(
            |t: int| entry(q, i, t).mul_spec(entry(k, j, t)),
            d,
        ),
    decreases d,
{
    if d > 0 {
        lemma_product(q, k, i, j, (d - 1) as nat);
        lemma_row_at(q, i, q.rows as int);
        lemma_row_at(k, j, q.rows as int);
        assert(q.row_seq(i)[d - 1] == q.at(i, d - 1));
        assert(k.row_seq(j)[d - 1] == k.at(j, d - 1));
    }
}

/// There is only one way to score.
proof fn lemma_scores<S: Exact>(
    q: Mat<S>,
    k: Mat<S>,
    v: Mat<S>,
    causal: bool,
    i: int,
    x: Seq<S>,
    top: S,
)
    requires
        attends(q, k, v),
        0 <= i < q.rows,
        0 < q.cols,
        are_scores(x, q, k, causal, i),
        scorable(q, k, v, x, top),
    ensures
        finite_inputs(q, k, v),
        x == live_scores(q, k, causal, i),
        top == max_of(x, x.len()),
        normalizer(q, k, causal, i) == mass(x, top),
{
    let r = reach(q.rows as int, causal, i);
    let inv = scale_spec::<S>(q.cols);
    S::one_is_finite();
    S::reciprocal_is_finite(root::<S>(q.cols));
    assert forall|a: int, t: int| 0 <= a < q.rows && 0 <= t < q.cols implies (#[trigger] q.at(
        a,
        t,
    )).is_finite_spec() && k.at(a, t).is_finite_spec() && v.at(a, t).is_finite_spec() by {
        assert(entry(q, a, t).is_finite_spec());
        assert(entry(k, a, t).is_finite_spec());
        assert(entry(v, a, t).is_finite_spec());
    }
    assert(finite_mat(q, q.rows as int, q.cols as int));
    assert forall|a: int, t: int| 0 <= a < q.rows && 0 <= t < q.cols implies (#[trigger] k.at(
        a,
        t,
    )).is_finite_spec() by {
        assert(entry(k, a, t).is_finite_spec());
    }
    assert forall|a: int, t: int| 0 <= a < q.rows && 0 <= t < q.cols implies (#[trigger] v.at(
        a,
        t,
    )).is_finite_spec() by {
        assert(entry(v, a, t).is_finite_spec());
    }
    let y = live_scores(q, k, causal, i);
    assert forall|j: int| 0 <= j < r implies x[j] == y[j] by {
        assert(x[j].is_finite_spec());
        lemma_product(q, k, i, j, q.cols as nat);
        let dot = dot_spec(q.row_seq(i), k.row_seq(j), q.cols as nat);
        assert(product(q, k, i, j) == dot);
        // x = x * (root * inv) = (x * root) * inv = dot * inv
        S::mul_associates(x[j], root(q.cols), inv);
        S::mul_one(x[j]);
        assert(score(q, k, i, j) == dot.mul_spec(inv));
    }
    assert(x =~= y);
    lemma_normalizer(q, k, v, causal, i);
    let m = max_of(x, r as nat);
    assert(top.is_finite_spec()) by {
        let j = choose|j: int| 0 <= j < x.len() && x[j] == top;
        assert(x[j].is_finite_spec());
    }
    assert(is_largest(top, x, r));
    lemma_largest_unique(top, m, x, r);
    lemma_mass(x, top, x.len());
}

proof fn lemma_mass<S: Exact>(x: Seq<S>, top: S, k: nat)
    requires
        k <= x.len(),
    ensures
        sum_of(row_weights(x, top), k) == total(|j: int| x[j].sub_spec(top).exp_spec(), k),
    decreases k,
{
    if k > 0 {
        lemma_mass(x, top, (k - 1) as nat);
    }
}

proof fn lemma_weighed<S: Exact>(x: Seq<S>, top: S, v: Mat<S>, t: int, k: nat)
    requires
        k <= x.len(),
    ensures
        mix(S::zero_spec(), row_weights(x, top), v, t, k) == total(
            |j: int| x[j].sub_spec(top).exp_spec().mul_spec(entry(v, j, t)),
            k,
        ),
    decreases k,
{
    if k > 0 {
        lemma_weighed(x, top, v, t, (k - 1) as nat);
        assert(v.at(k - 1, t) == entry(v, k - 1, t));
    }
}

/// What the baseline computes for one element is the average of the values under
/// the softmax of the scores.
pub(crate) proof fn lemma_average<S: Exact>(
    q: Mat<S>,
    k: Mat<S>,
    v: Mat<S>,
    causal: bool,
    i: int,
    t: int,
    x: Seq<S>,
    top: S,
)
    requires
        attends(q, k, v),
        0 <= i < q.rows,
        0 <= t < q.cols,
        are_scores(x, q, k, causal, i),
        well_posed(q, k, v, x, top, i),
    ensures
        finite_inputs(q, k, v),
        normalizer(q, k, causal, i) != S::zero_spec(),
        x == live_scores(q, k, causal, i),
        naive_at(q, k, v, causal, i, t).mul_spec(mass(x, top)) == weighed(x, top, v, t),
{
    lemma_scores(q, k, v, causal, i, x, top);
    lemma_naive(q, k, v, causal, i, t);
    lemma_normalizer(q, k, v, causal, i);
    let r = x.len();
    let w = row_weights(x, top);
    lemma_mass(x, top, r);
    lemma_weighed(x, top, v, t, r);
    let l = sum_of(w, r);
    let o = mix(S::zero_spec(), w, v, t, r);
    lemma_sum_finite(w, r);
    assert forall|j: int| 0 <= j < r implies (#[trigger] v.at(j, t)).is_finite_spec() by {
        assert(entry(v, j, t).is_finite_spec());
    }
    lemma_mix_finite(w, v, t, r);
    let inv = S::one_spec().div_spec(l);
    S::reciprocal_is_finite(l);
    // (o * inv) * l = o * (l * inv) = o
    S::mul_associates(o, inv, l);
    S::mul_commutes(inv, l);
    S::mul_one(o);
}

/// The baseline's result is softmax attention: every output times the mass of the
/// exponentials is the sum of the values that its query may attend to, each times
/// the exponential of its score.
pub proof fn naive_attention_is_softmax_attention<S: Exact>(
    q: &Mat<S>,
    k: &Mat<S>,
    v: &Mat<S>,
    causal: bool,
    out: Mat<S>,
    i: int,
    t: int,
    x: Seq<S>,
    top: S,
)
    requires
        attends(*q, *k, *v),
        call_ensures(naive::attention::<S>, (q, k, v, causal), out),
        0 <= i < q.rows,
        0 <= t < q.cols,
        are_scores(x, *q, *k, causal, i),
        well_posed(*q, *k, *v, x, top, i),
    ensures
        shaped_like(out, *q),
        entry(out, i, t).mul_spec(mass(x, top)) == weighed(x, top, *v, t),
{
    lemma_average(*q, *k, *v, causal, i, t, x, top);
    assert(out.at(i, t) == entry(out, i, t));
}

/// So is that of the tiled kernel, at its own tile size and at every other.
pub proof fn tiled_attention_is_softmax_attention<S: Exact, const B: usize>(
    q: &Mat<S>,
    k: &Mat<S>,
    v: &Mat<S>,
    causal: bool,
    out: Mat<S>,
    sized: Mat<S>,
    i: int,
    t: int,
    x: Seq<S>,
    top: S,
)
    requires
        attends(*q, *k, *v),
        0 < B,
        call_ensures(tiled::attention::<S>, (q, k, v, causal), out),
        call_ensures(tiled::attention_b::<S, B>, (q, k, v, causal), sized),
        0 <= i < q.rows,
        0 <= t < q.cols,
        are_scores(x, *q, *k, causal, i),
        well_posed(*q, *k, *v, x, top, i),
    ensures
        shaped_like(out, *q),
        shaped_like(sized, *q),
        entry(out, i, t).mul_spec(mass(x, top)) == weighed(x, top, *v, t),
        entry(sized, i, t).mul_spec(mass(x, top)) == weighed(x, top, *v, t),
{
    lemma_average(*q, *k, *v, causal, i, t, x, top);
    tiled_matches_naive(*q, *k, *v, causal, BLOCK as int, i, t);
    tiled_matches_naive(*q, *k, *v, causal, B as int, i, t);
    assert(out.at(i, t) == entry(out, i, t));
    assert(sized.at(i, t) == entry(sized, i, t));
}

/// A row whose exponentials add up to zero is left undivided by the tiled kernel.
pub proof fn rows_without_mass_are_left_undivided<S: Exact, const B: usize>(
    q: &Mat<S>,
    k: &Mat<S>,
    v: &Mat<S>,
    causal: bool,
    out: Mat<S>,
    sized: Mat<S>,
    i: int,
    t: int,
    x: Seq<S>,
    top: S,
)
    requires
        attends(*q, *k, *v),
        0 < B,
        call_ensures(tiled::attention::<S>, (q, k, v, causal), out),
        call_ensures(tiled::attention_b::<S, B>, (q, k, v, causal), sized),
        0 <= i < q.rows,
        0 <= t < q.cols,
        are_scores(x, *q, *k, causal, i),
        scorable(*q, *k, *v, x, top),
        mass(x, top) == S::zero_spec(),
        invertible(S::one_spec()),
        S::one_spec() != S::zero_spec(),
    ensures
        entry(out, i, t) == weighed(x, top, *v, t),
        entry(sized, i, t) == weighed(x, top, *v, t),
{
    lemma_scores(*q, *k, *v, causal, i, x, top);
    lemma_massless(*q, *k, *v, causal, BLOCK as int, i, t);
    lemma_massless(*q, *k, *v, causal, B as int, i, t);
    lemma_weighed(x, top, *v, t, x.len());
    assert(out.at(i, t) == entry(out, i, t));
    assert(sized.at(i, t) == entry(sized, i, t));
}

/// The score of a query and a key is their product over the root of the head
/// dimension: where the root squared is the dimension, the score squared times the
/// dimension is the product squared.
pub proof fn scores_are_scaled_by_the_root<S: Exact>(
    x: Seq<S>,
    q: Mat<S>,
    k: Mat<S>,
    causal: bool,
    i: int,
    j: int,
)
    requires
        are_scores(x, q, k, causal, i),
        0 <= j < x.len(),
        root::<S>(q.cols).is_finite_spec(),
        root::<S>(q.cols).mul_spec(root(q.cols)) == S::from_usize_spec(q.cols),
    ensures
        x[j].mul_spec(x[j]).mul_spec(S::from_usize_spec(q.cols)) == product(q, k, i, j).mul_spec(
            product(q, k, i, j),
        ),
{
    let (s, r) = (x[j], root::<S>(q.cols));
    assert(s.is_finite_spec());
    S::mul_is_finite(s, r);
    S::mul_is_finite(s, s);
    S::mul_is_finite(r, r);
    // (s s)(r r) = s (s (r r)) = s ((s r) r) = s (r (s r)) = (s r)(s r)
    S::mul_associates(s, s, r.mul_spec(r));
    S::mul_associates(s, r, r);
    S::mul_commutes(s.mul_spec(r), r);
    S::mul_associates(s, r, s.mul_spec(r));
}

/// The scores of query `i` as they are computed, in whatever arithmetic: its products
/// times one over the root, and minus infinity where the mask hides a key.
pub open spec fn computed_scores<S: Scalar>(q: Mat<S>, k: Mat<S>, causal: bool, i: int) -> Seq<S> {
    Seq::new(
        q.rows as nat,
        |j: int|
            if j < seen(q.rows as int, causal, i) {
                product(q, k, i, j).mul_spec(S::one_spec().div_spec(root(q.cols)))
            } else {
                S::neg_infinity_spec()
            },
    )
}

/// Both have finite numbers in the same places, and those as far below the largest.
pub open spec fn lie_alike<S: Scalar>(x: Seq<S>, y: Seq<S>) -> bool {
    &&& x.len() == y.len()
    &&& forall|j: int|
        0 <= j < x.len() ==> (#[trigger] x[j]).is_finite_spec() == y[j].is_finite_spec()
    &&& forall|j: int|
        0 <= j < x.len() && (#[trigger] x[j]).is_finite_spec() ==> x[j].sub_spec(
            largest(x, x.len()),
        ) == y[j].sub_spec(largest(y, y.len()))
}

proof fn lemma_largest<S: Scalar>(x: Seq<S>, k: nat)
    ensures
        largest(x, k) == max_of(x, k),
    decreases k,
{
    if k > 0 {
        lemma_largest(x, (k - 1) as nat);
    }
}

proof fn lemma_computed<S: Scalar>(q: Mat<S>, k: Mat<S>, v: Mat<S>, causal: bool, i: int)
    requires
        attends(q, k, v),
        0 <= i < q.rows,
    ensures
        computed_scores(q, k, causal, i) == score_row(q, k, causal, i),
{
    let x = computed_scores(q, k, causal, i);
    let y = score_row(q, k, causal, i);
    assert forall|j: int| 0 <= j < q.rows implies x[j] == y[j] by {
        if j < seen(q.rows as int, causal, i) {
            lemma_product(q, k, i, j, q.cols as nat);
        }
    }
    assert(x =~= y);
}

/// Only how far the scores lie below the largest matters to the baseline, in whatever
/// arithmetic: two problems in which they lie alike have the same results.
pub proof fn only_distances_from_the_largest_matter<S: Scalar>(
    q: &Mat<S>,
    k: &Mat<S>,
    q2: &Mat<S>,
    k2: &Mat<S>,
    v: &Mat<S>,
    causal: bool,
    i: int,
    t: int,
    out: Mat<S>,
    out2: Mat<S>,
)
    requires
        attends(*q, *k, *v),
        attends(*q2, *k2, *v),
        q2.rows == q.rows,
        q2.cols == q.cols,
        0 <= i < q.rows,
        0 <= t < q.cols,
        call_ensures(naive::attention::<S>, (q, k, v, causal), out),
        call_ensures(naive::attention::<S>, (q2, k2, v, causal), out2),
        lie_alike(computed_scores(*q, *k, causal, i), computed_scores(*q2, *k2, causal, i)),
    ensures
        entry(out, i, t) == entry(out2, i, t),
{
    lemma_computed(*q, *k, *v, causal, i);
    lemma_computed(*q2, *k2, *v, causal, i);
    let x = score_row(*q, *k, causal, i);
    let y = score_row(*q2, *k2, causal, i);
    lemma_largest(x, x.len());
    lemma_largest(y, y.len());
    assert(exps(x, max_of(x, x.len())) =~= exps(y, max_of(y, y.len())));
    assert(softmax(x) =~= softmax(y));
    assert(out.at(i, t) == out2.at(i, t));
}

} // verus!
