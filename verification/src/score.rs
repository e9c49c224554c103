//! Scores, softmax and weighted sums: the pieces of attention, as sequences of
//! operations on a [`Scalar`].
use crate::mat::Mat;
use crate::scalar::Scalar;
use vstd::prelude::*;

verus! {

/// `a[0] * b[0] + a[1] * b[1] + ...` over the first `d` elements, from the left.
pub open spec fn dot_spec<S: Scalar>(a: Seq<S>, b: Seq<S>, d: nat) -> S
    decreases d,
{
    if d == 0 {
        S::zero_spec()
    } else {
        dot_spec(a, b, (d - 1) as nat).add_spec(a[d - 1].mul_spec(b[d - 1]))
    }
}

/// `1 / sqrt(d)`.
pub open spec fn scale_spec<S: Scalar>(d: usize) -> S {
    S::one_spec().div_spec(S::from_usize_spec(d).sqrt_spec())
}

/// How well query `i` matches key `j`: their scaled dot product.
pub open spec fn score<S: Scalar>(q: Mat<S>, k: Mat<S>, i: int, j: int) -> S {
    dot_spec(q.row_seq(i), k.row_seq(j), q.cols as nat).mul_spec(scale_spec(q.cols))
}

/// The keys that query `i` may attend to are `0..reach(..)`.
pub open spec fn reach(n: int, causal: bool, i: int) -> int {
    if causal {
        i + 1
    } else {
        n
    }
}

/// Row `i` of the score matrix, with masked entries at negative infinity.
pub open spec fn score_row<S: Scalar>(q: Mat<S>, k: Mat<S>, causal: bool, i: int) -> Seq<S> {
    Seq::new(
        q.rows as nat,
        |j: int|
            if j < reach(q.rows as int, causal, i) {
                score(q, k, i, j)
            } else {
                S::neg_infinity_spec()
            },
    )
}

/// The running maximum of the first `k` elements, from negative infinity.
pub open spec fn max_of<S: Scalar>(x: Seq<S>, k: nat) -> S
    decreases k,
{
    if k == 0 {
        S::neg_infinity_spec()
    } else {
        max_of(x, (k - 1) as nat).max_spec(x[k - 1])
    }
}

/// The sum of the first `k` elements, from the left.
pub open spec fn sum_of<S: Scalar>(x: Seq<S>, k: nat) -> S
    decreases k,
{
    if k == 0 {
        S::zero_spec()
    } else {
        sum_of(x, (k - 1) as nat).add_spec(x[k - 1])
    }
}

/// The unnormalized softmax terms: `exp(x - m)`, and zero where `x` is masked.
pub open spec fn exps<S: Scalar>(x: Seq<S>, m: S) -> Seq<S> {
    Seq::new(
        x.len(),
        |j: int|
            if x[j].is_finite_spec() {
                x[j].sub_spec(m).exp_spec()
            } else {
                S::zero_spec()
            },
    )
}

/// `softmax(x)`, computed around the largest element so no exponent is positive.
pub open spec fn softmax<S: Scalar>(x: Seq<S>) -> Seq<S> {
    let e = exps(x, max_of(x, x.len()));
    let inv = S::one_spec().div_spec(sum_of(e, e.len()));
    Seq::new(x.len(), |j: int| e[j].mul_spec(inv))
}

/// `start + w[0] * v[0][t] + w[1] * v[1][t] + ...` over `k` rows of `v`.
pub open spec fn mix<S: Scalar>(start: S, w: Seq<S>, v: Mat<S>, t: int, k: nat) -> S
    decreases k,
{
    if k == 0 {
        start
    } else {
        mix(start, w, v, t, (k - 1) as nat).add_spec(w[k - 1].mul_spec(v.at(k - 1, t)))
    }
}

/// What attention can be asked of: `n` queries of `d` elements, and at least
/// as many keys and values, at least as wide.
pub open spec fn attends<S: Scalar>(q: Mat<S>, k: Mat<S>, v: Mat<S>) -> bool {
    &&& q.rows * q.cols <= usize::MAX
    &&& q.covers(q.rows as int, q.cols as int)
    &&& k.covers(q.rows as int, q.cols as int)
    &&& v.covers(q.rows as int, q.cols as int)
}

/// The dot product of the first `d` elements.
pub(crate) fn dot<S: Scalar>(a: &[S], b: &[S], d: usize) -> (r: S)
    requires
        d <= a@.len(),
        d <= b@.len(),
    ensures
        r == dot_spec(a@, b@, d as nat),
{
    let mut acc = S::zero();
    let mut t: usize = 0;
    while t < d
        invariant
            t <= d,
            d <= a@.len(),
            d <= b@.len(),
            acc == dot_spec(a@, b@, t as nat),
        decreases d - t,
    {
        acc = acc.add(a[t].mul(b[t]));
        t += 1;
    }
    acc
}

/// `1 / sqrt(d)`.
pub(crate) fn scale<S: Scalar>(d: usize) -> (r: S)
    ensures
        r == scale_spec::<S>(d),
{
    S::one().div(S::from_usize(d).sqrt())
}

} // verus!
