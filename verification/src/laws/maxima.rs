//! Running maxima in exact arithmetic.
use crate::laws::sums::finite_upto;
use crate::scalar::{Exact, Scalar};
use crate::score::max_of;
use crate::tiled::top_of;
use vstd::prelude::*;

verus! {

/// `m` is the largest of the first `k` elements.
pub open spec fn is_largest<S: Scalar>(m: S, x: Seq<S>, k: int) -> bool {
    &&& m.is_finite_spec()
    &&& exists|j: int| 0 <= j < k && #[trigger] x[j] == m
    &&& forall|j: int| 0 <= j < k ==> !(#[trigger] x[j]).greater_than_spec(m)
}

/// There is only one largest element.
pub(crate) proof fn lemma_largest_unique<S: Exact>(a: S, b: S, x: Seq<S>, k: int)
    requires
        is_largest(a, x, k),
        is_largest(b, x, k),
    ensures
        a == b,
{
    S::order_is_total(a, b);
}

/// The larger of the largest so far and one more element is the largest of all.
pub(crate) proof fn lemma_largest_grows<S: Exact>(m: S, x: Seq<S>, k: int)
    requires
        0 < k < x.len(),
        is_largest(m, x, k),
        x[k].is_finite_spec(),
        finite_upto(x, k),
    ensures
        is_largest(
            if x[k].greater_than_spec(m) {
                x[k]
            } else {
                m
            },
            x,
            k + 1,
        ),
{
    let y = x[k];
    S::order_is_total(y, y);
    if y.greater_than_spec(m) {
        assert forall|j: int| 0 <= j < k + 1 implies !(#[trigger] x[j]).greater_than_spec(y) by {
            if j < k && x[j].greater_than_spec(y) {
                S::order_is_transitive(x[j], y, m);
            }
        }
        assert(x[k] == y);
    } else {
        let j = choose|j: int| 0 <= j < k && x[j] == m;
        assert(x[j] == m);
    }
}

/// One finite element is the largest of itself.
pub(crate) proof fn lemma_largest_starts<S: Exact>(x: Seq<S>)
    requires
        x.len() > 0,
        x[0].is_finite_spec(),
    ensures
        is_largest(x[0], x, 1),
{
    S::order_is_total(x[0], x[0]);
}

/// The running maximum of finite elements is the largest of them.
pub(crate) proof fn lemma_max_is_largest<S: Exact>(x: Seq<S>, k: nat)
    requires
        0 < k <= x.len(),
        finite_upto(x, k as int),
    ensures
        is_largest(max_of(x, k), x, k as int),
    decreases k,
{
    if k == 1 {
        reveal_with_fuel(max_of, 2);
        S::neg_infinity_is_least(x[0]);
        S::max_is_larger(S::neg_infinity_spec(), x[0]);
        lemma_largest_starts(x);
    } else {
        lemma_max_is_largest(x, (k - 1) as nat);
        S::max_is_larger(max_of(x, (k - 1) as nat), x[k - 1]);
        lemma_largest_grows(max_of(x, (k - 1) as nat), x, k - 1);
    }
}

/// So is the maximum that a tile keeps by comparison.
pub(crate) proof fn lemma_top_is_largest<S: Exact>(x: Seq<S>, k: nat)
    requires
        0 < k <= x.len(),
        finite_upto(x, k as int),
    ensures
        is_largest(top_of(x, k), x, k as int),
    decreases k,
{
    if k == 1 {
        reveal_with_fuel(top_of, 2);
        S::neg_infinity_is_least(x[0]);
        lemma_largest_starts(x);
    } else {
        lemma_top_is_largest(x, (k - 1) as nat);
        lemma_largest_grows(top_of(x, (k - 1) as nat), x, k - 1);
    }
}

/// The larger of the largest before a tile and the largest in it is the largest
/// up to its end.
pub(crate) proof fn lemma_largest_joins<S: Exact>(m: S, top: S, x: Seq<S>, tail: Seq<S>, c: int, k: int)
    requires
        0 < c,
        0 < k,
        c + k <= x.len(),
        finite_upto(x, (c + k) as int),
        forall|j: int| 0 <= j < k ==> #[trigger] tail[j] == x[c + j],
        is_largest(m, x, c),
        is_largest(top, tail, k),
    ensures
        is_largest(m.max_spec(top), x, c + k),
{
    S::max_is_larger(m, top);
    let best = m.max_spec(top);
    let a = choose|j: int| 0 <= j < c && x[j] == m;
    let b = choose|j: int| 0 <= j < k && tail[j] == top;
    assert(tail[b] == x[c + b]);
    if top.greater_than_spec(m) {
        assert(x[c + b] == best);
    } else {
        assert(x[a] == best);
    }
    assert forall|j: int| 0 <= j < c + k implies !(#[trigger] x[j]).greater_than_spec(best) by {
        if j < c {
            if top.greater_than_spec(m) && x[j].greater_than_spec(top) {
                S::order_is_transitive(x[j], top, m);
            }
        } else {
            assert(tail[j - c] == x[c + (j - c)]);
            if !top.greater_than_spec(m) && x[j].greater_than_spec(m) {
                S::order_is_total(m, top);
                if m.greater_than_spec(top) {
                    S::order_is_transitive(x[j], m, top);
                }
            }
        }
    }
}

} // verus!
