//! The order of the keys does not matter.
use crate::laws::maxima::{lemma_largest_unique, lemma_max_is_largest};
use crate::laws::paths::{lanes_exponentiate, simd_matches_naive};
use crate::laws::softmax::{
    finite_inputs, lemma_naive, lemma_normalizer, lemma_scores_finite, live_scores, mean,
    normalizer, row_weights, tiled_matches_naive,
};
use crate::laws::sums::{finite_upto, lemma_sum_finite, lemma_sum_same};
use crate::mat::Mat;
use crate::naive::naive_at;
use crate::scalar::{Exact, Lanes, Scalar};
use crate::score::{attends, max_of, mix, sum_of};
use crate::simd::{simd_at, Path};
use crate::tiled::{tiled_at, Portable};
use vstd::prelude::*;

verus! {

/// `p` rearranges `0..n`, and `back` undoes it.
pub open spec fn is_permutation(p: Seq<int>, back: Seq<int>, n: int) -> bool {
    &&& p.len() == n
    &&& back.len() == n
    &&& forall|j: int| 0 <= j < n ==> 0 <= #[trigger] p[j] < n && back[p[j]] == j
    &&& forall|j: int| 0 <= j < n ==> 0 <= #[trigger] back[j] < n && p[back[j]] == j
}

/// Taking a term out of a sum and adding it last changes nothing.
proof fn lemma_sum_remove<S: Exact>(x: Seq<S>, c: int)
    requires
        0 <= c < x.len(),
        finite_upto(x, x.len() as int),
    ensures
        sum_of(x, x.len()) == sum_of(x.remove(c), (x.len() - 1) as nat).add_spec(x[c]),
    decreases x.len(),
{
    let n = x.len();
    let rest = x.remove(c);
    if c == n - 1 {
        lemma_sum_same(x, rest, (n - 1) as nat);
    } else {
        let head = x.drop_last();
        assert forall|j: int| 0 <= j < head.len() implies (#[trigger] head[j]).is_finite_spec() by {
            assert(head[j] == x[j]);
        }
        lemma_sum_remove(head, c);
        lemma_sum_same(x, head, (n - 1) as nat);
        let less = head.remove(c);
        assert forall|j: int| 0 <= j < n - 2 implies #[trigger] rest[j] == less[j] by {}
        lemma_sum_same(rest, less, (n - 2) as nat);
        assert(rest[n - 2] == x[n - 1]);
        let s = sum_of(less, (n - 2) as nat);
        assert forall|j: int| 0 <= j < n - 2 implies (#[trigger] less[j]).is_finite_spec() by {
            if j < c {
                assert(less[j] == x[j]);
            } else {
                assert(less[j] == x[j + 1]);
            }
        }
        lemma_sum_finite(less, (n - 2) as nat);
        // (s + x[c]) + x[n - 1] = (s + x[n - 1]) + x[c]
        let (a, b) = (x[c], x[n - 1]);
        assert(a.is_finite_spec() && b.is_finite_spec());
        S::add_associates(s, a, b);
        S::add_commutes(a, b);
        S::add_associates(s, b, a);
    }
}

/// The terms of a sum may come in any order.
proof fn lemma_sum_permutes<S: Exact>(x: Seq<S>, y: Seq<S>, p: Seq<int>)
    requires
        y.len() == x.len(),
        p.len() == x.len(),
        finite_upto(x, x.len() as int),
        forall|j: int| 0 <= j < p.len() ==> 0 <= #[trigger] p[j] < x.len() && y[j] == x[p[j]],
        forall|i: int, j: int|
            0 <= i < p.len() && 0 <= j < p.len() && #[trigger] p[i] == #[trigger] p[j] ==> i == j,
    ensures
        sum_of(y, y.len()) == sum_of(x, x.len()),
    decreases x.len(),
{
    let n = x.len();
    if n > 0 {
        let c = p[n - 1];
        let less = x.remove(c);
        let head = y.drop_last();
        let q = Seq::new(
            (n - 1) as nat,
            |j: int|
                if p[j] < c {
                    p[j]
                } else {
                    p[j] - 1
                },
        );
        assert forall|j: int| 0 <= j < less.len() implies (#[trigger] less[j]).is_finite_spec() by {
            if j < c {
                assert(less[j] == x[j]);
            } else {
                assert(less[j] == x[j + 1]);
            }
        }
        assert forall|j: int| 0 <= j < q.len() implies 0 <= #[trigger] q[j] < less.len() && head[j]
            == less[q[j]] by {
            assert(p[j] != p[n - 1]);
            assert(head[j] == x[p[j]]);
        }
        assert forall|i: int, j: int|
            0 <= i < q.len() && 0 <= j < q.len() && #[trigger] q[i] == #[trigger] q[j] implies i
            == j by {
            assert(p[i] != p[n - 1] && p[j] != p[n - 1]);
            assert(p[i] == p[j]);
        }
        lemma_sum_permutes(less, head, q);
        lemma_sum_same(y, head, (n - 1) as nat);
        lemma_sum_remove(x, c);
        assert(y[n - 1] == x[c]);
    }
}

/// A permuted row has the same largest element.
proof fn lemma_max_permutes<S: Exact>(x: Seq<S>, y: Seq<S>, p: Seq<int>, back: Seq<int>)
    requires
        x.len() > 0,
        y.len() == x.len(),
        is_permutation(p, back, x.len() as int),
        finite_upto(x, x.len() as int),
        forall|j: int| 0 <= j < x.len() ==> #[trigger] y[j] == x[p[j]],
    ensures
        max_of(y, y.len()) == max_of(x, x.len()),
{
    let n = x.len() as int;
    assert forall|j: int| 0 <= j < n implies (#[trigger] y[j]).is_finite_spec() by {
        assert(0 <= p[j] < n);
    }
    lemma_max_is_largest(x, x.len());
    lemma_max_is_largest(y, y.len());
    let m = max_of(x, x.len());
    let j = choose|j: int| 0 <= j < n && x[j] == m;
    assert(0 <= back[j] < n && p[back[j]] == j);
    assert(y[back[j]] == m);
    assert forall|u: int| 0 <= u < n implies !(#[trigger] y[u]).greater_than_spec(m) by {
        assert(0 <= p[u] < n);
        assert(!x[p[u]].greater_than_spec(m));
    }
    lemma_largest_unique(m, max_of(y, y.len()), y, n);
}

/// A weighted sum is the sum of its products.
proof fn lemma_mix_is_sum<S: Scalar>(w: Seq<S>, v: Mat<S>, t: int, products: Seq<S>, k: nat)
    requires
        forall|j: int| 0 <= j < k ==> #[trigger] products[j] == w[j].mul_spec(v.at(j, t)),
    ensures
        mix(S::zero_spec(), w, v, t, k) == sum_of(products, k),
    decreases k,
{
    if k > 0 {
        lemma_mix_is_sum(w, v, t, products, (k - 1) as nat);
        assert(products[k - 1] == w[k - 1].mul_spec(v.at(k - 1, t)));
    }
}

/// The keys and values of one problem are those of another in a different order.
pub open spec fn rearranges<S>(
    p: Seq<int>,
    back: Seq<int>,
    n: int,
    d: int,
    k: Mat<S>,
    v: Mat<S>,
    k2: Mat<S>,
    v2: Mat<S>,
) -> bool {
    &&& is_permutation(p, back, n)
    &&& forall|j: int| 0 <= j < n ==> #[trigger] k2.row_seq(j) == k.row_seq(p[j])
    &&& forall|j: int, t: int|
        0 <= j < n && 0 <= t < d ==> #[trigger] v2.at(j, t) == v.at(p[j], t)
}

/// Without a mask the order of the keys is irrelevant: permuting keys and values
/// together changes neither the naive result nor the tiled one, at any tile size.
pub proof fn key_order_is_irrelevant<S: Exact>(
    p: Seq<int>,
    back: Seq<int>,
    q: Mat<S>,
    k: Mat<S>,
    v: Mat<S>,
    k2: Mat<S>,
    v2: Mat<S>,
    block: int,
    i: int,
    t: int,
)
    requires
        attends(q, k, v),
        attends(q, k2, v2),
        finite_inputs(q, k, v),
        finite_inputs(q, k2, v2),
        rearranges(p, back, q.rows as int, q.cols as int, k, v, k2, v2),
        block > 0,
        0 <= i < q.rows,
        0 <= t < q.cols,
        normalizer(q, k, false, i) != S::zero_spec(),
    ensures
        normalizer(q, k2, false, i) == normalizer(q, k, false, i),
        naive_at(q, k2, v2, false, i, t) == naive_at(q, k, v, false, i, t),
        tiled_at::<S, Portable>(q, k2, v2, false, block, i, t) == tiled_at::<S, Portable>(
            q,
            k,
            v,
            false,
            block,
            i,
            t,
        ),
{
    let n = q.rows as nat;
    let (x, x2) = (live_scores(q, k, false, i), live_scores(q, k2, false, i));
    lemma_scores_finite(q, k, v, false, i);
    lemma_scores_finite(q, k2, v2, false, i);
    assert forall|j: int| 0 <= j < n implies #[trigger] x2[j] == x[p[j]] by {
        assert(0 <= p[j] < n);
        assert(k2.row_seq(j) == k.row_seq(p[j]));
    }
    lemma_max_permutes(x, x2, p, back);
    let m = max_of(x, n);
    let (w, w2) = (row_weights(x, m), row_weights(x2, m));
    lemma_normalizer(q, k, v, false, i);
    lemma_normalizer(q, k2, v2, false, i);
    assert forall|j: int| 0 <= j < n implies 0 <= #[trigger] p[j] < n && w2[j] == w[p[j]] by {
        assert(x2[j] == x[p[j]]);
    }
    assert forall|a: int, b: int|
        0 <= a < n && 0 <= b < n && #[trigger] p[a] == #[trigger] p[b] implies a == b by {
        assert(back[p[a]] == a && back[p[b]] == b);
    }
    lemma_sum_permutes(w, w2, p);
    let f = Seq::new(n, |j: int| w[j].mul_spec(v.at(j, t)));
    let f2 = Seq::new(n, |j: int| w2[j].mul_spec(v2.at(j, t)));
    assert forall|j: int| 0 <= j < n implies (#[trigger] f[j]).is_finite_spec() by {
        assert(w[j].is_finite_spec() && v.at(j, t).is_finite_spec());
        S::mul_is_finite(w[j], v.at(j, t));
    }
    assert forall|j: int| 0 <= j < n implies 0 <= #[trigger] p[j] < n && f2[j] == f[p[j]] by {
        assert(w2[j] == w[p[j]]);
        assert(v2.at(j, t) == v.at(p[j], t));
    }
    lemma_sum_permutes(f, f2, p);
    lemma_mix_is_sum(w, v, t, f, n);
    lemma_mix_is_sum(w2, v2, t, f2, n);
    lemma_naive(q, k, v, false, i, t);
    lemma_naive(q, k2, v2, false, i, t);
    assert(mean(w, v, t, n) == mean(w2, v2, t, n));
    tiled_matches_naive(q, k, v, false, block, i, t);
    tiled_matches_naive(q, k2, v2, false, block, i, t);
}

/// So on every vector path, as far as the vectorized exponential is the true one
/// on what the two rows hand it.
pub proof fn key_order_is_irrelevant_in_lanes<S: Exact + Lanes>(
    path: Path,
    p: Seq<int>,
    back: Seq<int>,
    q: Mat<S>,
    k: Mat<S>,
    v: Mat<S>,
    k2: Mat<S>,
    v2: Mat<S>,
    i: int,
    t: int,
)
    requires
        attends(q, k, v),
        attends(q, k2, v2),
        finite_inputs(q, k, v),
        finite_inputs(q, k2, v2),
        rearranges(p, back, q.rows as int, q.cols as int, k, v, k2, v2),
        lanes_exponentiate(path, live_scores(q, k, false, i)),
        lanes_exponentiate(path, live_scores(q, k2, false, i)),
        0 <= i < q.rows,
        0 <= t < q.cols,
        normalizer(q, k, false, i) != S::zero_spec(),
    ensures
        simd_at(path, q, k2, v2, false, i, t) == simd_at(path, q, k, v, false, i, t),
{
    key_order_is_irrelevant(p, back, q, k, v, k2, v2, 1, i, t);
    simd_matches_naive(path, q, k, v, false, i, t);
    simd_matches_naive(path, q, k2, v2, false, i, t);
}

} // verus!
