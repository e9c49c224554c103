//! Baseline: the textbook three-pass formulation. It materializes the full
//! [n x n] score matrix, which is O(n^2) memory traffic and blows past cache as
//! `n` grows. This is the thing every later kernel is measured against.
//!
//! `causal` masks out future positions (j > i), as in a decoder / GPT-style
//! model: query i may only attend to keys 0..=i.
use crate::mat::{lemma_row_at, lemma_row_bounds, lemma_splice_rows, Mat};
use crate::scalar::Scalar;
use crate::score::{
    attends, dot, exps, max_of, mix, reach, scale, scale_spec, score, score_row, softmax, sum_of,
};
use vstd::prelude::*;

verus! {

/// Element `t` of output row `i`: the softmax of the row's scores, applied to
/// the values that the row may attend to.
pub open spec fn naive_at<S: Scalar>(
    q: Mat<S>,
    k: Mat<S>,
    v: Mat<S>,
    causal: bool,
    i: int,
    t: int,
) -> S {
    mix(
        S::zero_spec(),
        softmax(score_row(q, k, causal, i)),
        v,
        t,
        reach(q.rows as int, causal, i) as nat,
    )
}

/// Softmax of one row, in place.
fn softmax_row<S: Scalar>(row: &mut [S])
    ensures
        final(row)@ == softmax(old(row)@),
{
    let n = row.len();
    let ghost x = row@;
    let mut m = S::neg_infinity();
    let mut j: usize = 0;
    while j < n
        invariant
            j <= n,
            n == row@.len(),
            row@ == x,
            m == max_of(x, j as nat),
        decreases n - j,
    {
        m = m.max(row[j]);
        j += 1;
    }
    let ghost e = exps(x, m);
    let mut sum = S::zero();
    j = 0;
    while j < n
        invariant
            j <= n,
            n == row@.len(),
            n == x.len(),
            e == exps(x, m),
            forall|u: int| 0 <= u < j ==> row@[u] == e[u],
            forall|u: int| j <= u < n ==> row@[u] == x[u],
            sum == sum_of(e, j as nat),
        decreases n - j,
    {
        let y = row[j];
        let z = if y.is_finite() {
            y.sub(m).exp()
        } else {
            S::zero()
        };
        row[j] = z;
        sum = sum.add(z);
        j += 1;
    }
    let inv = S::one().div(sum);
    j = 0;
    while j < n
        invariant
            j <= n,
            n == row@.len(),
            n == e.len(),
            forall|u: int| 0 <= u < j ==> row@[u] == e[u].mul_spec(inv),
            forall|u: int| j <= u < n ==> row@[u] == e[u],
        decreases n - j,
    {
        row[j] = row[j].mul(inv);
        j += 1;
    }
    assert(row@ =~= softmax(x));
}

/// Scores of query row `i` against every key it may attend to, the rest masked.
fn fill_scores<S: Scalar>(row: &mut [S], q: &Mat<S>, k: &Mat<S>, causal: bool, i: usize, scale: S)
    requires
        i < q.rows,
        old(row)@.len() == q.rows,
        q.covers(q.rows as int, q.cols as int),
        k.covers(q.rows as int, q.cols as int),
        scale == scale_spec::<S>(q.cols),
    ensures
        final(row)@ == score_row(*q, *k, causal, i as int),
{
    let n = q.rows;
    let d = q.cols;
    proof {
        lemma_row_bounds(i as int, n as int, d as int);
    }
    let qi = q.row(i);
    let jmax: usize = if causal {
        i + 1
    } else {
        n
    };
    let mut j: usize = 0;
    while j < jmax
        invariant
            j <= jmax <= n,
            n == q.rows,
            d == q.cols,
            d <= k.cols,
            n * k.cols <= k.data@.len(),
            qi@ == q.row_seq(i as int),
            qi@.len() == d,
            scale == scale_spec::<S>(d),
            row@.len() == n,
            forall|u: int| 0 <= u < j ==> row@[u] == score(*q, *k, i as int, u),
        decreases jmax - j,
    {
        proof {
            lemma_row_bounds(j as int, n as int, k.cols as int);
        }
        row[j] = dot(qi, k.row(j), d).mul(scale);
        j += 1;
    }
    // Masked positions stay at -inf so softmax gives them zero weight.
    while j < n
        invariant
            jmax <= j <= n,
            n == q.rows,
            jmax == reach(n as int, causal, i as int),
            row@.len() == n,
            forall|u: int| 0 <= u < jmax ==> row@[u] == score(*q, *k, i as int, u),
            forall|u: int| jmax <= u < j ==> row@[u] == S::neg_infinity_spec(),
        decreases n - j,
    {
        row[j] = S::neg_infinity();
        j += 1;
    }
    assert(row@ =~= score_row(*q, *k, causal, i as int));
}

/// `out += w[0] * v[0] + w[1] * v[1] + ...` over the first `count` rows of `v`.
fn mix_rows<S: Scalar>(out: &mut [S], w: &[S], v: &Mat<S>, count: usize)
    requires
        count <= w@.len(),
        v.covers(count as int, old(out)@.len() as int),
    ensures
        final(out)@.len() == old(out)@.len(),
        forall|t: int|
            0 <= t < old(out)@.len() ==> #[trigger] final(out)@[t] == mix(
                old(out)@[t],
                w@,
                *v,
                t,
                count as nat,
            ),
{
    let d = out.len();
    let ghost start = out@;
    let mut j: usize = 0;
    while j < count
        invariant
            j <= count <= w@.len(),
            count > 0 ==> d <= v.cols,
            count * v.cols <= v.data@.len() || count == 0,
            out@.len() == d,
            start.len() == d,
            forall|t: int| 0 <= t < d ==> #[trigger] out@[t] == mix(start[t], w@, *v, t, j as nat),
        decreases count - j,
    {
        proof {
            lemma_row_bounds(j as int, count as int, v.cols as int);
            lemma_row_at(*v, j as int, count as int);
        }
        let p = w[j];
        let vj = v.row(j);
        let mut t: usize = 0;
        while t < d
            invariant
                t <= d <= vj@.len(),
                out@.len() == d,
                start.len() == d,
                p == w@[j as int],
                forall|u: int| 0 <= u < d ==> #[trigger] vj@[u] == v.at(j as int, u),
                forall|u: int|
                    0 <= u < t ==> #[trigger] out@[u] == mix(start[u], w@, *v, u, (j + 1) as nat),
                forall|u: int|
                    t <= u < d ==> #[trigger] out@[u] == mix(start[u], w@, *v, u, j as nat),
            decreases d - t,
        {
            out[t] = out[t].add(p.mul(vj[t]));
            t += 1;
        }
        j += 1;
    }
}

/// Textbook attention: scores, row-wise softmax, weighted sum of values.
pub fn attention<S: Scalar>(q: &Mat<S>, k: &Mat<S>, v: &Mat<S>, causal: bool) -> (out: Mat<S>)
    requires
        attends(*q, *k, *v),
        q.rows * q.rows <= usize::MAX,
    ensures
        out.wf(),
        out.rows == q.rows,
        out.cols == q.cols,
        forall|i: int, t: int|
            0 <= i < q.rows && 0 <= t < q.cols ==> #[trigger] out.at(i, t) == naive_at(
                *q,
                *k,
                *v,
                causal,
                i,
                t,
            ),
{
    let n = q.rows;
    let d = q.cols;
    let scale = scale::<S>(d);

    // 1) scores = Q @ K^T / sqrt(d)   -- full n x n matrix in memory.
    let mut scores = Mat::<S>::zeros(n, n);
    let mut i: usize = 0;
    while i < n
        invariant
            i <= n,
            n == q.rows,
            d == q.cols,
            attends(*q, *k, *v),
            scale == scale_spec::<S>(d),
            scores.wf(),
            scores.rows == n,
            scores.cols == n,
            forall|r: int|
                0 <= r < i ==> #[trigger] scores.row_seq(r) == score_row(*q, *k, causal, r),
        decreases n - i,
    {
        let ghost before = scores;
        proof {
            lemma_row_bounds(i as int, n as int, n as int);
        }
        fill_scores(scores.row_mut(i), q, k, causal, i, scale);
        proof {
            lemma_splice_rows(before, scores, i as int, n as int, score_row(*q, *k, causal, i as int));
        }
        i += 1;
    }

    // 2) row-wise softmax, in place.
    i = 0;
    while i < n
        invariant
            i <= n,
            n == q.rows,
            scores.wf(),
            scores.rows == n,
            scores.cols == n,
            forall|r: int|
                0 <= r < i ==> #[trigger] scores.row_seq(r) == softmax(score_row(*q, *k, causal, r)),
            forall|r: int|
                i <= r < n ==> #[trigger] scores.row_seq(r) == score_row(*q, *k, causal, r),
        decreases n - i,
    {
        let ghost before = scores;
        proof {
            lemma_row_bounds(i as int, n as int, n as int);
        }
        softmax_row(scores.row_mut(i));
        proof {
            lemma_splice_rows(
                before,
                scores,
                i as int,
                n as int,
                softmax(score_row(*q, *k, causal, i as int)),
            );
        }
        i += 1;
    }

    // 3) out = probs @ V
    let mut out = Mat::<S>::zeros(n, d);
    proof {
        assert forall|r: int| 0 <= r < n implies #[trigger] out.row_seq(r) =~= Seq::new(
            d as nat,
            |t: int| S::zero_spec(),
        ) by {
            lemma_row_bounds(r, n as int, d as int);
        }
    }
    i = 0;
    while i < n
        invariant
            i <= n,
            n == q.rows,
            d == q.cols,
            attends(*q, *k, *v),
            scores.wf(),
            scores.rows == n,
            scores.cols == n,
            forall|r: int|
                0 <= r < n ==> #[trigger] scores.row_seq(r) == softmax(score_row(*q, *k, causal, r)),
            out.wf(),
            out.rows == n,
            out.cols == d,
            forall|r: int|
                i <= r < n ==> #[trigger] out.row_seq(r) == Seq::new(
                    d as nat,
                    |t: int| S::zero_spec(),
                ),
            forall|r: int|
                0 <= r < i ==> #[trigger] out.row_seq(r) == Seq::new(
                    d as nat,
                    |t: int| naive_at(*q, *k, *v, causal, r, t),
                ),
        decreases n - i,
    {
        let ghost before = out;
        proof {
            lemma_row_bounds(i as int, n as int, n as int);
            lemma_row_bounds(i as int, n as int, d as int);
        }
        let jmax: usize = if causal {
            i + 1
        } else {
            n
        };
        proof {
            assert(jmax * v.cols <= n * v.cols) by (nonlinear_arith)
                requires
                    jmax <= n,
                    0 <= v.cols,
            ;
        }
        let ghost part = Seq::new(d as nat, |t: int| naive_at(*q, *k, *v, causal, i as int, t));
        let oi = out.row_mut(i);
        mix_rows(oi, scores.row(i), v, jmax);
        assert(oi@ =~= part);
        proof {
            lemma_splice_rows(before, out, i as int, n as int, part);
        }
        i += 1;
    }
    proof {
        assert forall|r: int, t: int| 0 <= r < n && 0 <= t < d implies #[trigger] out.at(r, t)
            == naive_at(*q, *k, *v, causal, r, t) by {
            lemma_row_at(out, r, n as int);
            assert(out.row_seq(r)[t] == naive_at(*q, *k, *v, causal, r, t));
        }
    }
    out
}

} // verus!
