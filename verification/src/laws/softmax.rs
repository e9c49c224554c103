//! The online softmax is exact.
//!
//! Rescaling history by `exp(m_old - m_new)` keeps the running state equal to
//! what a full-row softmax over the keys seen so far would give, so the tiled
//! kernel and the naive one agree, whatever the tile size and whatever the mask.
use crate::laws::maxima::{
    is_largest, lemma_largest_joins, lemma_largest_unique, lemma_max_is_largest,
    lemma_top_is_largest,
};
use crate::laws::sums::{
    finite_upto, lemma_dot_finite, lemma_mix_finite, lemma_mix_scales, lemma_sum_finite,
    lemma_sum_same, lemma_sum_scales, lemma_sum_splits, lemma_sum_zeros,
};
use crate::mat::{lemma_row_at, Mat};
use crate::naive::naive_at;
use crate::scalar::{Exact, Scalar};
use crate::score::{
    attends, dot_spec, exps, max_of, mix, reach, scale_spec, score, score_row, softmax, sum_of,
};
use crate::tiled::{
    absorbed_at, block_scores, correction_spec, fresh, row_after, scaled, step, tile_end, tiled_at,
    tiles, top_of, weights, Portable, RowState, TileOps,
};
use vstd::prelude::*;

verus! {

/// The first `d` elements of the first `n` rows are finite.
pub open spec fn finite_mat<S: Scalar>(m: Mat<S>, n: int, d: int) -> bool {
    forall|i: int, t: int|
        0 <= i < n && 0 <= t < d ==> (#[trigger] m.at(i, t)).is_finite_spec()
}

/// Every number that attention starts from is finite.
pub open spec fn finite_inputs<S: Scalar>(q: Mat<S>, k: Mat<S>, v: Mat<S>) -> bool {
    &&& finite_mat(q, q.rows as int, q.cols as int)
    &&& finite_mat(k, q.rows as int, q.cols as int)
    &&& finite_mat(v, q.rows as int, q.cols as int)
    &&& scale_spec::<S>(q.cols).is_finite_spec()
}

/// The sum that row `i` of the softmax divides by.
pub open spec fn normalizer<S: Scalar>(q: Mat<S>, k: Mat<S>, causal: bool, i: int) -> S {
    let x = score_row(q, k, causal, i);
    sum_of(exps(x, max_of(x, x.len())), x.len())
}

/// On finite operands, a path's operations are the textbook ones, apart from its
/// exponential.
pub open spec fn textbook<S: Scalar, P: TileOps<S>>() -> bool {
    &&& forall|a: Seq<S>, b: Seq<S>, bj: int, valid: int|
        finite_upto(a, a.len() as int) && a.len() <= b.len() && finite_upto(b, a.len() as int)
            ==> #[trigger] P::dot_at(a, b, a.len(), bj, valid) == dot_spec(a, b, a.len())
    &&& forall|l: S, p: Seq<S>|
        l.is_finite_spec() && finite_upto(p, p.len() as int) ==> #[trigger] P::gather_spec(l, p)
            == l.add_spec(sum_of(p, p.len()))
    &&& forall|o: S, p: S, v: S, t: int, d: int|
        o.is_finite_spec() && p.is_finite_spec() && v.is_finite_spec() ==> #[trigger] P::axpy_at(
            o,
            p,
            v,
            t,
            d,
        ) == o.add_spec(p.mul_spec(v))
}

/// The weights `exp(x - m)` of a row with scores `x`.
pub open spec fn row_weights<S: Scalar>(x: Seq<S>, m: S) -> Seq<S> {
    Seq::new(x.len(), |j: int| x[j].sub_spec(m).exp_spec())
}

/// The running softmax state is what a full softmax over the first `c` keys has
/// before it normalizes: the largest score, the sum of `exp(x - m)`, and the
/// weighted sum of the values.
pub open spec fn is_prefix_softmax<S: Scalar>(
    st: RowState<S>,
    x: Seq<S>,
    v: Mat<S>,
    d: nat,
    c: nat,
) -> bool {
    if c == 0 {
        st == fresh::<S>(d)
    } else {
        &&& is_largest(st.m, x, c as int)
        &&& st.l == sum_of(row_weights(x, st.m), c)
        &&& st.o.len() == d
        &&& forall|t: int|
            0 <= t < d ==> #[trigger] st.o[t] == mix(
                S::zero_spec(),
                row_weights(x, st.m),
                v,
                t,
                c,
            )
    }
}

/// One past the last score of the tile that score `j` lies in.
pub open spec fn tile_stop(n: int, block: int, j: int) -> int {
    if j / block * block + block < n {
        j / block * block + block
    } else {
        n
    }
}

/// The running maximum at the time that score `j` is exponentiated: the largest
/// score up to the end of its tile.
pub open spec fn tile_max<S: Scalar>(x: Seq<S>, block: int, j: int) -> S {
    max_of(x, tile_stop(x.len() as int, block, j) as nat)
}

/// What a path exponentiates for score `j`.
pub open spec fn tile_argument<S: Scalar>(x: Seq<S>, block: int, j: int) -> S {
    x[j].sub_spec(tile_max(x, block, j))
}

/// A path's exponential of it.
pub open spec fn tile_exp<S: Scalar, P: TileOps<S>>(x: Seq<S>, block: int, j: int) -> S {
    let start = j / block * block;
    P::exp_at(
        tile_argument(x, block, j),
        j - start,
        tile_stop(x.len() as int, block, j) - start,
    )
}

/// The weights that a path gives to a row with scores `x`, relative to `m`: what
/// it computes in each tile, corrected by how far the maximum moved since.
pub open spec fn path_weights<S: Scalar, P: TileOps<S>>(x: Seq<S>, block: int, m: S) -> Seq<S> {
    Seq::new(
        x.len(),
        |j: int|
            tile_exp::<S, P>(x, block, j).mul_spec(tile_max(x, block, j).sub_spec(m).exp_spec()),
    )
}

/// A path's exponentials of a row are finite.
pub open spec fn weighs_finitely<S: Scalar, P: TileOps<S>>(x: Seq<S>, block: int) -> bool {
    forall|j: int| 0 <= j < x.len() ==> (#[trigger] tile_exp::<S, P>(x, block, j)).is_finite_spec()
}

/// A path's exponentials of a row are the true ones.
pub open spec fn exponentiates<S: Scalar, P: TileOps<S>>(x: Seq<S>, block: int) -> bool {
    forall|j: int|
        0 <= j < x.len() ==> #[trigger] tile_exp::<S, P>(x, block, j) == tile_argument(
            x,
            block,
            j,
        ).exp_spec()
}

/// The running state over the first `c` keys: the largest score, and the sums of
/// the path's weights and of the weighted values.
pub open spec fn is_prefix_mix<S: Scalar, P: TileOps<S>>(
    st: RowState<S>,
    x: Seq<S>,
    v: Mat<S>,
    d: nat,
    block: int,
    c: nat,
) -> bool {
    if c == 0 {
        st == fresh::<S>(d)
    } else {
        let w = path_weights::<S, P>(x, block, st.m);
        &&& is_largest(st.m, x, c as int)
        &&& st.l == sum_of(w, c)
        &&& st.o.len() == d
        &&& forall|t: int|
            0 <= t < d ==> #[trigger] st.o[t] == mix(S::zero_spec(), w, v, t, c)
    }
}

/// The maximum of a tile is the largest score up to its end.
pub(crate) proof fn lemma_tile_max<S: Exact>(x: Seq<S>, block: int, j: int)
    requires
        block > 0,
        0 <= j < x.len(),
        finite_upto(x, x.len() as int),
    ensures
        0 <= j / block * block <= j < tile_stop(x.len() as int, block, j) <= x.len(),
        is_largest(tile_max(x, block, j), x, tile_stop(x.len() as int, block, j)),
        tile_argument(x, block, j).is_finite_spec(),
{
    vstd::arithmetic::div_mod::lemma_fundamental_div_mod(j, block);
    vstd::arithmetic::mul::lemma_mul_is_commutative(block, j / block);
    vstd::arithmetic::div_mod::lemma_div_pos_is_pos(j, block);
    assert(0 <= j / block * block) by (nonlinear_arith)
        requires
            0 <= j / block,
            block > 0,
    ;
    lemma_max_is_largest(x, tile_stop(x.len() as int, block, j) as nat);
    S::sub_is_finite(x[j], tile_max(x, block, j));
}

/// A path's weights are finite where its exponentials are.
pub(crate) proof fn lemma_path_weights_finite<S: Exact, P: TileOps<S>>(x: Seq<S>, block: int, m: S, k: int)
    requires
        block > 0,
        k <= x.len(),
        finite_upto(x, x.len() as int),
        weighs_finitely::<S, P>(x, block),
        m.is_finite_spec(),
    ensures
        finite_upto(path_weights::<S, P>(x, block, m), k),
{
    assert forall|j: int| 0 <= j < k implies (#[trigger] path_weights::<S, P>(
        x,
        block,
        m,
    )[j]).is_finite_spec() by {
        lemma_tile_max(x, block, j);
        let top = tile_max(x, block, j);
        S::sub_is_finite(top, m);
        S::exp_is_finite(top.sub_spec(m));
        assert(tile_exp::<S, P>(x, block, j).is_finite_spec());
        S::mul_is_finite(tile_exp::<S, P>(x, block, j), top.sub_spec(m).exp_spec());
    }
}

/// Moving the maximum from `a` to `b` multiplies every weight by `exp(a - b)`.
proof fn lemma_path_weights_move<S: Exact, P: TileOps<S>>(
    x: Seq<S>,
    block: int,
    a: S,
    b: S,
    k: int,
)
    requires
        block > 0,
        k <= x.len(),
        finite_upto(x, x.len() as int),
        weighs_finitely::<S, P>(x, block),
        a.is_finite_spec(),
        b.is_finite_spec(),
    ensures
        a.sub_spec(b).exp_spec().is_finite_spec(),
        forall|j: int|
            0 <= j < k ==> #[trigger] path_weights::<S, P>(x, block, b)[j] == path_weights::<
                S,
                P,
            >(x, block, a)[j].mul_spec(a.sub_spec(b).exp_spec()),
{
    S::sub_is_finite(a, b);
    S::exp_is_finite(a.sub_spec(b));
    assert forall|j: int| 0 <= j < k implies #[trigger] path_weights::<S, P>(x, block, b)[j]
        == path_weights::<S, P>(x, block, a)[j].mul_spec(a.sub_spec(b).exp_spec()) by {
        lemma_tile_max(x, block, j);
        let top = tile_max(x, block, j);
        let e = tile_exp::<S, P>(x, block, j);
        assert(e.is_finite_spec());
        S::exp_chains(top, a, b);
        S::sub_is_finite(top, a);
        S::exp_is_finite(top.sub_spec(a));
        S::mul_associates(e, top.sub_spec(a).exp_spec(), a.sub_spec(b).exp_spec());
    }
}

/// Weights relative to a finite maximum are finite.
pub(crate) proof fn lemma_weights_finite<S: Exact>(x: Seq<S>, m: S, k: int)
    requires
        k <= x.len(),
        finite_upto(x, k),
        m.is_finite_spec(),
    ensures
        finite_upto(row_weights(x, m), k),
{
    assert forall|j: int| 0 <= j < k implies (#[trigger] row_weights(x, m)[j]).is_finite_spec() by {
        S::sub_is_finite(x[j], m);
        S::exp_is_finite(x[j].sub_spec(m));
    }
}

/// Moving the maximum from `a` to `b` multiplies every weight by `exp(a - b)`.
proof fn lemma_weights_move<S: Exact>(x: Seq<S>, a: S, b: S, k: int)
    requires
        k <= x.len(),
        finite_upto(x, k),
        a.is_finite_spec(),
        b.is_finite_spec(),
    ensures
        a.sub_spec(b).exp_spec().is_finite_spec(),
        forall|j: int|
            0 <= j < k ==> #[trigger] row_weights(x, b)[j] == row_weights(x, a)[j].mul_spec(
                a.sub_spec(b).exp_spec(),
            ),
{
    S::sub_is_finite(a, b);
    S::exp_is_finite(a.sub_spec(b));
    assert forall|j: int| 0 <= j < k implies #[trigger] row_weights(x, b)[j] == row_weights(
        x,
        a,
    )[j].mul_spec(a.sub_spec(b).exp_spec()) by {
        S::exp_chains(x[j], a, b);
    }
}

/// The output row after a tile: the weighted sum continues where history,
/// rescaled, left off.
proof fn lemma_absorbed<S: Exact, P: TileOps<S>>(
    o: S,
    p: Seq<S>,
    w: Seq<S>,
    v: Mat<S>,
    c: nat,
    t: int,
    d: int,
    k: nat,
)
    requires
        textbook::<S, P>(),
        finite_upto(w, (c + k) as int),
        forall|j: int| 0 <= j < k ==> #[trigger] p[j] == w[c + j],
        forall|j: int| 0 <= j < c + k ==> (#[trigger] v.at(j, t)).is_finite_spec(),
        o == mix(S::zero_spec(), w, v, t, c),
    ensures
        absorbed_at::<S, P>(o, p, v, c as int, t, d, k) == mix(S::zero_spec(), w, v, t, c + k),
    decreases k,
{
    if k > 0 {
        lemma_absorbed::<S, P>(o, p, w, v, c, t, d, (k - 1) as nat);
        lemma_mix_finite(w, v, t, (c + k - 1) as nat);
        assert(p[k - 1] == w[c + (k - 1)]);
        assert(v.at(c + k - 1, t).is_finite_spec());
    }
}

/// Folding in the next tile keeps the state a prefix mix.
proof fn lemma_step<S: Exact, P: TileOps<S>>(
    st: RowState<S>,
    x: Seq<S>,
    tail: Seq<S>,
    v: Mat<S>,
    d: nat,
    block: int,
    b: nat,
    c: nat,
    k: nat,
)
    requires
        textbook::<S, P>(),
        block > 0,
        c == b * block,
        0 < k <= block,
        c + k <= x.len(),
        k == block || c + k == x.len(),
        tail.len() == k,
        finite_upto(x, x.len() as int),
        weighs_finitely::<S, P>(x, block),
        forall|j: int| 0 <= j < k ==> #[trigger] tail[j] == x[c + j],
        finite_mat(v, (c + k) as int, d as int),
        is_prefix_mix::<S, P>(st, x, v, d, block, c),
    ensures
        is_prefix_mix::<S, P>(step::<S, P>(st, tail, v, c as int), x, v, d, block, c + k),
{
    assert(finite_upto(tail, k as int)) by {
        assert forall|j: int| 0 <= j < k implies (#[trigger] tail[j]).is_finite_spec() by {
            assert(tail[j] == x[c + j]);
        }
    }
    lemma_top_is_largest(tail, k);
    let top = top_of(tail, k);
    let m_new = st.m.max_spec(top);
    S::neg_infinity_is_not_finite();
    S::zero_is_finite();
    S::one_is_finite();
    if c == 0 {
        S::neg_infinity_is_least(top);
        S::max_is_larger(S::neg_infinity_spec(), top);
        let j = choose|j: int| 0 <= j < k && tail[j] == top;
        assert(x[c + j] == top);
        assert forall|u: int| 0 <= u < k implies !(#[trigger] x[u]).greater_than_spec(top) by {
            assert(tail[u] == x[c + u]);
        }
        S::equals_is_equality(S::neg_infinity_spec(), S::neg_infinity_spec());
    } else {
        lemma_largest_joins(st.m, top, x, tail, c as int, k as int);
        S::equals_is_equality(st.m, S::neg_infinity_spec());
    }
    assert(is_largest(m_new, x, (c + k) as int));

    let cc = correction_spec(st.m, m_new);
    let w = path_weights::<S, P>(x, block, m_new);
    lemma_path_weights_finite::<S, P>(x, block, m_new, (c + k) as int);

    // History, rescaled, is history relative to the new maximum.
    let past = path_weights::<S, P>(x, block, st.m);
    if c > 0 {
        lemma_path_weights_move::<S, P>(x, block, st.m, m_new, c as int);
        lemma_path_weights_finite::<S, P>(x, block, st.m, c as int);
        lemma_sum_scales(past, w, cc, c);
    } else {
        S::mul_zero(S::zero_spec());
    }
    assert(cc.is_finite_spec());
    assert(st.l.mul_spec(cc) == sum_of(w, c));
    let o = if cc.equals_spec(S::one_spec()) {
        st.o
    } else {
        scaled(st.o, cc)
    };
    assert forall|t: int| 0 <= t < d implies #[trigger] o[t] == mix(S::zero_spec(), w, v, t, c) by {
        if c > 0 {
            lemma_mix_scales(past, w, v, t, cc, c);
            lemma_mix_finite(past, v, t, c);
            S::equals_is_equality(cc, S::one_spec());
            S::mul_one(st.o[t]);
        } else {
            S::mul_zero(S::zero_spec());
        }
    }

    // The tile's weights are the row's weights from `c` on.
    let p = weights::<S, P>(tail, m_new);
    assert forall|j: int| 0 <= j < k implies #[trigger] p[j] == w[c + j] by {
        assert(tail[j] == x[c + j]);
        vstd::arithmetic::div_mod::lemma_fundamental_div_mod_converse(c + j, block, b as int, j);
        assert((c + j) / block == b);
        assert(tile_stop(x.len() as int, block, c + j) == c + k);
        lemma_max_is_largest(x, c + k);
        lemma_largest_unique(m_new, max_of(x, c + k), x, (c + k) as int);
        S::exp_of_nothing(m_new);
        assert(tile_exp::<S, P>(x, block, c + j).is_finite_spec());
        S::mul_one(tile_exp::<S, P>(x, block, c + j));
    }
    assert(finite_upto(p, k as int)) by {
        assert forall|j: int| 0 <= j < k implies (#[trigger] p[j]).is_finite_spec() by {
            assert(p[j] == w[c + j]);
        }
    }
    lemma_sum_finite(w, c);
    lemma_sum_splits(w, p, c, k);
    let next = step::<S, P>(st, tail, v, c as int);
    assert(next.m == m_new);
    assert(next.l == sum_of(w, c + k));
    assert forall|t: int| 0 <= t < d implies #[trigger] next.o[t] == mix(
        S::zero_spec(),
        w,
        v,
        t,
        c + k,
    ) by {
        assert(o[t] == mix(S::zero_spec(), w, v, t, c));
        lemma_absorbed::<S, P>(o[t], p, w, v, c, t, d as int, k);
    }
}

/// The scores of query `i` against the keys it may attend to.
pub open spec fn live_scores<S: Scalar>(q: Mat<S>, k: Mat<S>, causal: bool, i: int) -> Seq<S> {
    Seq::new(reach(q.rows as int, causal, i) as nat, |j: int| score(q, k, i, j))
}

/// Finite inputs have finite scores.
pub(crate) proof fn lemma_scores_finite<S: Exact>(q: Mat<S>, k: Mat<S>, v: Mat<S>, causal: bool, i: int)
    requires
        attends(q, k, v),
        finite_inputs(q, k, v),
        0 <= i < q.rows,
    ensures
        finite_upto(live_scores(q, k, causal, i), reach(q.rows as int, causal, i)),
{
    let x = live_scores(q, k, causal, i);
    assert forall|j: int| 0 <= j < reach(q.rows as int, causal, i) implies (
    #[trigger] x[j]).is_finite_spec() by {
        lemma_rows_finite(q, k, v, i, j);
        lemma_dot_finite(q.row_seq(i), k.row_seq(j), q.cols as nat);
        S::mul_is_finite(
            dot_spec(q.row_seq(i), k.row_seq(j), q.cols as nat),
            scale_spec::<S>(q.cols),
        );
    }
}

/// A finite query row and a finite key row.
proof fn lemma_rows_finite<S: Scalar>(q: Mat<S>, k: Mat<S>, v: Mat<S>, i: int, j: int)
    requires
        attends(q, k, v),
        finite_inputs(q, k, v),
        0 <= i < q.rows,
        0 <= j < q.rows,
    ensures
        q.row_seq(i).len() == q.cols,
        q.cols <= k.row_seq(j).len(),
        finite_upto(q.row_seq(i), q.cols as int),
        finite_upto(k.row_seq(j), q.cols as int),
{
    lemma_row_at(q, i, q.rows as int);
    lemma_row_at(k, j, q.rows as int);
    assert forall|t: int| 0 <= t < q.cols implies (#[trigger] q.row_seq(i)[t]).is_finite_spec() by {
        assert(q.row_seq(i)[t] == q.at(i, t));
    }
    assert forall|t: int| 0 <= t < q.cols implies (#[trigger] k.row_seq(j)[t]).is_finite_spec() by {
        assert(k.row_seq(j)[t] == k.at(j, t));
    }
}

/// How many of the keys that a row may attend to lie in its first `b` tiles.
pub open spec fn keys_seen(n: int, causal: bool, block: int, i: int, b: nat) -> nat {
    if b * block < reach(n, causal, i) {
        (b * block) as nat
    } else {
        reach(n, causal, i) as nat
    }
}

/// After any number of tiles, the running state of a row is the largest score
/// seen and the sums of the path's weights and weighted values: one multiply per
/// tile repairs the whole history.
pub proof fn running_state_is_prefix_mix<S: Exact, P: TileOps<S>>(
    q: Mat<S>,
    k: Mat<S>,
    v: Mat<S>,
    causal: bool,
    block: int,
    i: int,
    b: nat,
)
    requires
        textbook::<S, P>(),
        attends(q, k, v),
        finite_inputs(q, k, v),
        block > 0,
        0 <= i < q.rows,
        weighs_finitely::<S, P>(live_scores(q, k, causal, i), block),
    ensures
        is_prefix_mix::<S, P>(
            row_after::<S, P>(q, k, v, causal, block, i, b),
            live_scores(q, k, causal, i),
            v,
            q.cols as nat,
            block,
            keys_seen(q.rows as int, causal, block, i, b),
        ),
    decreases b,
{
    let n = q.rows as int;
    let r = reach(n, causal, i);
    let x = live_scores(q, k, causal, i);
    if b == 0 {
        assert(0 * block == 0) by (nonlinear_arith);
    } else {
        let a = (b - 1) as nat;
        running_state_is_prefix_mix::<S, P>(q, k, v, causal, block, i, a);
        let before = row_after::<S, P>(q, k, v, causal, block, i, a);
        let kv0 = a * block;
        let jhi = tile_end(n, causal, block, i, a as int);
        assert((a + 1) * block == a * block + block) by (nonlinear_arith);
        assert(0 <= a * block) by (nonlinear_arith)
            requires
                block > 0,
        ;
        if jhi > kv0 {
            let c = keys_seen(n, causal, block, i, a);
            let tail = block_scores::<S, P>(q.row_seq(i), k, kv0, jhi, scale_spec(q.cols));
            assert(c == kv0);
            lemma_scores_finite(q, k, v, causal, i);
            assert forall|j: int| 0 <= j < jhi - kv0 implies #[trigger] tail[j] == x[c + j] by {
                lemma_rows_finite(q, k, v, i, kv0 + j);
                assert(P::dot_at(
                    q.row_seq(i),
                    k.row_seq(kv0 + j),
                    q.row_seq(i).len(),
                    j,
                    jhi - kv0,
                ) == dot_spec(q.row_seq(i), k.row_seq(kv0 + j), q.row_seq(i).len()));
            }
            lemma_step::<S, P>(
                before,
                x,
                tail,
                v,
                q.cols as nat,
                block,
                a,
                c,
                (jhi - kv0) as nat,
            );
            assert(c + (jhi - kv0) == keys_seen(n, causal, block, i, b));
        }
    }
}

/// Where a path's exponentials of a row are the true ones, its weights are
/// `exp(x - m)`: how the row was cut into tiles no longer shows.
proof fn lemma_true_weights<S: Exact, P: TileOps<S>>(x: Seq<S>, block: int, m: S)
    requires
        block > 0,
        finite_upto(x, x.len() as int),
        exponentiates::<S, P>(x, block),
        m.is_finite_spec(),
    ensures
        weighs_finitely::<S, P>(x, block),
        path_weights::<S, P>(x, block, m) == row_weights(x, m),
{
    assert forall|j: int| 0 <= j < x.len() implies (#[trigger] tile_exp::<S, P>(
        x,
        block,
        j,
    )).is_finite_spec() by {
        lemma_tile_max(x, block, j);
        S::exp_is_finite(tile_argument(x, block, j));
    }
    assert forall|j: int| 0 <= j < x.len() implies path_weights::<S, P>(x, block, m)[j]
        == row_weights(x, m)[j] by {
        lemma_tile_max(x, block, j);
        assert(tile_exp::<S, P>(x, block, j) == tile_argument(x, block, j).exp_spec());
        S::exp_chains(x[j], tile_max(x, block, j), m);
    }
    assert(path_weights::<S, P>(x, block, m) =~= row_weights(x, m));
}

/// The online softmax is exact: after any number of tiles, the running state of
/// a row is precisely what a softmax over the keys seen so far would have before
/// normalizing. It takes that the path's exponentials of the row are the true
/// ones.
pub proof fn running_state_is_prefix_softmax<S: Exact, P: TileOps<S>>(
    q: Mat<S>,
    k: Mat<S>,
    v: Mat<S>,
    causal: bool,
    block: int,
    i: int,
    b: nat,
)
    requires
        textbook::<S, P>(),
        attends(q, k, v),
        finite_inputs(q, k, v),
        block > 0,
        0 <= i < q.rows,
        exponentiates::<S, P>(live_scores(q, k, causal, i), block),
    ensures
        is_prefix_softmax(
            row_after::<S, P>(q, k, v, causal, block, i, b),
            live_scores(q, k, causal, i),
            v,
            q.cols as nat,
            keys_seen(q.rows as int, causal, block, i, b),
        ),
{
    let x = live_scores(q, k, causal, i);
    lemma_scores_finite(q, k, v, causal, i);
    S::zero_is_finite();
    lemma_true_weights::<S, P>(x, block, S::zero_spec());
    running_state_is_prefix_mix::<S, P>(q, k, v, causal, block, i, b);
    let st = row_after::<S, P>(q, k, v, causal, block, i, b);
    if keys_seen(q.rows as int, causal, block, i, b) > 0 {
        lemma_true_weights::<S, P>(x, block, st.m);
    }
}

/// The average of the values with the given weights: their weighted sum over the
/// sum of the weights.
pub open spec fn mean<S: Scalar>(w: Seq<S>, v: Mat<S>, t: int, k: nat) -> S {
    mix(S::zero_spec(), w, v, t, k).mul_spec(S::one_spec().div_spec(sum_of(w, k)))
}

/// The weights that a path gives to the keys of row `i`, relative to the row's
/// largest score.
pub open spec fn row_path_weights<S: Scalar, P: TileOps<S>>(
    q: Mat<S>,
    k: Mat<S>,
    causal: bool,
    block: int,
    i: int,
) -> Seq<S> {
    let x = live_scores(q, k, causal, i);
    path_weights::<S, P>(x, block, max_of(x, x.len()))
}

/// On any path, whatever its exponential, the output is an average of the values
/// that the row may attend to: each weighted by what the path computed for it in
/// its tile, corrected by how far the maximum moved since.
pub proof fn tiled_output_is_a_mean<S: Exact, P: TileOps<S>>(
    q: Mat<S>,
    k: Mat<S>,
    v: Mat<S>,
    causal: bool,
    block: int,
    i: int,
    t: int,
)
    requires
        textbook::<S, P>(),
        attends(q, k, v),
        finite_inputs(q, k, v),
        block > 0,
        0 <= i < q.rows,
        0 <= t < q.cols,
        weighs_finitely::<S, P>(live_scores(q, k, causal, i), block),
        sum_of(
            row_path_weights::<S, P>(q, k, causal, block, i),
            reach(q.rows as int, causal, i) as nat,
        ) != S::zero_spec(),
    ensures
        tiled_at::<S, P>(q, k, v, causal, block, i, t) == mean(
            row_path_weights::<S, P>(q, k, causal, block, i),
            v,
            t,
            reach(q.rows as int, causal, i) as nat,
        ),
{
    let n = q.rows as int;
    let r = reach(n, causal, i);
    let b = tiles(n, block);
    let x = live_scores(q, k, causal, i);
    running_state_is_prefix_mix::<S, P>(q, k, v, causal, block, i, b);
    lemma_tiles_cover(n, block);
    assert(keys_seen(n, causal, block, i, b) == r);
    let st = row_after::<S, P>(q, k, v, causal, block, i, b);
    lemma_scores_finite(q, k, v, causal, i);
    let m = max_of(x, r as nat);
    lemma_max_is_largest(x, r as nat);
    lemma_largest_unique(st.m, m, x, r);
    let w = path_weights::<S, P>(x, block, m);
    lemma_path_weights_finite::<S, P>(x, block, m, r);
    lemma_sum_finite(w, r as nat);
    S::zero_is_finite();
    S::equals_is_equality(st.l, S::zero_spec());
    assert(st.o[t] == mix(S::zero_spec(), w, v, t, r as nat));
}

/// The normalizer is the sum of the weights of the live scores: masked entries
/// add nothing.
pub(crate) proof fn lemma_normalizer<S: Exact>(
    q: Mat<S>,
    k: Mat<S>,
    v: Mat<S>,
    causal: bool,
    i: int,
)
    requires
        attends(q, k, v),
        finite_inputs(q, k, v),
        0 <= i < q.rows,
    ensures
        ({
            let r = reach(q.rows as int, causal, i);
            let x = live_scores(q, k, causal, i);
            let row = score_row(q, k, causal, i);
            let m = max_of(x, r as nat);
            let w = row_weights(x, m);
            &&& is_largest(m, x, r)
            &&& max_of(row, row.len()) == m
            &&& finite_upto(w, r)
            &&& forall|j: int| 0 <= j < r ==> #[trigger] exps(row, m)[j] == w[j]
            &&& forall|j: int|
                r <= j < q.rows ==> #[trigger] exps(row, m)[j] == S::zero_spec()
            &&& normalizer(q, k, causal, i) == sum_of(w, r as nat)
        }),
{
    let n = q.rows as nat;
    let r = reach(q.rows as int, causal, i) as nat;
    let x = live_scores(q, k, causal, i);
    let row = score_row(q, k, causal, i);
    lemma_scores_finite(q, k, v, causal, i);
    lemma_max_is_largest(x, r);
    lemma_masked_max(row, x, r, n);
    let m = max_of(x, r);
    let w = row_weights(x, m);
    let e = exps(row, m);
    S::neg_infinity_is_not_finite();
    assert forall|j: int| 0 <= j < r implies #[trigger] e[j] == w[j] by {
        assert(x[j].is_finite_spec());
    }
    assert forall|j: int| r <= j < n implies #[trigger] e[j] == S::zero_spec() by {}
    lemma_weights_finite(x, m, r as int);
    assert(finite_upto(e, r as int)) by {
        assert forall|j: int| 0 <= j < r implies (#[trigger] e[j]).is_finite_spec() by {
            assert(e[j] == w[j]);
        }
    }
    lemma_sum_zeros(e, r, n);
    lemma_sum_same(e, w, r);
}

/// The naive kernel, written over the live scores alone: masked entries add
/// nothing, and the division can wait until the end.
pub(crate) proof fn lemma_naive<S: Exact>(
    q: Mat<S>,
    k: Mat<S>,
    v: Mat<S>,
    causal: bool,
    i: int,
    t: int,
)
    requires
        attends(q, k, v),
        finite_inputs(q, k, v),
        0 <= i < q.rows,
        0 <= t < q.cols,
        normalizer(q, k, causal, i) != S::zero_spec(),
    ensures
        ({
            let r = reach(q.rows as int, causal, i);
            let x = live_scores(q, k, causal, i);
            let m = max_of(x, r as nat);
            let w = row_weights(x, m);
            &&& is_largest(m, x, r)
            &&& normalizer(q, k, causal, i) == sum_of(w, r as nat)
            &&& naive_at(q, k, v, causal, i, t) == mean(w, v, t, r as nat)
        }),
{
    let r = reach(q.rows as int, causal, i) as nat;
    let x = live_scores(q, k, causal, i);
    let row = score_row(q, k, causal, i);
    lemma_normalizer(q, k, v, causal, i);
    let m = max_of(x, r);
    let w = row_weights(x, m);
    lemma_sum_finite(w, r);
    let inv = S::one_spec().div_spec(sum_of(w, r));
    S::reciprocal_is_finite(sum_of(w, r));
    assert forall|j: int| 0 <= j < r implies #[trigger] softmax(row)[j] == w[j].mul_spec(inv) by {
        assert(exps(row, m)[j] == w[j]);
    }
    lemma_mix_scales(w, softmax(row), v, t, inv, r);
}

/// Masked entries do not move the row maximum.
proof fn lemma_masked_max<S: Exact>(row: Seq<S>, x: Seq<S>, r: nat, n: nat)
    requires
        0 < r <= n,
        r <= x.len(),
        finite_upto(x, r as int),
        forall|j: int| 0 <= j < r ==> #[trigger] row[j] == x[j],
        forall|j: int| r <= j < n ==> #[trigger] row[j] == S::neg_infinity_spec(),
    ensures
        max_of(row, n) == max_of(x, r),
    decreases n,
{
    if r < n {
        lemma_masked_max(row, x, r, (n - 1) as nat);
        lemma_max_is_largest(x, r);
        S::neg_infinity_is_least(max_of(x, r));
        S::max_is_larger(max_of(x, r), S::neg_infinity_spec());
        assert(row[n - 1] == S::neg_infinity_spec());
    } else {
        lemma_max_same(row, x, r);
    }
}

/// A maximum depends only on the elements it ranges over.
pub(crate) proof fn lemma_max_same<S: Scalar>(x: Seq<S>, y: Seq<S>, k: nat)
    requires
        forall|j: int| 0 <= j < k ==> #[trigger] x[j] == y[j],
    ensures
        max_of(x, k) == max_of(y, k),
    decreases k,
{
    if k > 0 {
        lemma_max_same(x, y, (k - 1) as nat);
    }
}

/// The tiled kernel and the naive one agree exactly, on any path whose operations
/// are the textbook ones and whose exponentials of the row are the true ones.
pub proof fn tiling_is_exact<S: Exact, P: TileOps<S>>(
    q: Mat<S>,
    k: Mat<S>,
    v: Mat<S>,
    causal: bool,
    block: int,
    i: int,
    t: int,
)
    requires
        textbook::<S, P>(),
        attends(q, k, v),
        finite_inputs(q, k, v),
        block > 0,
        0 <= i < q.rows,
        0 <= t < q.cols,
        exponentiates::<S, P>(live_scores(q, k, causal, i), block),
        normalizer(q, k, causal, i) != S::zero_spec(),
    ensures
        tiled_at::<S, P>(q, k, v, causal, block, i, t) == naive_at(q, k, v, causal, i, t),
{
    let r = reach(q.rows as int, causal, i);
    let x = live_scores(q, k, causal, i);
    lemma_scores_finite(q, k, v, causal, i);
    lemma_naive(q, k, v, causal, i, t);
    lemma_true_weights::<S, P>(x, block, max_of(x, r as nat));
    tiled_output_is_a_mean::<S, P>(q, k, v, causal, block, i, t);
}

/// The tiles cover all keys.
pub(crate) proof fn lemma_tiles_cover(n: int, block: int)
    requires
        n >= 0,
        block > 0,
    ensures
        tiles(n, block) * block >= n,
{
    let s = n + block - 1;
    vstd::arithmetic::div_mod::lemma_fundamental_div_mod(s, block);
    vstd::arithmetic::div_mod::lemma_div_pos_is_pos(s, block);
    vstd::arithmetic::mul::lemma_mul_is_commutative(block, s / block);
}

/// The scalar path performs the textbook operations, its exponential among them.
pub proof fn portable_is_textbook<S: Exact>()
    ensures
        textbook::<S, Portable>(),
        forall|x: Seq<S>, block: int| #[trigger] exponentiates::<S, Portable>(x, block),
{
    assert forall|l: S, p: Seq<S>|
        l.is_finite_spec() && finite_upto(p, p.len() as int) implies #[trigger] <Portable as TileOps<
        S,
    >>::gather_spec(l, p) == l.add_spec(sum_of(p, p.len())) by {
        lemma_gather(l, p);
    }
}

/// Adding terms to `l` one by one adds their sum.
proof fn lemma_gather<S: Exact>(l: S, p: Seq<S>)
    requires
        l.is_finite_spec(),
        finite_upto(p, p.len() as int),
    ensures
        p.fold_left(l, |acc: S, w: S| acc.add_spec(w)) == l.add_spec(sum_of(p, p.len())),
    decreases p.len(),
{
    if p.len() == 0 {
        S::add_zero(l);
    } else {
        let head = p.drop_last();
        let last = p[p.len() - 1];
        assert forall|j: int| 0 <= j < head.len() implies (#[trigger] head[j]).is_finite_spec() by {
            assert(head[j] == p[j]);
        }
        lemma_gather(l, head);
        lemma_sum_same(p, head, head.len());
        lemma_sum_finite(head, head.len());
        assert(last.is_finite_spec());
        S::add_associates(l, sum_of(head, head.len()), last);
    }
}

/// The tiled kernel computes exactly what the naive one does, at every tile size
/// and under both masks. A row whose normalizer is zero is left out: the naive
/// kernel divides by it, the tiled one does not.
pub proof fn tiled_matches_naive<S: Exact>(
    q: Mat<S>,
    k: Mat<S>,
    v: Mat<S>,
    causal: bool,
    block: int,
    i: int,
    t: int,
)
    requires
        attends(q, k, v),
        finite_inputs(q, k, v),
        block > 0,
        0 <= i < q.rows,
        0 <= t < q.cols,
        normalizer(q, k, causal, i) != S::zero_spec(),
    ensures
        tiled_at::<S, Portable>(q, k, v, causal, block, i, t) == naive_at(q, k, v, causal, i, t),
{
    portable_is_textbook::<S>();
    tiling_is_exact::<S, Portable>(q, k, v, causal, block, i, t);
}

/// A row whose normalizer is zero keeps its weighted sum.
pub(crate) proof fn lemma_massless<S: Exact>(
    q: Mat<S>,
    k: Mat<S>,
    v: Mat<S>,
    causal: bool,
    block: int,
    i: int,
    t: int,
)
    requires
        attends(q, k, v),
        finite_inputs(q, k, v),
        block > 0,
        0 <= i < q.rows,
        0 <= t < q.cols,
        normalizer(q, k, causal, i) == S::zero_spec(),
        invertible(S::one_spec()),
        S::one_spec() != S::zero_spec(),
    ensures
        ({
            let x = live_scores(q, k, causal, i);
            tiled_at::<S, Portable>(q, k, v, causal, block, i, t) == mix(
                S::zero_spec(),
                row_weights(x, max_of(x, x.len())),
                v,
                t,
                x.len(),
            )
        }),
{
    let n = q.rows as int;
    let r = reach(n, causal, i);
    let b = tiles(n, block);
    let x = live_scores(q, k, causal, i);
    let m = max_of(x, r as nat);
    portable_is_textbook::<S>();
    lemma_scores_finite(q, k, v, causal, i);
    lemma_max_is_largest(x, r as nat);
    assert(exponentiates::<S, Portable>(x, block));
    lemma_true_weights::<S, Portable>(x, block, m);
    running_state_is_prefix_mix::<S, Portable>(q, k, v, causal, block, i, b);
    lemma_tiles_cover(n, block);
    assert(keys_seen(n, causal, block, i, b) == r);
    let st = row_after::<S, Portable>(q, k, v, causal, block, i, b);
    lemma_largest_unique(st.m, m, x, r);
    let w = row_weights(x, m);
    lemma_normalizer(q, k, v, causal, i);
    S::zero_is_finite();
    S::one_is_finite();
    S::equals_is_equality(st.l, S::zero_spec());
    assert(st.o[t] == mix(S::zero_spec(), w, v, t, r as nat));
    assert forall|j: int| 0 <= j < r implies (#[trigger] v.at(j, t)).is_finite_spec() by {}
    lemma_mix_finite(w, v, t, r as nat);
    // 1 / 1 = (1 / 1) * 1 = 1 * (1 / 1) = 1
    let inv = S::one_spec().div_spec(S::one_spec());
    S::reciprocal_is_finite(S::one_spec());
    S::mul_one(inv);
    S::mul_commutes(inv, S::one_spec());
    S::mul_one(st.o[t]);
}

/// Dividing by `a` undoes multiplying by it.
pub open spec fn invertible<S: Scalar>(a: S) -> bool {
    a.mul_spec(S::one_spec().div_spec(a)) == S::one_spec()
}

/// The weights of a row add up to one, and what the mask hides has none.
pub proof fn weights_sum_to_one<S: Exact>(q: Mat<S>, k: Mat<S>, v: Mat<S>, causal: bool, i: int)
    requires
        attends(q, k, v),
        finite_inputs(q, k, v),
        0 <= i < q.rows,
        normalizer(q, k, causal, i) != S::zero_spec(),
        invertible(normalizer(q, k, causal, i)),
    ensures
        sum_of(softmax(score_row(q, k, causal, i)), q.rows as nat) == S::one_spec(),
        forall|j: int|
            reach(q.rows as int, causal, i) <= j < q.rows ==> #[trigger] softmax(
                score_row(q, k, causal, i),
            )[j] == S::zero_spec(),
{
    let n = q.rows as nat;
    let r = reach(q.rows as int, causal, i) as nat;
    let row = score_row(q, k, causal, i);
    let x = live_scores(q, k, causal, i);
    lemma_scores_finite(q, k, v, causal, i);
    lemma_max_is_largest(x, r);
    lemma_masked_max(row, x, r, n);
    let m = max_of(x, r);
    let e = exps(row, m);
    S::neg_infinity_is_not_finite();
    S::zero_is_finite();
    lemma_weights_finite(x, m, r as int);
    assert forall|j: int| 0 <= j < n implies (#[trigger] e[j]).is_finite_spec() by {
        if j < r {
            assert(x[j].is_finite_spec());
            assert(e[j] == row_weights(x, m)[j]);
        }
    }
    let z = sum_of(e, n);
    lemma_sum_finite(e, n);
    S::reciprocal_is_finite(z);
    let inv = S::one_spec().div_spec(z);
    lemma_sum_scales(e, softmax(row), inv, n);
    assert forall|j: int| r <= j < n implies #[trigger] softmax(row)[j] == S::zero_spec() by {
        S::mul_commutes(S::zero_spec(), inv);
        S::mul_zero(inv);
    }
}

/// Exponentiating around one center or another gives the same quotient, so
/// subtracting the row maximum is free.
pub proof fn any_center_gives_the_same_softmax<S: Exact>(x: Seq<S>, a: S, b: S, j: int)
    requires
        finite_upto(x, x.len() as int),
        a.is_finite_spec(),
        b.is_finite_spec(),
        0 <= j < x.len(),
        sum_of(row_weights(x, a), x.len()) != S::zero_spec(),
        sum_of(row_weights(x, b), x.len()) != S::zero_spec(),
        invertible(sum_of(row_weights(x, a), x.len())),
        invertible(sum_of(row_weights(x, b), x.len())),
    ensures
        row_weights(x, a)[j].mul_spec(
            S::one_spec().div_spec(sum_of(row_weights(x, a), x.len())),
        ) == row_weights(x, b)[j].mul_spec(
            S::one_spec().div_spec(sum_of(row_weights(x, b), x.len())),
        ),
{
    let n = x.len();
    let (wa, wb) = (row_weights(x, a), row_weights(x, b));
    let f = a.sub_spec(b).exp_spec();
    lemma_weights_move(x, a, b, n as int);
    lemma_weights_finite(x, a, n as int);
    lemma_weights_finite(x, b, n as int);
    lemma_sum_scales(wa, wb, f, n);
    let (za, zb) = (sum_of(wa, n), sum_of(wb, n));
    lemma_sum_finite(wa, n);
    lemma_sum_finite(wb, n);
    S::reciprocal_is_finite(za);
    S::reciprocal_is_finite(zb);
    let (ia, ib) = (S::one_spec().div_spec(za), S::one_spec().div_spec(zb));
    // With zb = za * f: ia = ia * (zb * ib) = (ia * za) * f * ib = f * ib.
    S::mul_is_finite(f, ib);
    S::mul_one(ia);
    S::mul_associates(za, f, ib);
    S::mul_associates(ia, za, f.mul_spec(ib));
    S::mul_commutes(ia, za);
    S::one_is_finite();
    S::mul_commutes(S::one_spec(), f.mul_spec(ib));
    S::mul_one(f.mul_spec(ib));
    assert(ia == f.mul_spec(ib));
    S::mul_associates(wa[j], f, ib);
}

/// Where `exp(a - b)` exceeds one only if `a` exceeds `b`, no weight and no
/// correction exceeds one, so rescaling never overflows.
pub proof fn weights_never_exceed_one<S: Exact>(x: Seq<S>, m: S, m_old: S, c: int)
    requires
        forall|a: S, b: S|
            a.is_finite_spec() && b.is_finite_spec() && !a.greater_than_spec(b)
                ==> !(#[trigger] a.sub_spec(b).exp_spec()).greater_than_spec(S::one_spec()),
        c <= x.len(),
        finite_upto(x, c),
        is_largest(m, x, c),
        0 < c,
        exists|b: int| 0 < b <= c && is_largest(m_old, x, b),
    ensures
        forall|j: int|
            0 <= j < c ==> !(#[trigger] row_weights(x, m)[j]).greater_than_spec(S::one_spec()),
        !correction_spec(m_old, m).greater_than_spec(S::one_spec()),
{
    assert forall|j: int| 0 <= j < c implies !(#[trigger] row_weights(
        x,
        m,
    )[j]).greater_than_spec(S::one_spec()) by {
        assert(!x[j].greater_than_spec(m));
    }
    let b = choose|b: int| 0 < b <= c && is_largest(m_old, x, b);
    let j = choose|j: int| 0 <= j < b && x[j] == m_old;
    assert(!x[j].greater_than_spec(m));
    S::neg_infinity_is_not_finite();
    S::equals_is_equality(m_old, S::neg_infinity_spec());
}

/// Where exponentials are positive, positive numbers add up to positive ones and
/// zero is not positive, no normalizer is zero: the tiled and the naive kernel
/// then agree on every row.
pub proof fn normalizer_is_positive<S: Exact>(
    positive: spec_fn(S) -> bool,
    q: Mat<S>,
    k: Mat<S>,
    v: Mat<S>,
    causal: bool,
    i: int,
)
    requires
        !positive(S::zero_spec()),
        forall|a: S| a.is_finite_spec() ==> positive(#[trigger] a.exp_spec()),
        forall|a: S, b: S|
            positive(a) && positive(b) ==> positive(#[trigger] a.add_spec(b)),
        attends(q, k, v),
        finite_inputs(q, k, v),
        0 <= i < q.rows,
    ensures
        positive(normalizer(q, k, causal, i)),
        normalizer(q, k, causal, i) != S::zero_spec(),
{
    let n = q.rows as nat;
    let r = reach(q.rows as int, causal, i) as nat;
    let row = score_row(q, k, causal, i);
    let x = live_scores(q, k, causal, i);
    lemma_scores_finite(q, k, v, causal, i);
    lemma_max_is_largest(x, r);
    lemma_masked_max(row, x, r, n);
    let m = max_of(x, r);
    let e = exps(row, m);
    S::neg_infinity_is_not_finite();
    lemma_weights_finite(x, m, r as int);
    assert forall|j: int| 0 <= j < r implies (#[trigger] e[j]).is_finite_spec() && positive(
        e[j],
    ) by {
        assert(x[j].is_finite_spec());
        assert(e[j] == row_weights(x, m)[j]);
        S::sub_is_finite(x[j], m);
    }
    lemma_sum_zeros(e, r, n);
    lemma_sum_positive(positive, e, r);
}

/// A sum of positive terms is positive.
pub(crate) proof fn lemma_sum_positive<S: Exact>(positive: spec_fn(S) -> bool, x: Seq<S>, k: nat)
    requires
        k > 0,
        forall|j: int| 0 <= j < k ==> (#[trigger] x[j]).is_finite_spec() && positive(x[j]),
        forall|a: S, b: S|
            positive(a) && positive(b) ==> positive(#[trigger] a.add_spec(b)),
    ensures
        positive(sum_of(x, k)),
    decreases k,
{
    if k == 1 {
        reveal_with_fuel(sum_of, 2);
        S::zero_is_finite();
        S::add_commutes(S::zero_spec(), x[0]);
        S::add_zero(x[0]);
    } else {
        lemma_sum_positive(positive, x, (k - 1) as nat);
        assert(positive(x[k - 1]));
    }
}

} // verus!
