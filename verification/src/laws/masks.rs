//! What the mask lets a query see.
use crate::avx512::Avx512;
use crate::laws::softmax::{
    finite_inputs, keys_seen, lemma_max_same, lemma_normalizer, lemma_tiles_cover, live_scores,
    row_weights,
};
use crate::laws::sums::{lemma_sum_finite, lemma_sum_same};
use crate::mat::{lemma_row_at, lemma_row_bounds, Mat};
use crate::naive::naive_at;
use crate::scalar::{Exact, Lanes, Scalar};
use crate::score::{
    attends, exps, max_of, mix, reach, scale_spec, score_row, softmax, sum_of,
};
use crate::simd::{simd_at, Avx2, Path};
use crate::tiled::{
    absorbed_at, block_scores, idle_tiles_change_nothing, row_after, step, tile_end, tiled_at,
    tiles, Portable, TileOps, BLOCK,
};
use vstd::prelude::*;

verus! {

/// Two problems show query `i` the same things: the same query, and the same
/// keys and values up to the last one that the mask lets it see.
pub open spec fn looks_the_same<S: Scalar>(
    q: Mat<S>,
    k: Mat<S>,
    v: Mat<S>,
    q2: Mat<S>,
    k2: Mat<S>,
    v2: Mat<S>,
    causal: bool,
    i: int,
) -> bool {
    &&& q.rows == q2.rows
    &&& q.cols == q2.cols
    &&& q.row_seq(i) == q2.row_seq(i)
    &&& q.row_seq(i).len() == q.cols
    &&& forall|j: int|
        0 <= j < reach(q.rows as int, causal, i) ==> #[trigger] k.row_seq(j) == k2.row_seq(j)
    &&& forall|j: int, t: int|
        0 <= j < reach(q.rows as int, causal, i) && 0 <= t < q.cols ==> #[trigger] v.at(j, t)
            == v2.at(j, t)
}

/// In the naive kernel, query `i` attends only to what the mask lets it see:
/// keys and values past it change nothing in its output.
pub proof fn naive_row_sees_only_its_keys<S: Scalar>(
    q: Mat<S>,
    k: Mat<S>,
    v: Mat<S>,
    q2: Mat<S>,
    k2: Mat<S>,
    v2: Mat<S>,
    causal: bool,
    i: int,
    t: int,
)
    requires
        0 <= i < q.rows,
        0 <= t < q.cols,
        looks_the_same(q, k, v, q2, k2, v2, causal, i),
    ensures
        naive_at(q, k, v, causal, i, t) == naive_at(q2, k2, v2, causal, i, t),
{
    let r = reach(q.rows as int, causal, i);
    assert(score_row(q, k, causal, i) =~= score_row(q2, k2, causal, i)) by {
        assert forall|j: int| 0 <= j < q.rows implies score_row(q, k, causal, i)[j] == score_row(
            q2,
            k2,
            causal,
            i,
        )[j] by {
            if j < r {
                assert(k.row_seq(j) == k2.row_seq(j));
            }
        }
    }
    lemma_mix_same(S::zero_spec(), softmax(score_row(q, k, causal, i)), v, v2, t, r as nat);
}

/// A weighted sum depends only on the values it adds.
proof fn lemma_mix_same<S: Scalar>(start: S, w: Seq<S>, v: Mat<S>, v2: Mat<S>, t: int, k: nat)
    requires
        forall|j: int| 0 <= j < k ==> #[trigger] v.at(j, t) == v2.at(j, t),
    ensures
        mix(start, w, v, t, k) == mix(start, w, v2, t, k),
    decreases k,
{
    if k > 0 {
        lemma_mix_same(start, w, v, v2, t, (k - 1) as nat);
        assert(v.at(k - 1, t) == v2.at(k - 1, t));
    }
}

/// What a tile adds depends only on the values it adds.
proof fn lemma_absorbed_same<S: Scalar, P: TileOps<S>>(
    o: S,
    p: Seq<S>,
    v: Mat<S>,
    v2: Mat<S>,
    kv0: int,
    t: int,
    d: int,
    count: nat,
)
    requires
        0 <= kv0,
        forall|j: int| 0 <= j < kv0 + count ==> #[trigger] v.at(j, t) == v2.at(j, t),
    ensures
        absorbed_at::<S, P>(o, p, v, kv0, t, d, count) == absorbed_at::<S, P>(
            o,
            p,
            v2,
            kv0,
            t,
            d,
            count,
        ),
    decreases count,
{
    if count > 0 {
        lemma_absorbed_same::<S, P>(o, p, v, v2, kv0, t, d, (count - 1) as nat);
        assert(v.at(kv0 + count - 1, t) == v2.at(kv0 + count - 1, t));
    }
}

/// Query `i` of one problem and query `i2` of another are shown the same things:
/// the same query, and as many keys and values, all of them the same. Lengths,
/// masks and positions may differ.
pub open spec fn same_view<S: Scalar>(
    q: Mat<S>,
    k: Mat<S>,
    v: Mat<S>,
    causal: bool,
    i: int,
    q2: Mat<S>,
    k2: Mat<S>,
    v2: Mat<S>,
    causal2: bool,
    i2: int,
) -> bool {
    &&& 0 <= i < q.rows
    &&& 0 <= i2 < q2.rows
    &&& q.cols == q2.cols
    &&& q.row_seq(i) == q2.row_seq(i2)
    &&& q.row_seq(i).len() == q.cols
    &&& reach(q.rows as int, causal, i) == reach(q2.rows as int, causal2, i2)
    &&& forall|j: int|
        0 <= j < reach(q.rows as int, causal, i) ==> #[trigger] k.row_seq(j) == k2.row_seq(j)
    &&& forall|j: int, t: int|
        0 <= j < reach(q.rows as int, causal, i) && 0 <= t < q.cols ==> #[trigger] v.at(j, t)
            == v2.at(j, t)
}

/// The running state of a row depends only on what the row is shown.
proof fn lemma_row_same<S: Scalar, P: TileOps<S>>(
    q: Mat<S>,
    k: Mat<S>,
    v: Mat<S>,
    causal: bool,
    i: int,
    q2: Mat<S>,
    k2: Mat<S>,
    v2: Mat<S>,
    causal2: bool,
    i2: int,
    block: int,
    b: nat,
)
    requires
        block > 0,
        same_view(q, k, v, causal, i, q2, k2, v2, causal2, i2),
    ensures
        row_after::<S, P>(q, k, v, causal, block, i, b) == row_after::<S, P>(
            q2,
            k2,
            v2,
            causal2,
            block,
            i2,
            b,
        ),
        row_after::<S, P>(q, k, v, causal, block, i, b).o.len() == q.cols,
    decreases b,
{
    if b > 0 {
        let a = (b - 1) as nat;
        lemma_row_same::<S, P>(q, k, v, causal, i, q2, k2, v2, causal2, i2, block, a);
        let kv0 = a * block;
        let jhi = tile_end(q.rows as int, causal, block, i, a as int);
        assert(jhi == tile_end(q2.rows as int, causal2, block, i2, a as int));
        assert(0 <= kv0) by (nonlinear_arith)
            requires
                block > 0,
                kv0 == a * block,
        ;
        if jhi > kv0 {
            let scale = scale_spec::<S>(q.cols);
            let x = block_scores::<S, P>(q.row_seq(i), k, kv0, jhi, scale);
            assert(x =~= block_scores::<S, P>(q2.row_seq(i2), k2, kv0, jhi, scale)) by {
                assert forall|bj: int| 0 <= bj < jhi - kv0 implies x[bj] == block_scores::<S, P>(
                    q2.row_seq(i2),
                    k2,
                    kv0,
                    jhi,
                    scale,
                )[bj] by {
                    assert(k.row_seq(kv0 + bj) == k2.row_seq(kv0 + bj));
                }
            }
            let before = row_after::<S, P>(q, k, v, causal, block, i, a);
            let after = step::<S, P>(before, x, v, kv0);
            let after2 = step::<S, P>(before, x, v2, kv0);
            assert(after.o =~= after2.o) by {
                assert forall|t: int| 0 <= t < q.cols implies after.o[t] == after2.o[t] by {
                    let m_new = after.m;
                    let p = crate::tiled::weights::<S, P>(x, m_new);
                    let c = crate::tiled::correction_spec(before.m, m_new);
                    let o = if c.equals_spec(S::one_spec()) {
                        before.o
                    } else {
                        crate::tiled::scaled(before.o, c)
                    };
                    lemma_absorbed_same::<S, P>(
                        o[t],
                        p,
                        v,
                        v2,
                        kv0,
                        t,
                        q.cols as int,
                        (jhi - kv0) as nat,
                    );
                }
            }
        }
    }
}

/// A row at the end of all tiles is the row at the end of those it reaches.
proof fn lemma_last_tiles<S: Scalar, P: TileOps<S>>(
    q: Mat<S>,
    k: Mat<S>,
    v: Mat<S>,
    causal: bool,
    block: int,
    i: int,
)
    requires
        block > 0,
        0 <= i < q.rows,
    ensures
        row_after::<S, P>(q, k, v, causal, block, i, tiles(q.rows as int, block)) == row_after::<
            S,
            P,
        >(q, k, v, causal, block, i, tiles(reach(q.rows as int, causal, i), block)),
{
    let n = q.rows as int;
    let r = reach(n, causal, i);
    lemma_tiles_cover(r, block);
    vstd::arithmetic::div_mod::lemma_div_is_ordered(r + block - 1, n + block - 1, block);
    vstd::arithmetic::div_mod::lemma_div_pos_is_pos(r + block - 1, block);
    idle_tiles_change_nothing::<S, P>(
        q,
        k,
        v,
        causal,
        block,
        i,
        tiles(r, block),
        tiles(n, block),
    );
}

/// A row of the tiled kernel, on any path and at any tile size, depends only on
/// what it is shown: its own query, and the keys and values that its mask lets
/// it see. Every operation is the same, so this needs no exact arithmetic.
pub proof fn tiled_row_depends_on_its_view<S: Scalar, P: TileOps<S>>(
    q: Mat<S>,
    k: Mat<S>,
    v: Mat<S>,
    causal: bool,
    i: int,
    q2: Mat<S>,
    k2: Mat<S>,
    v2: Mat<S>,
    causal2: bool,
    i2: int,
    block: int,
    t: int,
)
    requires
        block > 0,
        0 <= t < q.cols,
        same_view(q, k, v, causal, i, q2, k2, v2, causal2, i2),
    ensures
        tiled_at::<S, P>(q, k, v, causal, block, i, t) == tiled_at::<S, P>(
            q2,
            k2,
            v2,
            causal2,
            block,
            i2,
            t,
        ),
{
    let r = reach(q.rows as int, causal, i);
    lemma_last_tiles::<S, P>(q, k, v, causal, block, i);
    lemma_last_tiles::<S, P>(q2, k2, v2, causal2, block, i2);
    lemma_row_same::<S, P>(
        q,
        k,
        v,
        causal,
        i,
        q2,
        k2,
        v2,
        causal2,
        i2,
        block,
        tiles(r, block),
    );
}

/// So on the path that the dispatch takes.
pub proof fn simd_row_depends_on_its_view<S: Lanes>(
    path: Path,
    q: Mat<S>,
    k: Mat<S>,
    v: Mat<S>,
    causal: bool,
    i: int,
    q2: Mat<S>,
    k2: Mat<S>,
    v2: Mat<S>,
    causal2: bool,
    i2: int,
    t: int,
)
    requires
        0 <= t < q.cols,
        same_view(q, k, v, causal, i, q2, k2, v2, causal2, i2),
    ensures
        simd_at(path, q, k, v, causal, i, t) == simd_at(path, q2, k2, v2, causal2, i2, t),
{
    let b = BLOCK as int;
    match path {
        Path::Avx512 => {
            tiled_row_depends_on_its_view::<S, Avx512>(
                q, k, v, causal, i, q2, k2, v2, causal2, i2, b, t,
            );
        },
        Path::Avx2 => {
            tiled_row_depends_on_its_view::<S, Avx2>(
                q, k, v, causal, i, q2, k2, v2, causal2, i2, b, t,
            );
        },
        Path::Portable => {
            tiled_row_depends_on_its_view::<S, Portable>(
                q, k, v, causal, i, q2, k2, v2, causal2, i2, b, t,
            );
        },
    }
}

/// In the tiled kernel, on any path and at any tile size, query `i` attends only
/// to what the mask lets it see.
pub proof fn tiled_row_sees_only_its_keys<S: Scalar, P: TileOps<S>>(
    q: Mat<S>,
    k: Mat<S>,
    v: Mat<S>,
    q2: Mat<S>,
    k2: Mat<S>,
    v2: Mat<S>,
    causal: bool,
    block: int,
    i: int,
    t: int,
)
    requires
        0 <= i < q.rows,
        0 <= t < q.cols,
        block > 0,
        looks_the_same(q, k, v, q2, k2, v2, causal, i),
    ensures
        tiled_at::<S, P>(q, k, v, causal, block, i, t) == tiled_at::<S, P>(
            q2,
            k2,
            v2,
            causal,
            block,
            i,
            t,
        ),
{
    tiled_row_depends_on_its_view::<S, P>(q, k, v, causal, i, q2, k2, v2, causal, i, block, t);
}

/// So on the path that the dispatch takes.
pub proof fn simd_row_sees_only_its_keys<S: Lanes>(
    path: Path,
    q: Mat<S>,
    k: Mat<S>,
    v: Mat<S>,
    q2: Mat<S>,
    k2: Mat<S>,
    v2: Mat<S>,
    causal: bool,
    i: int,
    t: int,
)
    requires
        0 <= i < q.rows,
        0 <= t < q.cols,
        looks_the_same(q, k, v, q2, k2, v2, causal, i),
    ensures
        simd_at(path, q, k, v, causal, i, t) == simd_at(path, q2, k2, v2, causal, i, t),
{
    simd_row_depends_on_its_view(path, q, k, v, causal, i, q2, k2, v2, causal, i, t);
}

/// `a` is the first `r` rows of `m`.
pub open spec fn is_top<S>(a: Mat<S>, m: Mat<S>, r: int) -> bool {
    &&& a.rows == r
    &&& a.cols == m.cols
    &&& a.wf()
    &&& r * m.cols <= m.data@.len()
    &&& a.data@ == m.data@.take(r * m.cols)
}

/// The first rows of a matrix are its rows.
proof fn lemma_top_rows<S>(a: Mat<S>, m: Mat<S>, r: int, j: int)
    requires
        is_top(a, m, r),
        0 <= j < r,
    ensures
        a.row_seq(j) == m.row_seq(j),
        a.row_seq(j).len() == m.cols,
        forall|t: int| 0 <= t < m.cols ==> #[trigger] a.at(j, t) == m.at(j, t),
{
    lemma_row_bounds(j, r, m.cols as int);
    assert(a.row_seq(j) =~= m.row_seq(j));
    assert forall|t: int| 0 <= t < m.cols implies #[trigger] a.at(j, t) == m.at(j, t) by {
        assert(j * m.cols + t < (j + 1) * m.cols);
    }
}

/// What query `i` is shown under a causal mask is what it is shown without one
/// by the problem cut to its first `i + 1` rows.
proof fn lemma_cut_view<S: Scalar>(
    q: Mat<S>,
    k: Mat<S>,
    v: Mat<S>,
    q1: Mat<S>,
    k1: Mat<S>,
    v1: Mat<S>,
    i: int,
)
    requires
        attends(q, k, v),
        0 <= i < q.rows,
        is_top(q1, q, i + 1),
        is_top(k1, k, i + 1),
        is_top(v1, v, i + 1),
    ensures
        same_view(q, k, v, true, i, q1, k1, v1, false, i),
{
    lemma_top_rows(q1, q, i + 1, i);
    assert forall|j: int| 0 <= j < i + 1 implies #[trigger] k.row_seq(j) == k1.row_seq(j) by {
        lemma_top_rows(k1, k, i + 1, j);
    }
    assert forall|j: int, t: int| 0 <= j < i + 1 && 0 <= t < q.cols implies #[trigger] v.at(j, t)
        == v1.at(j, t) by {
        lemma_top_rows(v1, v, i + 1, j);
        assert(v1.at(j, t) == v.at(j, t));
    }
}

/// Row `i` under a causal mask is row `i` of the problem cut to its first
/// `i + 1` rows, without a mask: in the tiled kernel, on any path and at any tile
/// size, operation by operation.
pub proof fn tiled_causal_row_is_a_row_of_the_cut<S: Scalar, P: TileOps<S>>(
    q: Mat<S>,
    k: Mat<S>,
    v: Mat<S>,
    q1: Mat<S>,
    k1: Mat<S>,
    v1: Mat<S>,
    block: int,
    i: int,
    t: int,
)
    requires
        attends(q, k, v),
        block > 0,
        0 <= i < q.rows,
        0 <= t < q.cols,
        is_top(q1, q, i + 1),
        is_top(k1, k, i + 1),
        is_top(v1, v, i + 1),
    ensures
        tiled_at::<S, P>(q, k, v, true, block, i, t) == tiled_at::<S, P>(
            q1,
            k1,
            v1,
            false,
            block,
            i,
            t,
        ),
{
    lemma_cut_view(q, k, v, q1, k1, v1, i);
    tiled_row_depends_on_its_view::<S, P>(q, k, v, true, i, q1, k1, v1, false, i, block, t);
}

/// So on the path that the dispatch takes.
pub proof fn simd_causal_row_is_a_row_of_the_cut<S: Lanes>(
    path: Path,
    q: Mat<S>,
    k: Mat<S>,
    v: Mat<S>,
    q1: Mat<S>,
    k1: Mat<S>,
    v1: Mat<S>,
    i: int,
    t: int,
)
    requires
        attends(q, k, v),
        0 <= i < q.rows,
        0 <= t < q.cols,
        is_top(q1, q, i + 1),
        is_top(k1, k, i + 1),
        is_top(v1, v, i + 1),
    ensures
        simd_at(path, q, k, v, true, i, t) == simd_at(path, q1, k1, v1, false, i, t),
{
    lemma_cut_view(q, k, v, q1, k1, v1, i);
    simd_row_depends_on_its_view(path, q, k, v, true, i, q1, k1, v1, false, i, t);
}

/// The masked entries of row `i` do not show in its softmax: negative infinity
/// leaves its largest score alone, and zero leaves its sum alone.
pub open spec fn mask_is_neutral<S: Scalar>(q: Mat<S>, k: Mat<S>, i: int) -> bool {
    let row = score_row(q, k, true, i);
    let m = max_of(row, (i + 1) as nat);
    let z = sum_of(exps(row, m), (i + 1) as nat);
    &&& !S::neg_infinity_spec().is_finite_spec()
    &&& m.max_spec(S::neg_infinity_spec()) == m
    &&& z.add_spec(S::zero_spec()) == z
}

/// Neutral entries change neither the maximum nor the sum of a row.
proof fn lemma_neutral_tail<S: Scalar>(row: Seq<S>, m: S, r: nat, n: nat)
    requires
        0 < r <= n <= row.len(),
        m == max_of(row, r),
        !S::neg_infinity_spec().is_finite_spec(),
        m.max_spec(S::neg_infinity_spec()) == m,
        sum_of(exps(row, m), r).add_spec(S::zero_spec()) == sum_of(exps(row, m), r),
        forall|j: int| r <= j < n ==> #[trigger] row[j] == S::neg_infinity_spec(),
    ensures
        max_of(row, n) == m,
        sum_of(exps(row, m), n) == sum_of(exps(row, m), r),
    decreases n,
{
    if r < n {
        lemma_neutral_tail(row, m, r, (n - 1) as nat);
        assert(row[n - 1] == S::neg_infinity_spec());
    }
}

/// Row `i` of the naive kernel under a causal mask is row `i` of the problem cut
/// to its first `i + 1` rows, without a mask. The naive kernel walks the masked
/// entries too, so it takes that they are neutral.
pub proof fn naive_causal_row_is_a_row_of_the_cut<S: Scalar>(
    q: Mat<S>,
    k: Mat<S>,
    v: Mat<S>,
    q1: Mat<S>,
    k1: Mat<S>,
    v1: Mat<S>,
    i: int,
    t: int,
)
    requires
        attends(q, k, v),
        0 <= i < q.rows,
        0 <= t < q.cols,
        is_top(q1, q, i + 1),
        is_top(k1, k, i + 1),
        is_top(v1, v, i + 1),
        mask_is_neutral(q, k, i),
    ensures
        naive_at(q, k, v, true, i, t) == naive_at(q1, k1, v1, false, i, t),
{
    lemma_cut_view(q, k, v, q1, k1, v1, i);
    let r = (i + 1) as nat;
    let n = q.rows as nat;
    let row = score_row(q, k, true, i);
    let row1 = score_row(q1, k1, false, i);
    assert forall|j: int| 0 <= j < r implies #[trigger] row1[j] == row[j] by {
        assert(k.row_seq(j) == k1.row_seq(j));
    }
    let m = max_of(row, r);
    lemma_neutral_tail(row, m, r, n);
    lemma_max_same(row, row1, r);
    assert forall|j: int| 0 <= j < r implies #[trigger] exps(row1, m)[j] == exps(row, m)[j] by {
        assert(row1[j] == row[j]);
    }
    lemma_sum_same(exps(row1, m), exps(row, m), r);
    let (w, w1) = (softmax(row), softmax(row1));
    assert forall|j: int| 0 <= j < r implies #[trigger] w[j] == w1[j] by {
        assert(exps(row1, m)[j] == exps(row, m)[j]);
    }
    lemma_mix_same(S::zero_spec(), w, v, v1, t, r);
    lemma_mix_weights_same(S::zero_spec(), w, w1, v1, t, r);
}

/// A weighted sum depends only on the weights it uses.
pub(crate) proof fn lemma_mix_weights_same<S: Scalar>(
    start: S,
    w: Seq<S>,
    w2: Seq<S>,
    v: Mat<S>,
    t: int,
    k: nat,
)
    requires
        forall|j: int| 0 <= j < k ==> #[trigger] w[j] == w2[j],
    ensures
        mix(start, w, v, t, k) == mix(start, w2, v, t, k),
    decreases k,
{
    if k > 0 {
        lemma_mix_weights_same(start, w, w2, v, t, (k - 1) as nat);
        assert(w[k - 1] == w2[k - 1]);
    }
}

/// In exact arithmetic masked entries are neutral.
pub proof fn masks_are_neutral<S: Exact>(q: Mat<S>, k: Mat<S>, v: Mat<S>, i: int)
    requires
        attends(q, k, v),
        finite_inputs(q, k, v),
        0 <= i < q.rows,
    ensures
        mask_is_neutral(q, k, i),
{
    let r = (i + 1) as nat;
    let row = score_row(q, k, true, i);
    let x = live_scores(q, k, true, i);
    lemma_normalizer(q, k, v, true, i);
    assert forall|j: int| 0 <= j < r implies #[trigger] row[j] == x[j] by {}
    lemma_max_same(row, x, r);
    let m = max_of(x, r);
    lemma_sum_same(exps(row, m), row_weights(x, m), r);
    lemma_sum_finite(row_weights(x, m), r);
    S::add_zero(sum_of(row_weights(x, m), r));
    S::neg_infinity_is_not_finite();
    S::neg_infinity_is_least(m);
    S::max_is_larger(m, S::neg_infinity_spec());
}

/// A row of the naive kernel depends on no query but its own: where query `i2`
/// of another problem with the same keys and values is query `i`, so is its
/// output.
pub proof fn naive_rows_depend_on_their_own_query<S: Scalar>(
    q: Mat<S>,
    q2: Mat<S>,
    k: Mat<S>,
    v: Mat<S>,
    i: int,
    i2: int,
    t: int,
)
    requires
        q.rows == q2.rows,
        q.cols == q2.cols,
        q.row_seq(i) == q2.row_seq(i2),
    ensures
        naive_at(q, k, v, false, i, t) == naive_at(q2, k, v, false, i2, t),
{
    assert(score_row(q, k, false, i) =~= score_row(q2, k, false, i2));
}

/// Permuting the queries permutes the outputs, operation by operation: row `i`
/// of the permuted problem is row `p[i]` of the other, on every kernel.
pub proof fn permuting_queries_permutes_rows<S: Lanes, P: TileOps<S>>(
    p: Seq<int>,
    path: Path,
    q: Mat<S>,
    q2: Mat<S>,
    k: Mat<S>,
    v: Mat<S>,
    block: int,
    i: int,
    t: int,
)
    requires
        attends(q, k, v),
        block > 0,
        q2.rows == q.rows,
        q2.cols == q.cols,
        forall|j: int|
            0 <= j < q.rows ==> 0 <= #[trigger] p[j] < q.rows && q2.row_seq(j) == q.row_seq(p[j]),
        0 <= i < q.rows,
        0 <= t < q.cols,
    ensures
        naive_at(q2, k, v, false, i, t) == naive_at(q, k, v, false, p[i], t),
        tiled_at::<S, P>(q2, k, v, false, block, i, t) == tiled_at::<S, P>(
            q,
            k,
            v,
            false,
            block,
            p[i],
            t,
        ),
        simd_at(path, q2, k, v, false, i, t) == simd_at(path, q, k, v, false, p[i], t),
{
    assert(0 <= p[i] < q.rows && q2.row_seq(i) == q.row_seq(p[i]));
    lemma_row_at(q, p[i], q.rows as int);
    assert(same_view(q2, k, v, false, i, q, k, v, false, p[i]));
    naive_rows_depend_on_their_own_query(q2, q, k, v, i, p[i], t);
    tiled_row_depends_on_its_view::<S, P>(q2, k, v, false, i, q, k, v, false, p[i], block, t);
    simd_row_depends_on_its_view(path, q2, k, v, false, i, q, k, v, false, p[i], t);
}

/// Tiles of at least the whole length make one tile, so all such tile sizes give
/// the same words, on any path and under either mask.
pub proof fn large_tiles_are_one_tile<S: Scalar, P: TileOps<S>>(
    q: Mat<S>,
    k: Mat<S>,
    v: Mat<S>,
    causal: bool,
    block: int,
    block2: int,
    i: int,
    t: int,
)
    requires
        0 <= i < q.rows,
        q.rows <= block,
        q.rows <= block2,
    ensures
        tiled_at::<S, P>(q, k, v, causal, block, i, t) == tiled_at::<S, P>(
            q,
            k,
            v,
            causal,
            block2,
            i,
            t,
        ),
{
    let n = q.rows as int;
    lemma_one_tile(n, block);
    lemma_one_tile(n, block2);
    assert(tile_end(n, causal, block, i, 0) == tile_end(n, causal, block2, i, 0));
    reveal_with_fuel(row_after, 2);
    assert(0 * block == 0 && 0 * block2 == 0) by (nonlinear_arith);
    assert(row_after::<S, P>(q, k, v, causal, block, i, 1) == row_after::<S, P>(
        q,
        k,
        v,
        causal,
        block2,
        i,
        1,
    ));
}

proof fn lemma_one_tile(n: int, block: int)
    requires
        0 < n <= block,
    ensures
        tiles(n, block) == 1,
{
    vstd::arithmetic::div_mod::lemma_fundamental_div_mod_converse(n + block - 1, block, 1, n - 1);
}

/// The last query sees every key under either mask, so the mask changes nothing
/// for it.
pub proof fn last_row_ignores_the_mask<S: Scalar, P: TileOps<S>>(
    q: Mat<S>,
    k: Mat<S>,
    v: Mat<S>,
    block: int,
    t: int,
)
    requires
        q.rows > 0,
        block > 0,
    ensures
        naive_at(q, k, v, true, q.rows - 1, t) == naive_at(q, k, v, false, q.rows - 1, t),
        tiled_at::<S, P>(q, k, v, true, block, q.rows - 1, t) == tiled_at::<S, P>(
            q,
            k,
            v,
            false,
            block,
            q.rows - 1,
            t,
        ),
{
    let i = q.rows - 1;
    assert(score_row(q, k, true, i) =~= score_row(q, k, false, i));
    lemma_last_row::<S, P>(q, k, v, block, tiles(q.rows as int, block));
}

proof fn lemma_last_row<S: Scalar, P: TileOps<S>>(
    q: Mat<S>,
    k: Mat<S>,
    v: Mat<S>,
    block: int,
    b: nat,
)
    requires
        q.rows > 0,
    ensures
        row_after::<S, P>(q, k, v, true, block, q.rows - 1, b) == row_after::<S, P>(
            q,
            k,
            v,
            false,
            block,
            q.rows - 1,
            b,
        ),
    decreases b,
{
    if b > 0 {
        lemma_last_row::<S, P>(q, k, v, block, (b - 1) as nat);
    }
}

/// How many keys the tiled kernel scores for query `i` in its first `b` tiles.
pub open spec fn keys_scored(n: int, causal: bool, block: int, i: int, b: nat) -> int
    decreases b,
{
    if b == 0 {
        0
    } else {
        let kv0 = (b - 1) * block;
        let jhi = tile_end(n, causal, block, i, b - 1);
        keys_scored(n, causal, block, i, (b - 1) as nat) + if jhi <= kv0 {
            0
        } else {
            jhi - kv0
        }
    }
}

/// The tiled kernel scores each key that a query may attend to once, and no
/// other key.
pub proof fn every_live_key_is_scored_once(n: int, causal: bool, block: int, i: int)
    requires
        0 <= i < n,
        block > 0,
    ensures
        keys_scored(n, causal, block, i, tiles(n, block)) == reach(n, causal, i),
{
    lemma_tiles_cover(n, block);
    lemma_keys_scored(n, causal, block, i, tiles(n, block));
}

proof fn lemma_keys_scored(n: int, causal: bool, block: int, i: int, b: nat)
    requires
        0 <= i < n,
        block > 0,
    ensures
        keys_scored(n, causal, block, i, b) == keys_seen(n, causal, block, i, b),
    decreases b,
{
    if b == 0 {
        assert(0 * block == 0) by (nonlinear_arith);
    } else {
        let a = (b - 1) as nat;
        lemma_keys_scored(n, causal, block, i, a);
        assert((a + 1) * block == a * block + block) by (nonlinear_arith);
        assert(0 <= a * block) by (nonlinear_arith)
            requires
                block > 0,
        ;
    }
}

/// How many query-key pairs the first `rows` queries may form.
pub open spec fn live_pairs(n: int, causal: bool, rows: nat) -> int
    decreases rows,
{
    if rows == 0 {
        0
    } else {
        live_pairs(n, causal, (rows - 1) as nat) + reach(n, causal, rows - 1)
    }
}

/// The causal mask leaves n(n+1)/2 of the n^2 query-key pairs.
pub proof fn causal_mask_leaves_half_the_pairs(n: nat)
    ensures
        live_pairs(n as int, false, n) == n * n,
        2 * live_pairs(n as int, true, n) == n * (n + 1),
{
    lemma_live_pairs(n, n);
}

proof fn lemma_live_pairs(n: nat, rows: nat)
    ensures
        live_pairs(n as int, false, rows) == rows * n,
        2 * live_pairs(n as int, true, rows) == rows * (rows + 1),
    decreases rows,
{
    if rows == 0 {
        assert(rows * n == 0 && rows * (rows + 1) == 0) by (nonlinear_arith)
            requires
                rows == 0,
        ;
    } else {
        let a = (rows - 1) as nat;
        lemma_live_pairs(n, a);
        assert((a + 1) * n == a * n + n) by (nonlinear_arith);
        assert((a + 1) * (a + 2) == a * (a + 1) + 2 * (a + 1)) by (nonlinear_arith);
    }
}

} // verus!
