//! The vector paths against the scalar one.
//!
//! Vectors reorder additions and fuse multiplications into them. In exact
//! arithmetic neither shows: every lane order gives the same dot product. What
//! is left of the difference is the approximated exponential.
use crate::avx512::{dot16_spec, fold16, lanes16, Avx512};
use crate::lanes::{axpy_lane, axpy_row, lane_sum, lemma_whole_bounds, whole, with_tail};
use crate::laws::softmax::{
    exponentiates, finite_inputs, lemma_scores_finite, lemma_tile_max, live_scores, mean,
    normalizer, portable_is_textbook, row_path_weights, textbook, tile_argument, tile_exp,
    tile_stop, tiled_matches_naive, tiled_output_is_a_mean, tiling_is_exact, weighs_finitely,
};
use crate::laws::sums::{finite_upto, lemma_dot_finite, lemma_sum_finite, lemma_sum_splits};
use crate::mat::{lemma_row_at, Mat};
use crate::naive::naive_at;
use crate::ring::Ring64;
use crate::scalar::{Exact, Lanes, Scalar};
use crate::score::{attends, dot_spec, reach, sum_of};
use crate::simd::{
    dot8_of_four, dot8_spec, fold_halves, fold_pairs, lanes8, simd_at, Avx2, Path,
};
use crate::tiled::{absorbed_at, Portable, TileOps, BLOCK};
use crate::vexp::exp_lane_spec;
use vstd::prelude::*;

verus! {

/// The sum of elementwise sums is the sum of the two sums.
proof fn lemma_sum_adds<S: Exact>(x: Seq<S>, y: Seq<S>, z: Seq<S>, k: nat)
    requires
        finite_upto(x, k as int),
        finite_upto(y, k as int),
        forall|j: int| 0 <= j < k ==> #[trigger] z[j] == x[j].add_spec(y[j]),
    ensures
        sum_of(z, k) == sum_of(x, k).add_spec(sum_of(y, k)),
    decreases k,
{
    S::zero_is_finite();
    if k == 0 {
        S::add_zero(S::zero_spec());
    } else {
        let h = (k - 1) as nat;
        lemma_sum_adds(x, y, z, h);
        lemma_sum_finite(x, h);
        lemma_sum_finite(y, h);
        assert(z[k - 1] == x[k - 1].add_spec(y[k - 1]));
        lemma_exchange(sum_of(x, h), sum_of(y, h), x[k - 1], y[k - 1]);
    }
}

/// `(a + b) + (c + d) = (a + c) + (b + d)`.
proof fn lemma_exchange<S: Exact>(a: S, b: S, c: S, d: S)
    requires
        a.is_finite_spec(),
        b.is_finite_spec(),
        c.is_finite_spec(),
        d.is_finite_spec(),
    ensures
        a.add_spec(b).add_spec(c.add_spec(d)) == a.add_spec(c).add_spec(b.add_spec(d)),
{
    S::add_is_finite(c, d);
    S::add_is_finite(b, d);
    S::add_associates(a, b, c.add_spec(d));
    S::add_associates(b, c, d);
    S::add_commutes(b, c);
    S::add_associates(c, b, d);
    S::add_associates(a, c, b.add_spec(d));
}

/// The sum of four elements, as a balanced tree.
proof fn lemma_sum_four<S: Exact>(x: Seq<S>)
    requires
        finite_upto(x, 4),
    ensures
        sum_of(x, 4) == x[0].add_spec(x[1]).add_spec(x[2].add_spec(x[3])),
{
    reveal_with_fuel(sum_of, 5);
    let (a, b, c, d) = (x[0], x[1], x[2], x[3]);
    S::zero_is_finite();
    S::add_commutes(S::zero_spec(), a);
    S::add_zero(a);
    S::add_is_finite(a, b);
    S::add_associates(a.add_spec(b), c, d);
}

/// Adding one half of a sequence onto the other keeps the sum.
proof fn lemma_sum_halves<S: Exact>(x: Seq<S>, y: Seq<S>, k: nat)
    requires
        x.len() == 2 * k,
        finite_upto(x, 2 * k as int),
        forall|j: int| 0 <= j < k ==> #[trigger] y[j] == x[j].add_spec(x[k + j]),
    ensures
        sum_of(x, 2 * k) == sum_of(y, k),
        finite_upto(y, k as int),
{
    let hi = Seq::new(k, |j: int| x[k + j]);
    lemma_sum_splits(x, hi, k, k);
    assert forall|j: int| 0 <= j < k implies (#[trigger] hi[j]).is_finite_spec() by {
        assert(x[k + j].is_finite_spec());
    }
    lemma_sum_adds(x, hi, y, k);
    assert forall|j: int| 0 <= j < k implies (#[trigger] y[j]).is_finite_spec() by {
        S::add_is_finite(x[j], x[k + j]);
    }
}

/// Both 8-lane folds give the sum of the lanes.
proof fn lemma_folds8<S: Exact>(x: Seq<S>)
    requires
        x.len() == 8,
        finite_upto(x, 8),
    ensures
        fold_halves(x) == sum_of(x, 8),
        fold_pairs(x) == sum_of(x, 8),
{
    let y = Seq::new(4, |j: int| x[j].add_spec(x[4 + j]));
    lemma_sum_halves(x, y, 4);
    lemma_sum_four(y);
    let hi = Seq::new(4, |j: int| x[4 + j]);
    assert forall|j: int| 0 <= j < 4 implies (#[trigger] hi[j]).is_finite_spec() by {
        assert(x[4 + j].is_finite_spec());
    }
    lemma_sum_splits(x, hi, 4, 4);
    lemma_sum_four(x);
    lemma_sum_four(hi);
}

/// The 16-lane fold gives the sum of the lanes.
proof fn lemma_fold16<S: Exact>(x: Seq<S>)
    requires
        x.len() == 16,
        finite_upto(x, 16),
    ensures
        fold16(x) == sum_of(x, 16),
{
    let y = Seq::new(8, |j: int| x[j].add_spec(x[j + 8]));
    assert forall|j: int| 0 <= j < 8 implies #[trigger] y[j] == x[j].add_spec(x[8 + j]) by {}
    lemma_sum_halves(x, y, 8);
    let z = Seq::new(4, |j: int| y[j].add_spec(y[j + 4]));
    assert forall|j: int| 0 <= j < 4 implies #[trigger] z[j] == y[j].add_spec(y[4 + j]) by {}
    lemma_sum_halves(y, z, 4);
    lemma_sum_four(z);
    lemma_exchange(z[0], z[1], z[2], z[3]);
}

/// Lanes of finite products are finite.
proof fn lemma_lane_finite<S: Exact>(a: Seq<S>, b: Seq<S>, w: int, lane: int, steps: nat)
    requires
        0 <= lane < w,
        finite_upto(a, w * steps),
        finite_upto(b, w * steps),
    ensures
        lane_sum(a, b, w, lane, steps).is_finite_spec(),
    decreases steps,
{
    if steps == 0 {
        S::zero_is_finite();
    } else {
        let s = (steps - 1) as nat;
        assert(w * steps == w * s + w) by (nonlinear_arith)
            requires
                steps == s + 1,
        ;
        assert(0 <= w * s) by (nonlinear_arith)
            requires
                w > 0,
        ;
        let t = w * s + lane;
        lemma_lane_finite(a, b, w, lane, s);
        S::mul_add_fuses(a[t], b[t], lane_sum(a, b, w, lane, s));
        S::mul_is_finite(a[t], b[t]);
        S::add_is_finite(a[t].mul_spec(b[t]), lane_sum(a, b, w, lane, s));
    }
}

/// A dot product over `c + k` elements continues one over `c`.
proof fn lemma_dot_splits<S: Exact>(a: Seq<S>, b: Seq<S>, products: Seq<S>, c: nat, k: nat)
    requires
        finite_upto(a, (c + k) as int),
        finite_upto(b, (c + k) as int),
        forall|j: int| 0 <= j < k ==> #[trigger] products[j] == a[c + j].mul_spec(b[c + j]),
    ensures
        finite_upto(products, k as int),
        dot_spec(a, b, c + k) == dot_spec(a, b, c).add_spec(sum_of(products, k)),
    decreases k,
{
    assert forall|j: int| 0 <= j < k implies (#[trigger] products[j]).is_finite_spec() by {
        S::mul_is_finite(a[c + j], b[c + j]);
    }
    lemma_dot_finite(a, b, c);
    if k == 0 {
        S::add_zero(dot_spec(a, b, c));
    } else {
        let h = (k - 1) as nat;
        lemma_dot_splits(a, b, products, c, h);
        lemma_sum_finite(products, h);
        assert(products[k - 1] == a[c + (k - 1)].mul_spec(b[c + (k - 1)]));
        S::add_associates(dot_spec(a, b, c), sum_of(products, h), products[k - 1]);
    }
}

/// The lanes of a dot product over whole vectors add up to the dot product.
proof fn lemma_lanes_add_up<S: Exact>(a: Seq<S>, b: Seq<S>, w: nat, steps: nat, lanes: Seq<S>)
    requires
        w > 0,
        finite_upto(a, (w * steps) as int),
        finite_upto(b, (w * steps) as int),
        forall|i: int|
            0 <= i < w ==> #[trigger] lanes[i] == lane_sum(a, b, w as int, i, steps),
    ensures
        finite_upto(lanes, w as int),
        sum_of(lanes, w) == dot_spec(a, b, w * steps),
    decreases steps,
{
    assert forall|i: int| 0 <= i < w implies (#[trigger] lanes[i]).is_finite_spec() by {
        lemma_lane_finite(a, b, w as int, i, steps);
    }
    if steps == 0 {
        assert(w * steps == 0) by (nonlinear_arith)
            requires
                steps == 0,
        ;
        lemma_sum_of_zeros(lanes, w);
    } else {
        let s = (steps - 1) as nat;
        let c = w * s;
        assert(w * steps == c + w) by (nonlinear_arith)
            requires
                steps == s + 1,
                c == w * s,
        ;
        let before = Seq::new(w, |i: int| lane_sum(a, b, w as int, i, s));
        lemma_lanes_add_up(a, b, w, s, before);
        let products = Seq::new(w, |i: int| a[c + i].mul_spec(b[c + i]));
        lemma_dot_splits(a, b, products, c, w);
        assert forall|i: int| 0 <= i < w implies #[trigger] lanes[i] == products[i].add_spec(
            before[i],
        ) by {
            lemma_lane_finite(a, b, w as int, i, s);
            S::mul_add_fuses(a[c + i], b[c + i], before[i]);
        }
        lemma_sum_adds(products, before, lanes, w);
        lemma_sum_finite(products, w);
        lemma_sum_finite(before, w);
        S::add_commutes(sum_of(products, w), sum_of(before, w));
    }
}

/// A sum of zeros is zero.
proof fn lemma_sum_of_zeros<S: Exact>(x: Seq<S>, k: nat)
    requires
        forall|i: int| 0 <= i < k ==> #[trigger] x[i] == S::zero_spec(),
    ensures
        sum_of(x, k) == S::zero_spec(),
    decreases k,
{
    if k > 0 {
        lemma_sum_of_zeros(x, (k - 1) as nat);
        S::zero_is_finite();
        S::add_zero(S::zero_spec());
        assert(x[k - 1] == S::zero_spec());
    }
}

/// The scalar tail continues the dot product.
proof fn lemma_tail<S: Scalar>(a: Seq<S>, b: Seq<S>, from: nat, to: nat)
    requires
        from <= to,
    ensures
        with_tail(dot_spec(a, b, from), a, b, from as int, to as int) == dot_spec(a, b, to),
    decreases to,
{
    if from < to {
        lemma_tail(a, b, from, (to - 1) as nat);
    }
}

/// Every 8-lane dot product equals the scalar one: scoring four keys at a time
/// gives each of them the score it would have had alone.
pub proof fn dot4_matches_dot<S: Exact>(a: Seq<S>, b: Seq<S>)
    requires
        a.len() <= b.len(),
        finite_upto(a, a.len() as int),
        finite_upto(b, a.len() as int),
    ensures
        dot8_of_four(a, b) == dot8_spec(a, b),
        dot8_spec(a, b) == dot_spec(a, b, a.len()),
{
    let n = a.len() as int;
    lemma_whole_bounds(n, 8);
    let lanes = lanes8(a, b);
    lemma_lanes_add_up(a, b, 8, (n / 8) as nat, lanes);
    lemma_folds8(lanes);
    lemma_tail(a, b, whole(n, 8) as nat, a.len());
}

/// So does the 16-lane one.
pub proof fn dot16_matches_dot<S: Exact>(a: Seq<S>, b: Seq<S>)
    requires
        a.len() <= b.len(),
        finite_upto(a, a.len() as int),
        finite_upto(b, a.len() as int),
    ensures
        dot16_spec(a, b) == dot_spec(a, b, a.len()),
{
    let n = a.len() as int;
    lemma_whole_bounds(n, 16);
    let lanes = lanes16(a, b);
    lemma_lanes_add_up(a, b, 16, (n / 16) as nat, lanes);
    lemma_fold16(lanes);
    lemma_tail(a, b, whole(n, 16) as nat, a.len());
}

/// An output row after one `axpy` per key, `w` lanes at a time.
pub open spec fn axpy_per_key<S: Scalar>(
    o: Seq<S>,
    p: Seq<S>,
    v: Mat<S>,
    kv0: int,
    w: int,
    count: nat,
) -> Seq<S>
    decreases count,
{
    if count == 0 {
        o
    } else {
        axpy_row(
            axpy_per_key(o, p, v, kv0, w, (count - 1) as nat),
            p[count - 1],
            v.row_seq(kv0 + count - 1),
            w,
        )
    }
}

/// Holding the output row in registers across a tile gives, element by element,
/// what one `axpy` per key gives. This needs no exact arithmetic: each element
/// sees the same operations in the same order.
pub proof fn accumulate_matches_per_key_axpy<S: Scalar, P: TileOps<S>>(
    o: Seq<S>,
    p: Seq<S>,
    v: Mat<S>,
    kv0: int,
    w: int,
    count: nat,
)
    requires
        crate::lanes::adds_in_lanes::<S, P>(w),
        0 <= kv0,
        v.covers(kv0 + count, o.len() as int),
    ensures
        axpy_per_key(o, p, v, kv0, w, count).len() == o.len(),
        forall|t: int|
            0 <= t < o.len() ==> #[trigger] axpy_per_key(o, p, v, kv0, w, count)[t]
                == absorbed_at::<S, P>(o[t], p, v, kv0, t, o.len() as int, count),
    decreases count,
{
    if count > 0 {
        let h = (count - 1) as nat;
        assert((kv0 + h) * v.cols <= (kv0 + count) * v.cols) by (nonlinear_arith)
            requires
                h <= count,
                0 <= v.cols,
        ;
        accumulate_matches_per_key_axpy::<S, P>(o, p, v, kv0, w, h);
        lemma_row_at(v, kv0 + count - 1, kv0 + count);
        assert forall|t: int| 0 <= t < o.len() implies #[trigger] axpy_per_key(
            o,
            p,
            v,
            kv0,
            w,
            count,
        )[t] == absorbed_at::<S, P>(o[t], p, v, kv0, t, o.len() as int, count) by {
            assert(axpy_per_key(o, p, v, kv0, w, h)[t] == absorbed_at::<S, P>(
                o[t],
                p,
                v,
                kv0,
                t,
                o.len() as int,
                h,
            ));
            assert(v.row_seq(kv0 + count - 1)[t] == v.at(kv0 + count - 1, t));
        }
    }
}

/// Apart from its exponential, the 8-wide path performs the textbook operations.
pub proof fn avx2_is_textbook<S: Exact + Lanes>()
    ensures
        textbook::<S, Avx2>(),
{
    assert forall|a: Seq<S>, b: Seq<S>, bj: int, valid: int|
        finite_upto(a, a.len() as int) && a.len() <= b.len() && finite_upto(
            b,
            a.len() as int,
        ) implies #[trigger] <Avx2 as TileOps<S>>::dot_at(a, b, a.len(), bj, valid) == dot_spec(
        a,
        b,
        a.len(),
    ) by {
        dot4_matches_dot(a, b);
    }
    lemma_axpy_textbook::<S>(8);
}

/// Apart from its exponential, the 16-wide path performs the textbook operations.
pub proof fn avx512_is_textbook<S: Exact + Lanes>()
    ensures
        textbook::<S, Avx512>(),
{
    assert forall|a: Seq<S>, b: Seq<S>, bj: int, valid: int|
        finite_upto(a, a.len() as int) && a.len() <= b.len() && finite_upto(
            b,
            a.len() as int,
        ) implies #[trigger] <Avx512 as TileOps<S>>::dot_at(a, b, a.len(), bj, valid) == dot_spec(
        a,
        b,
        a.len(),
    ) by {
        dot16_matches_dot(a, b);
    }
    lemma_axpy_textbook::<S>(16);
}

/// Fused or not, adding a weighted value is adding a weighted value.
proof fn lemma_axpy_textbook<S: Exact>(w: int)
    ensures
        forall|o: S, p: S, v: S, t: int, d: int|
            o.is_finite_spec() && p.is_finite_spec() && v.is_finite_spec()
                ==> #[trigger] axpy_lane(o, p, v, t, d, w) == o.add_spec(p.mul_spec(v)),
{
    assert forall|o: S, p: S, v: S, t: int, d: int|
        o.is_finite_spec() && p.is_finite_spec() && v.is_finite_spec() implies #[trigger] axpy_lane(
        o,
        p,
        v,
        t,
        d,
        w,
    ) == o.add_spec(p.mul_spec(v)) by {
        S::mul_add_fuses(p, v, o);
        S::mul_is_finite(p, v);
        S::add_commutes(p.mul_spec(v), o);
    }
}

/// How many scores a path exponentiates at once.
pub open spec fn lane_width(path: Path) -> int {
    match path {
        Path::Avx512 => 16,
        Path::Avx2 => 8,
        Path::Portable => 1,
    }
}

/// Score `j` of `n` is exponentiated inside a whole vector of `w` lanes, not in
/// the ragged tail of its tile.
pub open spec fn in_whole_vector(n: int, block: int, w: int, j: int) -> bool {
    j - j / block * block < whole(tile_stop(n, block, j) - j / block * block, w)
}

/// The vectorized exponential is the true one on the arguments that a row hands
/// it. A path without vectors hands it none.
pub open spec fn lanes_exponentiate<S: Lanes>(path: Path, x: Seq<S>) -> bool {
    path != Path::Portable ==> forall|j: int|
        0 <= j < x.len() && in_whole_vector(x.len() as int, BLOCK as int, lane_width(path), j)
            ==> exp_lane_spec(#[trigger] tile_argument(x, BLOCK as int, j)) == tile_argument(
            x,
            BLOCK as int,
            j,
        ).exp_spec()
}

/// The vectorized exponential is finite on the arguments that a row hands it.
pub open spec fn lanes_stay_finite<S: Lanes>(path: Path, x: Seq<S>) -> bool {
    path != Path::Portable ==> forall|j: int|
        0 <= j < x.len() && in_whole_vector(x.len() as int, BLOCK as int, lane_width(path), j)
            ==> exp_lane_spec(#[trigger] tile_argument(x, BLOCK as int, j)).is_finite_spec()
}

/// The weights that the vector kernel gives to the keys of row `i`.
pub open spec fn simd_weights<S: Lanes>(
    path: Path,
    q: Mat<S>,
    k: Mat<S>,
    causal: bool,
    i: int,
) -> Seq<S> {
    match path {
        Path::Avx512 => row_path_weights::<S, Avx512>(q, k, causal, BLOCK as int, i),
        Path::Avx2 => row_path_weights::<S, Avx2>(q, k, causal, BLOCK as int, i),
        Path::Portable => row_path_weights::<S, Portable>(q, k, causal, BLOCK as int, i),
    }
}

/// Finite lanes and finite exponentials in the tails make finite weights.
pub(crate) proof fn lemma_lanes_weigh_finitely<S: Exact + Lanes>(path: Path, x: Seq<S>)
    requires
        finite_upto(x, x.len() as int),
        lanes_stay_finite(path, x),
    ensures
        path == Path::Avx512 ==> weighs_finitely::<S, Avx512>(x, BLOCK as int),
        path == Path::Avx2 ==> weighs_finitely::<S, Avx2>(x, BLOCK as int),
        path == Path::Portable ==> weighs_finitely::<S, Portable>(x, BLOCK as int),
{
    let block = BLOCK as int;
    assert forall|j: int| 0 <= j < x.len() implies (#[trigger] tile_argument(
        x,
        block,
        j,
    )).exp_spec().is_finite_spec() by {
        lemma_tile_max(x, block, j);
        S::exp_is_finite(tile_argument(x, block, j));
    }
    match path {
        Path::Avx512 => {
            assert forall|j: int| 0 <= j < x.len() implies (#[trigger] tile_exp::<S, Avx512>(
                x,
                block,
                j,
            )).is_finite_spec() by {
                assert(tile_argument(x, block, j).exp_spec().is_finite_spec());
            }
        },
        Path::Avx2 => {
            assert forall|j: int| 0 <= j < x.len() implies (#[trigger] tile_exp::<S, Avx2>(
                x,
                block,
                j,
            )).is_finite_spec() by {
                assert(tile_argument(x, block, j).exp_spec().is_finite_spec());
            }
        },
        Path::Portable => {
            assert forall|j: int| 0 <= j < x.len() implies (#[trigger] tile_exp::<S, Portable>(
                x,
                block,
                j,
            )).is_finite_spec() by {
                assert(tile_argument(x, block, j).exp_spec().is_finite_spec());
            }
        },
    }
}

/// True lanes and true exponentials in the tails make true exponentials.
proof fn lemma_lanes_exponentiate<S: Lanes>(path: Path, x: Seq<S>)
    requires
        lanes_exponentiate(path, x),
    ensures
        path == Path::Avx512 ==> exponentiates::<S, Avx512>(x, BLOCK as int),
        path == Path::Avx2 ==> exponentiates::<S, Avx2>(x, BLOCK as int),
{
}

/// Whatever path the dispatch takes and whatever its exponential is, the output
/// is an average of the values that the row may attend to, with the weights that
/// the path gave them.
pub proof fn simd_output_is_a_mean<S: Exact + Lanes>(
    path: Path,
    q: Mat<S>,
    k: Mat<S>,
    v: Mat<S>,
    causal: bool,
    i: int,
    t: int,
)
    requires
        attends(q, k, v),
        finite_inputs(q, k, v),
        0 <= i < q.rows,
        0 <= t < q.cols,
        lanes_stay_finite(path, live_scores(q, k, causal, i)),
        sum_of(
            simd_weights(path, q, k, causal, i),
            reach(q.rows as int, causal, i) as nat,
        ) != S::zero_spec(),
    ensures
        simd_at(path, q, k, v, causal, i, t) == mean(
            simd_weights(path, q, k, causal, i),
            v,
            t,
            reach(q.rows as int, causal, i) as nat,
        ),
{
    let x = live_scores(q, k, causal, i);
    lemma_scores_finite(q, k, v, causal, i);
    lemma_lanes_weigh_finitely(path, x);
    match path {
        Path::Avx512 => {
            avx512_is_textbook::<S>();
            tiled_output_is_a_mean::<S, Avx512>(q, k, v, causal, BLOCK as int, i, t);
        },
        Path::Avx2 => {
            avx2_is_textbook::<S>();
            tiled_output_is_a_mean::<S, Avx2>(q, k, v, causal, BLOCK as int, i, t);
        },
        Path::Portable => {
            portable_is_textbook::<S>();
            tiled_output_is_a_mean::<S, Portable>(q, k, v, causal, BLOCK as int, i, t);
        },
    }
}

/// Whatever path the dispatch takes, the result is the naive kernel's, as far as
/// the vectorized exponential is the true one on what the row hands it.
pub proof fn simd_matches_naive<S: Exact + Lanes>(
    path: Path,
    q: Mat<S>,
    k: Mat<S>,
    v: Mat<S>,
    causal: bool,
    i: int,
    t: int,
)
    requires
        lanes_exponentiate(path, live_scores(q, k, causal, i)),
        attends(q, k, v),
        finite_inputs(q, k, v),
        0 <= i < q.rows,
        0 <= t < q.cols,
        normalizer(q, k, causal, i) != S::zero_spec(),
    ensures
        simd_at(path, q, k, v, causal, i, t) == naive_at(q, k, v, causal, i, t),
{
    lemma_lanes_exponentiate(path, live_scores(q, k, causal, i));
    match path {
        Path::Avx512 => {
            avx512_is_textbook::<S>();
            tiling_is_exact::<S, Avx512>(q, k, v, causal, BLOCK as int, i, t);
        },
        Path::Avx2 => {
            avx2_is_textbook::<S>();
            tiling_is_exact::<S, Avx2>(q, k, v, causal, BLOCK as int, i, t);
        },
        Path::Portable => {
            tiled_matches_naive(q, k, v, causal, BLOCK as int, i, t);
        },
    }
}

/// A row that may attend to fewer keys than a vector has lanes never reaches the
/// vectorized exponential: there the vector kernels give the naive result
/// without further ado.
pub proof fn short_rows_match_naive<S: Exact + Lanes>(
    path: Path,
    q: Mat<S>,
    k: Mat<S>,
    v: Mat<S>,
    causal: bool,
    i: int,
    t: int,
)
    requires
        reach(q.rows as int, causal, i) < lane_width(path) || path == Path::Portable,
        attends(q, k, v),
        finite_inputs(q, k, v),
        0 <= i < q.rows,
        0 <= t < q.cols,
        normalizer(q, k, causal, i) != S::zero_spec(),
    ensures
        simd_at(path, q, k, v, causal, i, t) == naive_at(q, k, v, causal, i, t),
{
    let x = live_scores(q, k, causal, i);
    if path != Path::Portable {
        let w = lane_width(path);
        let n = x.len() as int;
        assert forall|j: int| 0 <= j < n implies !in_whole_vector(n, BLOCK as int, w, j) by {
            assert(j / BLOCK as int == 0);
            assert(tile_stop(n, BLOCK as int, j) == n);
            lemma_whole_bounds(n, w);
            assert(n / w == 0);
            assert(whole(n, w) == 0);
        }
        assert(lanes_exponentiate(path, x));
    }
    simd_matches_naive(path, q, k, v, causal, i, t);
}

/// On the ring the vectorized exponential is not the exponential, but it is
/// always a number.
pub proof fn ring_lanes_stay_finite(path: Path, x: Seq<Ring64>)
    requires
        finite_upto(x, x.len() as int),
    ensures
        lanes_stay_finite(path, x),
{
    assert forall|j: int| 0 <= j < x.len() implies exp_lane_spec(
        #[trigger] tile_argument(x, BLOCK as int, j),
    ).is_finite_spec() by {
        lemma_tile_max(x, BLOCK as int, j);
    }
}

} // verus!
