//! Outputs are averages: they never leave the range of the values they average.
use crate::avx512::Avx512;
use crate::laws::maxima::lemma_max_is_largest;
use crate::laws::paths::{
    avx2_is_textbook, avx512_is_textbook, in_whole_vector, lane_width, lanes_stay_finite,
    lemma_lanes_weigh_finitely, short_rows_match_naive, simd_weights,
};
use crate::laws::softmax::{
    finite_inputs, invertible, lemma_naive, lemma_normalizer, lemma_path_weights_finite,
    lemma_scores_finite, lemma_sum_positive, lemma_tile_max, lemma_weights_finite, live_scores,
    mean, normalizer, path_weights, portable_is_textbook, row_path_weights, row_weights, textbook,
    tile_argument, tile_exp, tile_max, tiled_matches_naive, tiled_output_is_a_mean, weighs_finitely,
};
use crate::laws::sums::{finite_upto, lemma_mix_finite, lemma_sum_finite, lemma_sum_scales};
use crate::mat::Mat;
use crate::naive::naive_at;
use crate::scalar::{Exact, Lanes, Scalar};
use crate::score::{attends, max_of, mix, reach, sum_of};
use crate::simd::{simd_at, Avx2, Path};
use crate::tiled::{tiled_at, Portable, TileOps, BLOCK};
use crate::vexp::exp_lane_spec;
use vstd::prelude::*;

verus! {

/// The order goes with the arithmetic, as it does for the real numbers: adding
/// keeps it, multiplying with a positive number keeps it, and positive numbers
/// stay positive under addition, multiplication and reciprocals.
///
/// No number type of this library meets this. Such an order has no largest
/// number, so no type of a fixed width has one; on the ring adding wraps around.
pub open spec fn order_fits<S: Scalar>(positive: spec_fn(S) -> bool) -> bool {
    &&& !positive(S::zero_spec())
    &&& forall|a: S, b: S| positive(a) && positive(b) ==> positive(#[trigger] a.add_spec(b))
    &&& forall|a: S, b: S| positive(a) && positive(b) ==> positive(#[trigger] a.mul_spec(b))
    &&& forall|a: S|
        positive(a) ==> positive(#[trigger] S::one_spec().div_spec(a))
    &&& forall|a: S, b: S, c: S, d: S|
        a.is_finite_spec() && b.is_finite_spec() && c.is_finite_spec() && d.is_finite_spec()
            && !a.greater_than_spec(b) && !c.greater_than_spec(d) ==> !(#[trigger] a.add_spec(
            c,
        )).greater_than_spec(#[trigger] b.add_spec(d))
    &&& forall|p: S, a: S, b: S|
        p.is_finite_spec() && a.is_finite_spec() && b.is_finite_spec() && positive(p)
            && !a.greater_than_spec(b) ==> !(#[trigger] p.mul_spec(a)).greater_than_spec(
            #[trigger] p.mul_spec(b),
        )
}

/// `lo` and `hi` bound the values that the first `k` rows have in column `t`.
pub open spec fn bounded<S: Scalar>(v: Mat<S>, t: int, k: int, lo: S, hi: S) -> bool {
    &&& lo.is_finite_spec()
    &&& hi.is_finite_spec()
    &&& forall|j: int|
        0 <= j < k ==> !lo.greater_than_spec(#[trigger] v.at(j, t)) && !v.at(
            j,
            t,
        ).greater_than_spec(hi)
}

/// A sum of products compares as its terms do.
proof fn lemma_mix_bounds<S: Exact>(
    positive: spec_fn(S) -> bool,
    w: Seq<S>,
    below: Seq<S>,
    above: Seq<S>,
    v: Mat<S>,
    t: int,
    k: nat,
    lo: S,
    hi: S,
)
    requires
        order_fits(positive),
        finite_upto(w, k as int),
        forall|j: int| 0 <= j < k ==> positive(#[trigger] w[j]),
        forall|j: int| 0 <= j < k ==> (#[trigger] v.at(j, t)).is_finite_spec(),
        bounded(v, t, k as int, lo, hi),
        forall|j: int| 0 <= j < k ==> #[trigger] below[j] == w[j].mul_spec(lo),
        forall|j: int| 0 <= j < k ==> #[trigger] above[j] == w[j].mul_spec(hi),
    ensures
        finite_upto(below, k as int),
        finite_upto(above, k as int),
        !sum_of(below, k).greater_than_spec(mix(S::zero_spec(), w, v, t, k)),
        !mix(S::zero_spec(), w, v, t, k).greater_than_spec(sum_of(above, k)),
    decreases k,
{
    S::zero_is_finite();
    assert forall|j: int| 0 <= j < k implies (#[trigger] below[j]).is_finite_spec() by {
        assert(w[j].is_finite_spec());
        S::mul_is_finite(w[j], lo);
    }
    assert forall|j: int| 0 <= j < k implies (#[trigger] above[j]).is_finite_spec() by {
        assert(w[j].is_finite_spec());
        S::mul_is_finite(w[j], hi);
    }
    if k == 0 {
        S::order_is_total(S::zero_spec(), S::zero_spec());
    } else {
        let h = (k - 1) as nat;
        lemma_mix_bounds(positive, w, below, above, v, t, h, lo, hi);
        lemma_sum_finite(below, h);
        lemma_sum_finite(above, h);
        lemma_mix_finite(w, v, t, h);
        let x = v.at(k - 1, t);
        let p = w[k - 1];
        assert(positive(p) && p.is_finite_spec() && x.is_finite_spec());
        assert(!lo.greater_than_spec(x) && !x.greater_than_spec(hi));
        S::mul_is_finite(p, x);
        assert(!p.mul_spec(lo).greater_than_spec(p.mul_spec(x)));
        assert(!p.mul_spec(x).greater_than_spec(p.mul_spec(hi)));
        assert(below[k - 1] == p.mul_spec(lo));
        assert(above[k - 1] == p.mul_spec(hi));
        let m = mix(S::zero_spec(), w, v, t, h);
        assert(!sum_of(below, h).add_spec(below[k - 1]).greater_than_spec(
            m.add_spec(p.mul_spec(x)),
        ));
        assert(!m.add_spec(p.mul_spec(x)).greater_than_spec(
            sum_of(above, h).add_spec(above[k - 1]),
        ));
    }
}

/// Scaling by the reciprocal of `z` undoes scaling by `z`.
proof fn lemma_unscaled<S: Exact>(z: S, a: S)
    requires
        z.is_finite_spec(),
        a.is_finite_spec(),
        z != S::zero_spec(),
        invertible(z),
    ensures
        S::one_spec().div_spec(z).mul_spec(z.mul_spec(a)) == a,
{
    let inv = S::one_spec().div_spec(z);
    S::reciprocal_is_finite(z);
    S::mul_associates(inv, z, a);
    S::mul_commutes(inv, z);
    S::one_is_finite();
    S::mul_commutes(S::one_spec(), a);
    S::mul_one(a);
}

/// An average with positive weights lies between bounds of what it averages.
pub proof fn means_stay_in_range<S: Exact>(
    positive: spec_fn(S) -> bool,
    w: Seq<S>,
    v: Mat<S>,
    t: int,
    k: nat,
    lo: S,
    hi: S,
)
    requires
        order_fits(positive),
        k > 0,
        finite_upto(w, k as int),
        forall|j: int| 0 <= j < k ==> positive(#[trigger] w[j]),
        forall|j: int| 0 <= j < k ==> (#[trigger] v.at(j, t)).is_finite_spec(),
        bounded(v, t, k as int, lo, hi),
        invertible(sum_of(w, k)),
    ensures
        sum_of(w, k) != S::zero_spec(),
        mean(w, v, t, k).is_finite_spec(),
        !lo.greater_than_spec(mean(w, v, t, k)),
        !mean(w, v, t, k).greater_than_spec(hi),
{
    let below = Seq::new(k, |j: int| w[j].mul_spec(lo));
    let above = Seq::new(k, |j: int| w[j].mul_spec(hi));
    lemma_mix_bounds(positive, w, below, above, v, t, k, lo, hi);
    lemma_sum_scales(w, below, lo, k);
    lemma_sum_scales(w, above, hi, k);
    let z = sum_of(w, k);
    let m = mix(S::zero_spec(), w, v, t, k);
    lemma_sum_finite(w, k);
    lemma_mix_finite(w, v, t, k);
    assert forall|j: int| 0 <= j < k implies (#[trigger] w[j]).is_finite_spec() && positive(
        w[j],
    ) by {}
    lemma_sum_positive(positive, w, k);
    assert(positive(z));
    let inv = S::one_spec().div_spec(z);
    S::reciprocal_is_finite(z);
    assert(positive(inv));
    S::mul_is_finite(z, lo);
    S::mul_is_finite(z, hi);
    S::mul_is_finite(m, inv);
    assert(!inv.mul_spec(z.mul_spec(lo)).greater_than_spec(inv.mul_spec(m)));
    assert(!inv.mul_spec(m).greater_than_spec(inv.mul_spec(z.mul_spec(hi))));
    lemma_unscaled(z, lo);
    lemma_unscaled(z, hi);
    S::mul_commutes(inv, m);
}

/// Every output of the naive kernel is finite and lies between the least and the
/// largest of the values that its row may attend to, however large the scores.
pub proof fn naive_output_stays_in_range<S: Exact>(
    positive: spec_fn(S) -> bool,
    q: Mat<S>,
    k: Mat<S>,
    v: Mat<S>,
    causal: bool,
    i: int,
    t: int,
    lo: S,
    hi: S,
)
    requires
        order_fits(positive),
        forall|a: S| a.is_finite_spec() ==> positive(#[trigger] a.exp_spec()),
        attends(q, k, v),
        finite_inputs(q, k, v),
        0 <= i < q.rows,
        0 <= t < q.cols,
        bounded(v, t, reach(q.rows as int, causal, i), lo, hi),
        normalizer(q, k, causal, i) != S::zero_spec(),
        invertible(normalizer(q, k, causal, i)),
    ensures
        naive_at(q, k, v, causal, i, t).is_finite_spec(),
        !lo.greater_than_spec(naive_at(q, k, v, causal, i, t)),
        !naive_at(q, k, v, causal, i, t).greater_than_spec(hi),
{
    let r = reach(q.rows as int, causal, i) as nat;
    let x = live_scores(q, k, causal, i);
    lemma_scores_finite(q, k, v, causal, i);
    lemma_naive(q, k, v, causal, i, t);
    let m = max_of(x, r);
    let w = row_weights(x, m);
    lemma_weights_finite(x, m, r as int);
    assert forall|j: int| 0 <= j < r implies positive(#[trigger] w[j]) by {
        S::sub_is_finite(x[j], m);
    }
    means_stay_in_range(positive, w, v, t, r, lo, hi);
}

/// So does every output of a tiled kernel, on any path whose exponentials of the
/// row are positive.
pub proof fn tiled_output_stays_in_range<S: Exact, P: TileOps<S>>(
    positive: spec_fn(S) -> bool,
    q: Mat<S>,
    k: Mat<S>,
    v: Mat<S>,
    causal: bool,
    block: int,
    i: int,
    t: int,
    lo: S,
    hi: S,
)
    requires
        order_fits(positive),
        forall|a: S| a.is_finite_spec() ==> positive(#[trigger] a.exp_spec()),
        textbook::<S, P>(),
        attends(q, k, v),
        finite_inputs(q, k, v),
        block > 0,
        0 <= i < q.rows,
        0 <= t < q.cols,
        bounded(v, t, reach(q.rows as int, causal, i), lo, hi),
        weighs_finitely::<S, P>(live_scores(q, k, causal, i), block),
        forall|j: int|
            0 <= j < reach(q.rows as int, causal, i) ==> positive(
                #[trigger] tile_exp::<S, P>(live_scores(q, k, causal, i), block, j),
            ),
        invertible(
            sum_of(
                row_path_weights::<S, P>(q, k, causal, block, i),
                reach(q.rows as int, causal, i) as nat,
            ),
        ),
    ensures
        tiled_at::<S, P>(q, k, v, causal, block, i, t).is_finite_spec(),
        !lo.greater_than_spec(tiled_at::<S, P>(q, k, v, causal, block, i, t)),
        !tiled_at::<S, P>(q, k, v, causal, block, i, t).greater_than_spec(hi),
{
    let r = reach(q.rows as int, causal, i) as nat;
    let x = live_scores(q, k, causal, i);
    lemma_scores_finite(q, k, v, causal, i);
    lemma_max_is_largest(x, r);
    let m = max_of(x, r);
    let w = path_weights::<S, P>(x, block, m);
    lemma_path_weights_finite::<S, P>(x, block, m, r as int);
    assert forall|j: int| 0 <= j < r implies positive(#[trigger] w[j]) by {
        lemma_tile_max(x, block, j);
        S::sub_is_finite(tile_max(x, block, j), m);
        assert(positive(tile_exp::<S, P>(x, block, j)));
    }
    means_stay_in_range(positive, w, v, t, r, lo, hi);
    tiled_output_is_a_mean::<S, P>(q, k, v, causal, block, i, t);
}

/// So does every output of the vector kernels, where the lanes of the vectorized
/// exponential are finite and positive.
pub proof fn simd_output_stays_in_range<S: Exact + Lanes>(
    positive: spec_fn(S) -> bool,
    path: Path,
    q: Mat<S>,
    k: Mat<S>,
    v: Mat<S>,
    causal: bool,
    i: int,
    t: int,
    lo: S,
    hi: S,
)
    requires
        order_fits(positive),
        forall|a: S| a.is_finite_spec() ==> positive(#[trigger] a.exp_spec()),
        attends(q, k, v),
        finite_inputs(q, k, v),
        0 <= i < q.rows,
        0 <= t < q.cols,
        bounded(v, t, reach(q.rows as int, causal, i), lo, hi),
        lanes_stay_finite(path, live_scores(q, k, causal, i)),
        path != Path::Portable ==> forall|j: int|
            0 <= j < reach(q.rows as int, causal, i) && in_whole_vector(
                reach(q.rows as int, causal, i),
                BLOCK as int,
                lane_width(path),
                j,
            ) ==> positive(
                exp_lane_spec(
                    #[trigger] tile_argument(live_scores(q, k, causal, i), BLOCK as int, j),
                ),
            ),
        invertible(
            sum_of(
                simd_weights(path, q, k, causal, i),
                reach(q.rows as int, causal, i) as nat,
            ),
        ),
    ensures
        simd_at(path, q, k, v, causal, i, t).is_finite_spec(),
        !lo.greater_than_spec(simd_at(path, q, k, v, causal, i, t)),
        !simd_at(path, q, k, v, causal, i, t).greater_than_spec(hi),
{
    let r = reach(q.rows as int, causal, i);
    let x = live_scores(q, k, causal, i);
    let block = BLOCK as int;
    lemma_scores_finite(q, k, v, causal, i);
    lemma_lanes_weigh_finitely(path, x);
    assert forall|j: int| 0 <= j < r implies positive(
        (#[trigger] tile_argument(x, block, j)).exp_spec(),
    ) by {
        lemma_tile_max(x, block, j);
    }
    match path {
        Path::Avx512 => {
            avx512_is_textbook::<S>();
            assert forall|j: int| 0 <= j < r implies positive(
                #[trigger] tile_exp::<S, Avx512>(x, block, j),
            ) by {
                assert(positive(tile_argument(x, block, j).exp_spec()));
            }
            tiled_output_stays_in_range::<S, Avx512>(
                positive,
                q,
                k,
                v,
                causal,
                block,
                i,
                t,
                lo,
                hi,
            );
        },
        Path::Avx2 => {
            avx2_is_textbook::<S>();
            assert forall|j: int| 0 <= j < r implies positive(
                #[trigger] tile_exp::<S, Avx2>(x, block, j),
            ) by {
                assert(positive(tile_argument(x, block, j).exp_spec()));
            }
            tiled_output_stays_in_range::<S, Avx2>(
                positive,
                q,
                k,
                v,
                causal,
                block,
                i,
                t,
                lo,
                hi,
            );
        },
        Path::Portable => {
            portable_is_textbook::<S>();
            assert forall|j: int| 0 <= j < r implies positive(
                #[trigger] tile_exp::<S, Portable>(x, block, j),
            ) by {
                assert(positive(tile_argument(x, block, j).exp_spec()));
            }
            tiled_output_stays_in_range::<S, Portable>(
                positive,
                q,
                k,
                v,
                causal,
                block,
                i,
                t,
                lo,
                hi,
            );
        },
    }
}

/// The first query under a causal mask has one key to attend to, so its output
/// is the first value: in the naive kernel, in the tiled one at every tile size,
/// and on every vector path.
pub proof fn first_causal_row_is_the_first_value<S: Exact + Lanes>(
    path: Path,
    q: Mat<S>,
    k: Mat<S>,
    v: Mat<S>,
    block: int,
    t: int,
)
    requires
        S::one_spec() != S::zero_spec(),
        invertible(S::one_spec()),
        attends(q, k, v),
        finite_inputs(q, k, v),
        q.rows > 0,
        block > 0,
        0 <= t < q.cols,
    ensures
        naive_at(q, k, v, true, 0, t) == v.at(0, t),
        tiled_at::<S, Portable>(q, k, v, true, block, 0, t) == v.at(0, t),
        simd_at(path, q, k, v, true, 0, t) == v.at(0, t),
{
    let x = live_scores(q, k, true, 0);
    lemma_scores_finite(q, k, v, true, 0);
    lemma_max_is_largest(x, 1);
    let m = max_of(x, 1);
    assert(m == x[0]);
    let w = row_weights(x, m);
    S::exp_of_nothing(m);
    S::zero_is_finite();
    S::one_is_finite();
    S::add_commutes(S::zero_spec(), S::one_spec());
    S::add_zero(S::one_spec());
    reveal_with_fuel(sum_of, 2);
    reveal_with_fuel(mix, 2);
    assert(w[0] == S::one_spec());
    assert(sum_of(w, 1) == S::one_spec());
    lemma_normalizer(q, k, v, true, 0);
    lemma_naive(q, k, v, true, 0, t);
    // 0 + 1 * v = v, and v * (1 / 1) = v.
    let a = v.at(0, t);
    assert(a.is_finite_spec());
    S::mul_commutes(S::one_spec(), a);
    S::mul_one(a);
    S::add_commutes(S::zero_spec(), a);
    S::add_zero(a);
    let inv = S::one_spec().div_spec(S::one_spec());
    S::reciprocal_is_finite(S::one_spec());
    S::mul_commutes(S::one_spec(), inv);
    S::mul_one(inv);
    assert(inv == S::one_spec());
    tiled_matches_naive(q, k, v, true, block, 0, t);
    short_rows_match_naive(path, q, k, v, true, 0, t);
}

} // verus!
