//! How the results of the kernels' entry points relate to each other.
use crate::avx512;
use crate::laws::attention::{are_scores, lemma_average, mass, weighed, well_posed};
use crate::laws::masks::{
    is_top, large_tiles_are_one_tile, last_row_ignores_the_mask, permuting_queries_permutes_rows,
    simd_causal_row_is_a_row_of_the_cut, tiled_causal_row_is_a_row_of_the_cut,
};
use crate::laws::paths::{lanes_exponentiate, short_rows_match_naive, simd_matches_naive};
use crate::laws::softmax::live_scores;
use crate::laws::terms::{entry, lemma_same_data, seen, shaped_like};
use crate::mat::{abs_diff_max, max_abs_diff, Mat};
use crate::multihead;
use crate::naive;
use crate::report::kernels_agree;
use crate::roofline::{is_kernel_output, run_kernel};
use crate::scalar::{ratio_spec, Exact, Lanes, Scalar};
use crate::score::attends;
use crate::simd;
use crate::simd::{is_attention, select, select_spec, Avx2, Cpu, Path};
use crate::sweep::run_for;
use crate::tiled;
use crate::tiled::{Portable, BLOCK};
use vstd::prelude::*;

verus! {

/// Sixteen lanes where the build carries them and the CPU has them.
pub open spec fn has_sixteen(cpu: Cpu) -> bool {
    cpu.x86_64 && cpu.avx512_built && cpu.avx512f
}

/// Eight lanes where the CPU has both what they need.
pub open spec fn has_eight(cpu: Cpu) -> bool {
    cpu.x86_64 && cpu.avx2 && cpu.fma
}

/// Scores that a CPU exponentiates at once.
pub open spec fn lanes_of(cpu: Cpu) -> int {
    if has_sixteen(cpu) {
        16
    } else if has_eight(cpu) {
        8
    } else {
        1
    }
}

/// The widest path that a CPU can take is taken.
pub proof fn the_widest_path_is_taken(cpu: Cpu, path: Path)
    requires
        call_ensures(select, (cpu,), path),
    ensures
        path == Path::Avx512 <==> has_sixteen(cpu),
        path == Path::Avx2 <==> has_eight(cpu) && !has_sixteen(cpu),
        path == Path::Portable <==> !has_eight(cpu) && !has_sixteen(cpu),
{
}

/// The dispatching kernel gives the words of the path that it takes: those of the
/// 16-lane kernel, of the 8-lane one, or of the portable one.
pub proof fn dispatching_changes_no_word<S: Lanes>(
    q: &Mat<S>,
    k: &Mat<S>,
    v: &Mat<S>,
    causal: bool,
    cpu: Cpu,
    out: Mat<S>,
    sixteen: Mat<S>,
    eight: Mat<S>,
    portable: Mat<S>,
)
    requires
        attends(*q, *k, *v),
        call_ensures(simd::attention::<S>, (q, k, v, causal, cpu), out),
        call_ensures(avx512::attention::<S>, (q, k, v, causal), sixteen),
        call_ensures(simd::attention_avx2::<S>, (q, k, v, causal), eight),
        call_ensures(tiled::attention::<S>, (q, k, v, causal), portable),
    ensures
        has_sixteen(cpu) ==> out.data@ == sixteen.data@,
        has_eight(cpu) && !has_sixteen(cpu) ==> out.data@ == eight.data@,
        !has_eight(cpu) && !has_sixteen(cpu) ==> out.data@ == portable.data@,
{
    let want = if has_sixteen(cpu) {
        sixteen
    } else if has_eight(cpu) {
        eight
    } else {
        portable
    };
    assert forall|i: int, t: int| 0 <= i < out.rows && 0 <= t < out.cols implies #[trigger] entry(
        out,
        i,
        t,
    ) == entry(want, i, t) by {
        assert(out.at(i, t) == want.at(i, t));
    }
    lemma_same_data(out, want);
}

/// Every head of a multi-head pass is what the single-head kernel gives for that
/// head alone, under the mask that was asked for.
pub proof fn heads_are_single_heads<S: Lanes>(
    q: &[Mat<S>],
    k: &[Mat<S>],
    v: &[Mat<S>],
    causal: bool,
    cpu: Cpu,
    out: Vec<Mat<S>>,
    h: int,
    alone: Mat<S>,
)
    requires
        multihead::heads_attend(q@, k@, v@),
        call_ensures(multihead::attention::<S>, (q, k, v, causal, cpu), out),
        0 <= h < q@.len(),
        call_ensures(simd::attention::<S>, (&q@[h], &k@[h], &v@[h], causal, cpu), alone),
    ensures
        out@.len() == q@.len(),
        shaped_like(out@[h], q@[h]),
        out@[h].data@ == alone.data@,
{
    lemma_head_alone(out@, q@, k@, v@, causal, cpu, 0, h, alone);
}

/// So is every head of one worker's share.
pub proof fn shares_are_single_heads<S: Lanes>(
    q: &[Mat<S>],
    k: &[Mat<S>],
    v: &[Mat<S>],
    causal: bool,
    cpu: Cpu,
    lo: usize,
    hi: usize,
    out: Vec<Mat<S>>,
    h: int,
    alone: Mat<S>,
)
    requires
        multihead::heads_attend(q@, k@, v@),
        call_ensures(multihead::attention_chunk::<S>, (q, k, v, causal, cpu, lo, hi), out),
        lo <= h < hi <= q@.len(),
        call_ensures(simd::attention::<S>, (&q@[h], &k@[h], &v@[h], causal, cpu), alone),
    ensures
        out@.len() == hi - lo,
        shaped_like(out@[h - lo], q@[h]),
        out@[h - lo].data@ == alone.data@,
{
    lemma_head_alone(out@, q@, k@, v@, causal, cpu, lo as int, h, alone);
}

proof fn lemma_head_alone<S: Lanes>(
    out: Seq<Mat<S>>,
    q: Seq<Mat<S>>,
    k: Seq<Mat<S>>,
    v: Seq<Mat<S>>,
    causal: bool,
    cpu: Cpu,
    lo: int,
    h: int,
    alone: Mat<S>,
)
    requires
        lo <= h,
        is_attention(out[h - lo], select_spec(cpu), q[h], k[h], v[h], causal),
        is_attention(alone, select_spec(cpu), q[h], k[h], v[h], causal),
    ensures
        shaped_like(out[h - lo], q[h]),
        out[h - lo].data@ == alone.data@,
{
    let one = out[h - lo];
    assert forall|i: int, t: int| 0 <= i < one.rows && 0 <= t < one.cols implies #[trigger] entry(
        one,
        i,
        t,
    ) == entry(alone, i, t) by {
        assert(one.at(i, t) == alone.at(i, t));
    }
    lemma_same_data(one, alone);
}

/// Row `i` under a causal mask is row `i` of the problem cut off after it, without
/// a mask, whichever kernel computes both and in whatever arithmetic.
pub proof fn causal_results_are_results_of_the_cut<S: Lanes, const B: usize>(
    q: &Mat<S>,
    k: &Mat<S>,
    v: &Mat<S>,
    q1: &Mat<S>,
    k1: &Mat<S>,
    v1: &Mat<S>,
    cpu: Cpu,
    i: int,
    t: int,
    tile: (Mat<S>, Mat<S>),
    sized: (Mat<S>, Mat<S>),
    eight: (Mat<S>, Mat<S>),
    sixteen: (Mat<S>, Mat<S>),
    any: (Mat<S>, Mat<S>),
)
    requires
        attends(*q, *k, *v),
        0 < B,
        0 <= i < q.rows,
        0 <= t < q.cols,
        is_top(*q1, *q, i + 1),
        is_top(*k1, *k, i + 1),
        is_top(*v1, *v, i + 1),
        call_ensures(tiled::attention::<S>, (q, k, v, true), tile.0),
        call_ensures(tiled::attention::<S>, (q1, k1, v1, false), tile.1),
        call_ensures(tiled::attention_b::<S, B>, (q, k, v, true), sized.0),
        call_ensures(tiled::attention_b::<S, B>, (q1, k1, v1, false), sized.1),
        call_ensures(simd::attention_avx2::<S>, (q, k, v, true), eight.0),
        call_ensures(simd::attention_avx2::<S>, (q1, k1, v1, false), eight.1),
        call_ensures(avx512::attention::<S>, (q, k, v, true), sixteen.0),
        call_ensures(avx512::attention::<S>, (q1, k1, v1, false), sixteen.1),
        call_ensures(simd::attention::<S>, (q, k, v, true, cpu), any.0),
        call_ensures(simd::attention::<S>, (q1, k1, v1, false, cpu), any.1),
    ensures
        entry(tile.0, i, t) == entry(tile.1, i, t),
        entry(sized.0, i, t) == entry(sized.1, i, t),
        entry(eight.0, i, t) == entry(eight.1, i, t),
        entry(sixteen.0, i, t) == entry(sixteen.1, i, t),
        entry(any.0, i, t) == entry(any.1, i, t),
{
    let block = BLOCK as int;
    tiled_causal_row_is_a_row_of_the_cut::<S, Portable>(*q, *k, *v, *q1, *k1, *v1, block, i, t);
    tiled_causal_row_is_a_row_of_the_cut::<S, Portable>(
        *q,
        *k,
        *v,
        *q1,
        *k1,
        *v1,
        B as int,
        i,
        t,
    );
    simd_causal_row_is_a_row_of_the_cut(Path::Avx2, *q, *k, *v, *q1, *k1, *v1, i, t);
    simd_causal_row_is_a_row_of_the_cut(Path::Avx512, *q, *k, *v, *q1, *k1, *v1, i, t);
    simd_causal_row_is_a_row_of_the_cut(select_spec(cpu), *q, *k, *v, *q1, *k1, *v1, i, t);
    assert(tile.0.at(i, t) == tile.1.at(i, t));
    assert(sized.0.at(i, t) == sized.1.at(i, t));
    assert(eight.0.at(i, t) == eight.1.at(i, t));
    assert(sixteen.0.at(i, t) == sixteen.1.at(i, t));
    assert(any.0.at(i, t) == any.1.at(i, t));
}

/// The last query may attend to every key under either mask, so its row is the same
/// under both, whichever kernel computes it and in whatever arithmetic.
pub proof fn last_rows_are_the_same_under_both_masks<S: Lanes>(
    q: &Mat<S>,
    k: &Mat<S>,
    v: &Mat<S>,
    cpu: Cpu,
    t: int,
    base: (Mat<S>, Mat<S>),
    tile: (Mat<S>, Mat<S>),
    any: (Mat<S>, Mat<S>),
)
    requires
        attends(*q, *k, *v),
        q.rows > 0,
        0 <= t < q.cols,
        call_ensures(naive::attention::<S>, (q, k, v, true), base.0),
        call_ensures(naive::attention::<S>, (q, k, v, false), base.1),
        call_ensures(tiled::attention::<S>, (q, k, v, true), tile.0),
        call_ensures(tiled::attention::<S>, (q, k, v, false), tile.1),
        call_ensures(simd::attention::<S>, (q, k, v, true, cpu), any.0),
        call_ensures(simd::attention::<S>, (q, k, v, false, cpu), any.1),
    ensures
        entry(base.0, q.rows - 1, t) == entry(base.1, q.rows - 1, t),
        entry(tile.0, q.rows - 1, t) == entry(tile.1, q.rows - 1, t),
        entry(any.0, q.rows - 1, t) == entry(any.1, q.rows - 1, t),
{
    let i = q.rows - 1;
    let block = BLOCK as int;
    last_row_ignores_the_mask::<S, Portable>(*q, *k, *v, block, t);
    last_row_ignores_the_mask::<S, Avx2>(*q, *k, *v, block, t);
    last_row_ignores_the_mask::<S, avx512::Avx512>(*q, *k, *v, block, t);
    assert(base.0.at(i, t) == base.1.at(i, t));
    assert(tile.0.at(i, t) == tile.1.at(i, t));
    assert(any.0.at(i, t) == any.1.at(i, t));
}

/// Tile sizes of at least the whole length give the same words, in whatever
/// arithmetic.
pub proof fn tiles_past_the_end_are_alike<S: Scalar, const B: usize, const C: usize>(
    q: &Mat<S>,
    k: &Mat<S>,
    v: &Mat<S>,
    causal: bool,
    a: Mat<S>,
    b: Mat<S>,
)
    requires
        attends(*q, *k, *v),
        q.rows <= B,
        q.rows <= C,
        call_ensures(tiled::attention_b::<S, B>, (q, k, v, causal), a),
        call_ensures(tiled::attention_b::<S, C>, (q, k, v, causal), b),
    ensures
        a.data@ == b.data@,
{
    assert forall|i: int, t: int| 0 <= i < a.rows && 0 <= t < a.cols implies #[trigger] entry(
        a,
        i,
        t,
    ) == entry(b, i, t) by {
        large_tiles_are_one_tile::<S, Portable>(*q, *k, *v, causal, B as int, C as int, i, t);
        assert(a.at(i, t) == b.at(i, t));
    }
    lemma_same_data(a, b);
}

/// Permuting the queries permutes the rows of the result without a mask, whichever
/// kernel computes it and in whatever arithmetic.
pub proof fn permuted_queries_give_permuted_results<S: Lanes>(
    p: Seq<int>,
    q: &Mat<S>,
    q2: &Mat<S>,
    k: &Mat<S>,
    v: &Mat<S>,
    cpu: Cpu,
    i: int,
    t: int,
    base: (Mat<S>, Mat<S>),
    tile: (Mat<S>, Mat<S>),
    any: (Mat<S>, Mat<S>),
)
    requires
        attends(*q, *k, *v),
        attends(*q2, *k, *v),
        q2.rows == q.rows,
        q2.cols == q.cols,
        forall|j: int|
            0 <= j < q.rows ==> 0 <= #[trigger] p[j] < q.rows && q2.row_seq(j) == q.row_seq(p[j]),
        0 <= i < q.rows,
        0 <= t < q.cols,
        call_ensures(naive::attention::<S>, (q, k, v, false), base.0),
        call_ensures(naive::attention::<S>, (q2, k, v, false), base.1),
        call_ensures(tiled::attention::<S>, (q, k, v, false), tile.0),
        call_ensures(tiled::attention::<S>, (q2, k, v, false), tile.1),
        call_ensures(simd::attention::<S>, (q, k, v, false, cpu), any.0),
        call_ensures(simd::attention::<S>, (q2, k, v, false, cpu), any.1),
    ensures
        entry(base.1, i, t) == entry(base.0, p[i], t),
        entry(tile.1, i, t) == entry(tile.0, p[i], t),
        entry(any.1, i, t) == entry(any.0, p[i], t),
{
    permuting_queries_permutes_rows::<S, Portable>(
        p,
        select_spec(cpu),
        *q,
        *q2,
        *k,
        *v,
        BLOCK as int,
        i,
        t,
    );
    assert(0 <= p[i] < q.rows);
    assert(base.1.at(i, t) == base.0.at(p[i], t));
    assert(tile.1.at(i, t) == tile.0.at(p[i], t));
    assert(any.1.at(i, t) == any.0.at(p[i], t));
}

/// In exact arithmetic every vector kernel gives softmax attention too, for rows
/// that may attend to fewer keys than a vector has lanes.
pub proof fn short_rows_are_softmax_attention<S: Exact + Lanes>(
    q: &Mat<S>,
    k: &Mat<S>,
    v: &Mat<S>,
    causal: bool,
    cpu: Cpu,
    out: Mat<S>,
    eight: Mat<S>,
    sixteen: Mat<S>,
    i: int,
    t: int,
    x: Seq<S>,
    top: S,
)
    requires
        attends(*q, *k, *v),
        call_ensures(simd::attention::<S>, (q, k, v, causal, cpu), out),
        call_ensures(simd::attention_avx2::<S>, (q, k, v, causal), eight),
        call_ensures(avx512::attention::<S>, (q, k, v, causal), sixteen),
        0 <= i < q.rows,
        0 <= t < q.cols,
        are_scores(x, *q, *k, causal, i),
        well_posed(*q, *k, *v, x, top, i),
    ensures
        shaped_like(out, *q),
        shaped_like(eight, *q),
        shaped_like(sixteen, *q),
        lanes_of(cpu) == 1 || seen(q.rows as int, causal, i) < lanes_of(cpu) ==> entry(
            out,
            i,
            t,
        ).mul_spec(mass(x, top)) == weighed(x, top, *v, t),
        seen(q.rows as int, causal, i) < 8 ==> entry(eight, i, t).mul_spec(mass(x, top))
            == weighed(x, top, *v, t),
        seen(q.rows as int, causal, i) < 16 ==> entry(sixteen, i, t).mul_spec(mass(x, top))
            == weighed(x, top, *v, t),
{
    lemma_average(*q, *k, *v, causal, i, t, x, top);
    let n = seen(q.rows as int, causal, i);
    if lanes_of(cpu) == 1 || n < lanes_of(cpu) {
        short_rows_match_naive(select_spec(cpu), *q, *k, *v, causal, i, t);
    }
    if n < 8 {
        short_rows_match_naive(Path::Avx2, *q, *k, *v, causal, i, t);
    }
    if n < 16 {
        short_rows_match_naive(Path::Avx512, *q, *k, *v, causal, i, t);
    }
    assert(out.at(i, t) == entry(out, i, t));
    assert(eight.at(i, t) == entry(eight, i, t));
    assert(sixteen.at(i, t) == entry(sixteen, i, t));
}

/// And for every row where the vectorized exponential is the true one on what the
/// row hands it.
pub proof fn true_lanes_give_softmax_attention<S: Exact + Lanes>(
    q: &Mat<S>,
    k: &Mat<S>,
    v: &Mat<S>,
    causal: bool,
    eight: Mat<S>,
    sixteen: Mat<S>,
    i: int,
    t: int,
    x: Seq<S>,
    top: S,
)
    requires
        attends(*q, *k, *v),
        call_ensures(simd::attention_avx2::<S>, (q, k, v, causal), eight),
        call_ensures(avx512::attention::<S>, (q, k, v, causal), sixteen),
        0 <= i < q.rows,
        0 <= t < q.cols,
        are_scores(x, *q, *k, causal, i),
        well_posed(*q, *k, *v, x, top, i),
        lanes_exponentiate(Path::Avx2, x),
        lanes_exponentiate(Path::Avx512, x),
    ensures
        entry(eight, i, t).mul_spec(mass(x, top)) == weighed(x, top, *v, t),
        entry(sixteen, i, t).mul_spec(mass(x, top)) == weighed(x, top, *v, t),
{
    lemma_average(*q, *k, *v, causal, i, t, x, top);
    assert(x == live_scores(*q, *k, causal, i));
    simd_matches_naive(Path::Avx2, *q, *k, *v, causal, i, t);
    simd_matches_naive(Path::Avx512, *q, *k, *v, causal, i, t);
    assert(eight.at(i, t) == entry(eight, i, t));
    assert(sixteen.at(i, t) == entry(sixteen, i, t));
}

/// A kernel that is run by its name gives what it gives when it is called.
pub proof fn names_run_their_kernels<S: Lanes>(
    kernel: &str,
    q: &Mat<S>,
    k: &Mat<S>,
    v: &Mat<S>,
    causal: bool,
    cpu: Cpu,
    out: Mat<S>,
    base: Mat<S>,
    tile: Mat<S>,
    vector: Mat<S>,
)
    requires
        attends(*q, *k, *v),
        call_ensures(run_kernel::<S>, (kernel, q, k, v, causal, cpu), out),
        call_ensures(naive::attention::<S>, (q, k, v, causal), base),
        call_ensures(tiled::attention::<S>, (q, k, v, causal), tile),
        call_ensures(simd::attention::<S>, (q, k, v, causal, cpu), vector),
    ensures
        kernel@ == "naive"@ ==> out.data@ == base.data@,
        kernel@ == "tiled"@ ==> out.data@ == tile.data@,
        kernel@ == "simd"@ ==> out.data@ == vector.data@,
{
    reveal_strlit("naive");
    reveal_strlit("tiled");
    reveal_strlit("simd");
    assert("tiled"@[0] != "naive"@[0] && "simd"@[0] != "naive"@[0] && "simd"@[0] != "tiled"@[0]);
    let want = if kernel@ == "naive"@ {
        base
    } else if kernel@ == "tiled"@ {
        tile
    } else {
        vector
    };
    assert forall|i: int, t: int| 0 <= i < out.rows && 0 <= t < out.cols implies #[trigger] entry(
        out,
        i,
        t,
    ) == entry(want, i, t) by {
        assert(out.at(i, t) == want.at(i, t));
    }
    lemma_same_data(out, want);
}

/// A tile size of the sweep runs the kernel of that tile size.
pub proof fn sizes_run_their_kernels<S: Scalar>(
    block: usize,
    q: &Mat<S>,
    k: &Mat<S>,
    v: &Mat<S>,
    causal: bool,
    out: Mat<S>,
    b16: Mat<S>,
    b32: Mat<S>,
    b64: Mat<S>,
    b128: Mat<S>,
    b256: Mat<S>,
)
    requires
        attends(*q, *k, *v),
        call_ensures(run_for::<S>, (block, q, k, v, causal), out),
        call_ensures(tiled::attention_b::<S, 16>, (q, k, v, causal), b16),
        call_ensures(tiled::attention_b::<S, 32>, (q, k, v, causal), b32),
        call_ensures(tiled::attention_b::<S, 64>, (q, k, v, causal), b64),
        call_ensures(tiled::attention_b::<S, 128>, (q, k, v, causal), b128),
        call_ensures(tiled::attention_b::<S, 256>, (q, k, v, causal), b256),
    ensures
        block == 16 ==> out.data@ == b16.data@,
        block == 32 ==> out.data@ == b32.data@,
        block == 64 ==> out.data@ == b64.data@,
        block == 128 ==> out.data@ == b128.data@,
        block == 256 ==> out.data@ == b256.data@,
{
    let want = if block == 16 {
        b16
    } else if block == 32 {
        b32
    } else if block == 64 {
        b64
    } else if block == 128 {
        b128
    } else {
        b256
    };
    assert forall|i: int, t: int| 0 <= i < out.rows && 0 <= t < out.cols implies #[trigger] entry(
        out,
        i,
        t,
    ) == entry(want, i, t) by {
        assert(out.at(i, t) == want.at(i, t));
    }
    lemma_same_data(out, want);
}

/// The kernels agree exactly when the tiled one is within a ten-thousandth of the
/// baseline everywhere, and the vector one within two thousandths.
pub proof fn agreement_is_closeness<S: Lanes>(
    q: &Mat<S>,
    k: &Mat<S>,
    v: &Mat<S>,
    causal: bool,
    cpu: Cpu,
    agree: bool,
    base: Mat<S>,
    tile: Mat<S>,
    vector: Mat<S>,
    tiled_off: S,
    vector_off: S,
)
    requires
        attends(*q, *k, *v),
        call_ensures(kernels_agree::<S>, (q, k, v, causal, cpu), agree),
        call_ensures(naive::attention::<S>, (q, k, v, causal), base),
        call_ensures(tiled::attention::<S>, (q, k, v, causal), tile),
        call_ensures(simd::attention::<S>, (q, k, v, causal, cpu), vector),
        call_ensures(max_abs_diff::<S>, (&base, &tile), tiled_off),
        call_ensures(max_abs_diff::<S>, (&base, &vector), vector_off),
    ensures
        agree <==> S::from_usize_spec(1).div_spec(S::from_usize_spec(10000)).greater_than_spec(
            tiled_off,
        ) && S::from_usize_spec(2).div_spec(S::from_usize_spec(1000)).greater_than_spec(vector_off),
{
    reveal_strlit("naive");
    reveal_strlit("tiled");
    reveal_strlit("simd");
    assert("tiled"@[0] != "naive"@[0] && "simd"@[0] != "naive"@[0] && "simd"@[0] != "tiled"@[0]);
    let (a, b, c) = choose|a: Mat<S>, b: Mat<S>, c: Mat<S>|
        {
            &&& #[trigger] is_kernel_output(a, "naive"@, select_spec(cpu), *q, *k, *v, causal)
            &&& #[trigger] is_kernel_output(b, "tiled"@, select_spec(cpu), *q, *k, *v, causal)
            &&& #[trigger] is_kernel_output(c, "simd"@, select_spec(cpu), *q, *k, *v, causal)
            &&& agree == (ratio_spec::<S>(1, 10000).greater_than_spec(
                abs_diff_max(a.data@, b.data@, (q.rows * q.cols) as nat),
            ) && ratio_spec::<S>(2, 1000).greater_than_spec(
                abs_diff_max(a.data@, c.data@, (q.rows * q.cols) as nat),
            ))
        };
    assert forall|i: int, t: int| 0 <= i < a.rows && 0 <= t < a.cols implies #[trigger] entry(
        a,
        i,
        t,
    ) == entry(base, i, t) by {
        assert(a.at(i, t) == base.at(i, t));
    }
    lemma_same_data(a, base);
    assert forall|i: int, t: int| 0 <= i < b.rows && 0 <= t < b.cols implies #[trigger] entry(
        b,
        i,
        t,
    ) == entry(tile, i, t) by {
        assert(b.at(i, t) == tile.at(i, t));
    }
    lemma_same_data(b, tile);
    assert forall|i: int, t: int| 0 <= i < c.rows && 0 <= t < c.cols implies #[trigger] entry(
        c,
        i,
        t,
    ) == entry(vector, i, t) by {
        assert(c.at(i, t) == vector.at(i, t));
    }
    lemma_same_data(c, vector);
}

} // verus!
