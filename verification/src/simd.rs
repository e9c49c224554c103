//! 8-wide version of the tiled kernel, in the shape of AVX2 + FMA code, with two
//! upgrades over a plain SIMD path:
//!   1. Causal block-skipping (same as the portable tiled kernel).
//!   2. A vectorized `exp` (see `vexp`) so the softmax exponentials are computed
//!      8 lanes at a time instead of one scalar libm call per score.
//!
//! Dispatch: the widest path that the CPU has and the build carries, else the
//! portable tiled kernel. You never assume the target has the ISA.
use crate::avx512;
use crate::avx512::Avx512;
use crate::lanes::{
    accumulate, add_tail, axpy, axpy_lane, axpy_row, exp_in_lanes, lane_sum, lane_sums, lemma_whole,
    lemma_whole_bounds, rescale, weigh, whole, with_tail,
};
use crate::mat::{lemma_row_bounds, Mat};
use crate::scalar::{Lanes, Scalar};
use crate::score::{attends, sum_of};
use crate::tiled;
use crate::tiled::{
    absorbed, absorbed_at, attention_with, block_scores, scaled, tiled_at, weights, Portable,
    TileOps, TilePath, BLOCK,
};
use vstd::prelude::*;

verus! {

/// The eight lanes of a dot product folded into one: the two halves onto each
/// other, then neighbours pairwise.
pub open spec fn fold_halves<S: Scalar>(x: Seq<S>) -> S {
    x[0].add_spec(x[4]).add_spec(x[1].add_spec(x[5])).add_spec(
        x[2].add_spec(x[6]).add_spec(x[3].add_spec(x[7])),
    )
}

/// The eight lanes of a dot product folded into one: neighbours pairwise within
/// each half, then the two halves onto each other.
pub open spec fn fold_pairs<S: Scalar>(x: Seq<S>) -> S {
    x[0].add_spec(x[1]).add_spec(x[2].add_spec(x[3])).add_spec(
        x[4].add_spec(x[5]).add_spec(x[6].add_spec(x[7])),
    )
}

/// The eight lanes of the dot product of `a` and `b` over whole vectors.
pub open spec fn lanes8<S: Scalar>(a: Seq<S>, b: Seq<S>) -> Seq<S> {
    Seq::new(8, |i: int| lane_sum(a, b, 8, i, (a.len() as int / 8) as nat))
}

/// The dot product of `a` with `b` by [`dot_avx2`].
pub open spec fn dot8_spec<S: Scalar>(a: Seq<S>, b: Seq<S>) -> S {
    with_tail(fold_halves(lanes8(a, b)), a, b, whole(a.len() as int, 8), a.len() as int)
}

/// The dot product of `a` with one of the four rows of [`dot4_avx2`].
pub open spec fn dot8_of_four<S: Scalar>(a: Seq<S>, b: Seq<S>) -> S {
    with_tail(fold_pairs(lanes8(a, b)), a, b, whole(a.len() as int, 8), a.len() as int)
}

/// Dot product, eight lanes at a time, with one horizontal reduction.
pub fn dot_avx2<S: Scalar>(a: &[S], b: &[S]) -> (r: S)
    requires
        a@.len() <= b@.len(),
    ensures
        r == dot8_spec(a@, b@),
{
    let (acc, t) = lane_sums::<S, 8>(a, b);
    assert(acc@ =~= lanes8(a@, b@));
    let s0 = acc[0].add(acc[4]);
    let s1 = acc[1].add(acc[5]);
    let s2 = acc[2].add(acc[6]);
    let s3 = acc[3].add(acc[7]);
    let total = s0.add(s1).add(s2.add(s3));
    proof {
        lemma_whole_bounds(a@.len() as int, 8);
    }
    add_tail(total, a, b, t)
}

/// Adds neighbouring lanes of two vectors. Each 128-bit half of the result holds
/// two sums from `a`, then two from `b`.
fn hadd<S: Scalar>(a: [S; 8], b: [S; 8]) -> (r: [S; 8])
    ensures
        r@ == seq![
            a@[0].add_spec(a@[1]),
            a@[2].add_spec(a@[3]),
            b@[0].add_spec(b@[1]),
            b@[2].add_spec(b@[3]),
            a@[4].add_spec(a@[5]),
            a@[6].add_spec(a@[7]),
            b@[4].add_spec(b@[5]),
            b@[6].add_spec(b@[7]),
        ],
{
    let r = [
        a[0].add(a[1]),
        a[2].add(a[3]),
        b[0].add(b[1]),
        b[2].add(b[3]),
        a[4].add(a[5]),
        a[6].add(a[7]),
        b[4].add(b[5]),
        b[6].add(b[7]),
    ];
    assert(r@ =~= seq![
        a@[0].add_spec(a@[1]),
        a@[2].add_spec(a@[3]),
        b@[0].add_spec(b@[1]),
        b@[2].add_spec(b@[3]),
        a@[4].add_spec(a@[5]),
        a@[6].add_spec(a@[7]),
        b@[4].add_spec(b@[5]),
        b@[6].add_spec(b@[7]),
    ]);
    r
}

/// Four dot products against a shared `a`, sharing one horizontal reduction.
///
/// A single 8-wide dot ends with a reduction that is serial, does not use the
/// FMA units, and costs the same whether the vector body was 8 elements or 64.
/// At `d = 64` that tail runs once per query-key pair and is a large part of why
/// the kernel sits well under peak.
///
/// Four accumulators collapse in three `hadd`s plus one 128-bit fold, because
/// `hadd` interleaves two sources: `hadd(hadd(a,b), hadd(c,d))` leaves the four
/// partial sums in known lanes, and folding the halves finishes all four at
/// once. Roughly a quarter of the reduction work per key.
pub fn dot4_avx2<S: Scalar>(a: &[S], b0: &[S], b1: &[S], b2: &[S], b3: &[S]) -> (r: [S; 4])
    requires
        a@.len() <= b0@.len(),
        a@.len() <= b1@.len(),
        a@.len() <= b2@.len(),
        a@.len() <= b3@.len(),
    ensures
        r@ == seq![
            dot8_of_four(a@, b0@),
            dot8_of_four(a@, b1@),
            dot8_of_four(a@, b2@),
            dot8_of_four(a@, b3@),
        ],
{
    let (acc0, t) = lane_sums::<S, 8>(a, b0);
    let (acc1, _t1) = lane_sums::<S, 8>(a, b1);
    let (acc2, _t2) = lane_sums::<S, 8>(a, b2);
    let (acc3, _t3) = lane_sums::<S, 8>(a, b3);
    assert(acc0@ =~= lanes8(a@, b0@));
    assert(acc1@ =~= lanes8(a@, b1@));
    assert(acc2@ =~= lanes8(a@, b2@));
    assert(acc3@ =~= lanes8(a@, b3@));

    // hadd(a,b) yields [a01 a23 b01 b23 | a45 a67 b45 b67], so nesting it once
    // more puts the four full sums in lanes 0..3 of each 128-bit half.
    let ab = hadd(acc0, acc1);
    let cd = hadd(acc2, acc3);
    let abcd = hadd(ab, cd);
    proof {
        lemma_whole_bounds(a@.len() as int, 8);
    }
    let r = [
        add_tail(abcd[0].add(abcd[4]), a, b0, t),
        add_tail(abcd[1].add(abcd[5]), a, b1, t),
        add_tail(abcd[2].add(abcd[6]), a, b2, t),
        add_tail(abcd[3].add(abcd[7]), a, b3, t),
    ];
    assert(r@ =~= seq![
        dot8_of_four(a@, b0@),
        dot8_of_four(a@, b1@),
        dot8_of_four(a@, b2@),
        dot8_of_four(a@, b3@),
    ]);
    r
}

/// `out += p * v`, eight lanes at a time.
pub fn axpy_avx2<S: Scalar>(out: &mut [S], v: &[S], p: S)
    requires
        old(out)@.len() <= v@.len(),
    ensures
        final(out)@ == axpy_row(old(out)@, p, v@, 8),
{
    axpy::<S, 8>(out, v, p)
}

/// `out *= s`, eight lanes at a time.
pub fn scale_avx2<S: Scalar>(out: &mut [S], s: S)
    ensures
        final(out)@ == scaled(old(out)@, s),
{
    rescale::<S, 8>(out, s)
}

/// `out += sum_j probs[j] * V[j]` over one KV block, holding the output row in
/// registers for the whole block.
///
/// Chunk width is 32 rather than 64 so `d = 32` benefits too and register
/// pressure stays low: four accumulators plus a broadcast and a load is six of
/// sixteen ymm registers. `V` is re-read once per chunk, but a block of it is
/// 16 KB at the default tile size and sits in L1, so that costs far less than
/// the output traffic it removes.
///
/// An empty range of keys, or one that ends before it begins, adds nothing.
pub fn accumulate_avx2<S: Lanes>(
    oi: &mut [S],
    v: &Mat<S>,
    kv0: usize,
    jhi: usize,
    probs: &[S],
)
    requires
        kv0 < jhi && old(oi)@.len() > 0 ==> jhi - kv0 <= probs@.len() && v.covers(
            jhi as int,
            old(oi)@.len() as int,
        ),
    ensures
        final(oi)@.len() == old(oi)@.len(),
        kv0 >= jhi ==> final(oi)@ == old(oi)@,
        forall|t: int|
            kv0 < jhi && 0 <= t < old(oi)@.len() ==> #[trigger] final(oi)@[t] == absorbed_at::<
                S,
                Avx2,
            >(
                old(oi)@[t],
                probs@,
                *v,
                kv0 as int,
                t,
                old(oi)@.len() as int,
                (jhi - kv0) as nat,
            ),
{
    accumulate::<S, Avx2, 8>(oi, v, kv0, jhi, probs)
}

/// The 8-wide path: keys are scored four at a time where four are left, and one
/// at a time after that.
pub struct Avx2;

impl<S: Lanes> TileOps<S> for Avx2 {
    open spec fn dot_at(a: Seq<S>, b: Seq<S>, d: nat, bj: int, valid: int) -> S {
        if bj < whole(valid, 4) {
            dot8_of_four(a, b)
        } else {
            dot8_spec(a, b)
        }
    }

    open spec fn exp_at(x: S, bj: int, valid: int) -> S {
        exp_in_lanes(x, bj, valid, 8)
    }

    open spec fn gather_spec(l: S, p: Seq<S>) -> S {
        l.add_spec(sum_of(p, p.len()))
    }

    open spec fn axpy_at(o: S, p: S, v: S, t: int, d: int) -> S {
        axpy_lane(o, p, v, t, d, 8)
    }
}

/// The sum of a tile's weights, from the left.
pub(crate) fn total<S: Scalar>(p: &Vec<S>) -> (r: S)
    ensures
        r == sum_of(p@, p@.len()),
{
    let mut r = S::zero();
    let mut bj: usize = 0;
    while bj < p.len()
        invariant
            bj <= p@.len(),
            r == sum_of(p@, bj as nat),
        decreases p.len() - bj,
    {
        r = r.add(p[bj]);
        bj += 1;
    }
    r
}

impl<S: Lanes> TilePath<S> for Avx2 {
    fn score_block(qi: &[S], k: &Mat<S>, kv0: usize, jhi: usize, scale: S) -> (x: Vec<S>) {
        let valid: usize = jhi - kv0;
        let mut x: Vec<S> = Vec::with_capacity(valid);
        let mut j: usize = kv0;
        let ghost want = block_scores::<S, Self>(qi@, *k, kv0 as int, jhi as int, scale);
        // Four keys per horizontal reduction. The reduction at the tail of a
        // dot product does not vectorize and was the largest single item in the
        // gap to peak; scoring four keys against the same query lets one
        // reduction serve all four.
        let mut s: Ghost<nat> = Ghost(0);
        while 4 <= jhi - j
            invariant
                kv0 <= j <= jhi,
                valid == jhi - kv0,
                qi@.len() <= k.cols,
                jhi * k.cols <= k.data@.len(),
                j - kv0 == 4 * s@,
                x@.len() == j - kv0,
                want == block_scores::<S, Self>(qi@, *k, kv0 as int, jhi as int, scale),
                forall|bj: int| 0 <= bj < x@.len() ==> #[trigger] x@[bj] == want[bj],
            decreases jhi - j,
        {
            proof {
                lemma_row_bounds(j as int, jhi as int, k.cols as int);
                lemma_row_bounds(j + 1, jhi as int, k.cols as int);
                lemma_row_bounds(j + 2, jhi as int, k.cols as int);
                lemma_row_bounds(j + 3, jhi as int, k.cols as int);
                lemma_whole_bounds(valid as int, 4);
            }
            let four = dot4_avx2(qi, k.row(j), k.row(j + 1), k.row(j + 2), k.row(j + 3));
            x.push(four[0].mul(scale));
            x.push(four[1].mul(scale));
            x.push(four[2].mul(scale));
            x.push(four[3].mul(scale));
            j += 4;
            s = Ghost(s@ + 1);
        }
        proof {
            lemma_whole(valid as int, 4, s@ as int);
        }
        while j < jhi
            invariant
                kv0 <= j <= jhi,
                valid == jhi - kv0,
                qi@.len() <= k.cols,
                jhi * k.cols <= k.data@.len(),
                whole(valid as int, 4) <= j - kv0,
                x@.len() == j - kv0,
                want == block_scores::<S, Self>(qi@, *k, kv0 as int, jhi as int, scale),
                forall|bj: int| 0 <= bj < x@.len() ==> #[trigger] x@[bj] == want[bj],
            decreases jhi - j,
        {
            proof {
                lemma_row_bounds(j as int, jhi as int, k.cols as int);
            }
            x.push(dot_avx2(qi, k.row(j)).mul(scale));
            j += 1;
        }
        assert(x@ =~= want);
        x
    }

    fn weigh(x: &Vec<S>, m: S) -> (p: Vec<S>) {
        let p = weigh::<S, 8>(x, m);
        assert(p@ =~= weights::<S, Self>(x@, m));
        p
    }

    fn gather(l: S, p: &Vec<S>) -> (r: S) {
        l.add(total(p))
    }

    fn rescale(out: &mut [S], c: S) {
        scale_avx2(out, c)
    }

    fn absorb(out: &mut [S], p: &Vec<S>, v: &Mat<S>, kv0: usize, jhi: usize) {
        let ghost start = out@;
        accumulate_avx2(out, v, kv0, jhi, p.as_slice());
        assert(out@ =~= absorbed::<S, Self>(start, p@, *v, kv0 as int));
    }
}

/// The 8-wide kernel.
pub fn attention_avx2<S: Lanes>(q: &Mat<S>, k: &Mat<S>, v: &Mat<S>, causal: bool) -> (out: Mat<S>)
    requires
        attends(*q, *k, *v),
    ensures
        out.wf(),
        out.rows == q.rows,
        out.cols == q.cols,
        forall|i: int, t: int|
            0 <= i < q.rows && 0 <= t < q.cols ==> #[trigger] out.at(i, t) == tiled_at::<S, Avx2>(
                *q,
                *k,
                *v,
                causal,
                BLOCK as int,
                i,
                t,
            ),
{
    attention_with::<S, Avx2>(q, k, v, causal, BLOCK)
}

/// What the build targets and what the CPU it runs on reports.
#[derive(Clone, Copy, Debug, PartialEq, Eq, Structural)]
pub struct Cpu {
    /// The build targets x86-64.
    pub x86_64: bool,
    /// The build carries the 16-wide path.
    pub avx512_built: bool,
    pub avx512f: bool,
    pub avx2: bool,
    pub fma: bool,
}

/// The paths a kernel can take.
#[derive(Clone, Copy, Debug, PartialEq, Eq, Structural)]
pub enum Path {
    Avx512,
    Avx2,
    Portable,
}

/// The widest path that the CPU has and the build carries.
pub open spec fn select_spec(cpu: Cpu) -> Path {
    if cpu.x86_64 && cpu.avx512_built && cpu.avx512f {
        Path::Avx512
    } else if cpu.x86_64 && cpu.avx2 && cpu.fma {
        Path::Avx2
    } else {
        Path::Portable
    }
}

/// The widest path that the CPU has and the build carries.
pub fn select(cpu: Cpu) -> (r: Path)
    ensures
        r == select_spec(cpu),
{
    if !cpu.x86_64 {
        return Path::Portable;
    }
    // Widest first. A build with the 16-wide path stays correct on a CPU that
    // lacks AVX-512 and simply falls through.
    if cpu.avx512_built && cpu.avx512f {
        Path::Avx512
    } else if cpu.avx2 && cpu.fma {
        Path::Avx2
    } else {
        Path::Portable
    }
}

/// Element `t` of output row `i` on a given path, at the default tile size.
pub open spec fn simd_at<S: Lanes>(
    path: Path,
    q: Mat<S>,
    k: Mat<S>,
    v: Mat<S>,
    causal: bool,
    i: int,
    t: int,
) -> S {
    match path {
        Path::Avx512 => tiled_at::<S, Avx512>(q, k, v, causal, BLOCK as int, i, t),
        Path::Avx2 => tiled_at::<S, Avx2>(q, k, v, causal, BLOCK as int, i, t),
        Path::Portable => tiled_at::<S, Portable>(q, k, v, causal, BLOCK as int, i, t),
    }
}

/// `out` is the attention of one head, computed on a given path.
pub open spec fn is_attention<S: Lanes>(
    out: Mat<S>,
    path: Path,
    q: Mat<S>,
    k: Mat<S>,
    v: Mat<S>,
    causal: bool,
) -> bool {
    &&& out.wf()
    &&& out.rows == q.rows
    &&& out.cols == q.cols
    &&& forall|i: int, t: int|
        0 <= i < q.rows && 0 <= t < q.cols ==> #[trigger] out.at(i, t) == simd_at(
            path,
            q,
            k,
            v,
            causal,
            i,
            t,
        )
}

/// The kernel on the widest path available.
pub fn attention<S: Lanes>(
    q: &Mat<S>,
    k: &Mat<S>,
    v: &Mat<S>,
    causal: bool,
    cpu: Cpu,
) -> (out: Mat<S>)
    requires
        attends(*q, *k, *v),
    ensures
        is_attention(out, select_spec(cpu), *q, *k, *v, causal),
{
    match select(cpu) {
        Path::Avx512 => avx512::attention(q, k, v, causal),
        Path::Avx2 => attention_avx2(q, k, v, causal),
        Path::Portable => tiled::attention(q, k, v, causal),
    }
}

} // verus!
