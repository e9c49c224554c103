//! AVX-512 shape — 16 lanes per instruction, double the 8-wide path.
//!
//! A build opts into this path explicitly, and it still only runs on a CPU that
//! has it: see `simd::select`.
//!
//! Design note: the interesting measurement here isn't just "2x the lanes." The
//! per-block reduction and the scalar softmax tail don't get wider, so the
//! expected gain over the 8-wide path is sub-2x, and on parts that down-clock
//! under heavy AVX-512 load it can even regress.
use crate::lanes::{
    accumulate, add_tail, axpy, axpy_lane, axpy_row, exp_in_lanes, lane_sum, lane_sums, lemma_whole_bounds,
    rescale, weigh, whole, with_tail,
};
use crate::mat::{lemma_row_bounds, Mat};
use crate::scalar::{Lanes, Scalar};
use crate::score::{attends, sum_of};
use crate::simd::total;
use crate::tiled::{
    absorbed, absorbed_at, attention_with, block_scores, scaled, tiled_at, weights, TileOps,
    TilePath, BLOCK,
};
use vstd::prelude::*;

verus! {

/// The sixteen lanes of a dot product folded into one, halves onto each other.
pub open spec fn fold16<S: Scalar>(x: Seq<S>) -> S {
    let y = Seq::new(8, |i: int| x[i].add_spec(x[i + 8]));
    let z = Seq::new(4, |i: int| y[i].add_spec(y[i + 4]));
    z[0].add_spec(z[2]).add_spec(z[1].add_spec(z[3]))
}

/// The sixteen lanes of the dot product of `a` and `b` over whole vectors.
pub open spec fn lanes16<S: Scalar>(a: Seq<S>, b: Seq<S>) -> Seq<S> {
    Seq::new(16, |i: int| lane_sum(a, b, 16, i, (a.len() as int / 16) as nat))
}

/// The dot product of `a` with `b` by [`dot_avx512`].
pub open spec fn dot16_spec<S: Scalar>(a: Seq<S>, b: Seq<S>) -> S {
    with_tail(fold16(lanes16(a, b)), a, b, whole(a.len() as int, 16), a.len() as int)
}

/// Dot product, sixteen lanes at a time, with one horizontal reduction.
pub fn dot_avx512<S: Scalar>(a: &[S], b: &[S]) -> (r: S)
    requires
        a@.len() <= b@.len(),
    ensures
        r == dot16_spec(a@, b@),
{
    let (x, t) = lane_sums::<S, 16>(a, b);
    assert(x@ =~= lanes16(a@, b@));
    let z0 = x[0].add(x[8]).add(x[4].add(x[12]));
    let z1 = x[1].add(x[9]).add(x[5].add(x[13]));
    let z2 = x[2].add(x[10]).add(x[6].add(x[14]));
    let z3 = x[3].add(x[11]).add(x[7].add(x[15]));
    let total = z0.add(z2).add(z1.add(z3));
    assert(total == fold16(x@));
    proof {
        lemma_whole_bounds(a@.len() as int, 16);
    }
    add_tail(total, a, b, t)
}

/// `out += p * v`, sixteen lanes at a time.
pub fn axpy_avx512<S: Scalar>(out: &mut [S], v: &[S], p: S)
    requires
        old(out)@.len() <= v@.len(),
    ensures
        final(out)@ == axpy_row(old(out)@, p, v@, 16),
{
    axpy::<S, 16>(out, v, p)
}

/// `out *= s`, sixteen lanes at a time.
pub fn scale_avx512<S: Scalar>(out: &mut [S], s: S)
    ensures
        final(out)@ == scaled(old(out)@, s),
{
    rescale::<S, 16>(out, s)
}

/// `out += sum_j probs[j] * V[j]` over one KV block, with the output row held in
/// registers across the block. The 16-wide counterpart of `simd::accumulate_avx2`
/// — same loop interchange, same reason. 64-element chunks give four zmm
/// accumulators. An empty range of keys adds nothing here either.
pub fn accumulate_avx512<S: Lanes>(
    oi: &mut [S],
    v: &Mat<S>,
    kv0: usize,
    jhi: usize,
    probs: &[S],
)
    requires
        kv0 < jhi && old(oi)@.len() > 0 ==> jhi - kv0 <= probs@.len() && v.covers(
            jhi as int,
            old(oi)@.len() as int,
        ),
    ensures
        final(oi)@.len() == old(oi)@.len(),
        kv0 >= jhi ==> final(oi)@ == old(oi)@,
        forall|t: int|
            kv0 < jhi && 0 <= t < old(oi)@.len() ==> #[trigger] final(oi)@[t] == absorbed_at::<
                S,
                Avx512,
            >(
                old(oi)@[t],
                probs@,
                *v,
                kv0 as int,
                t,
                old(oi)@.len() as int,
                (jhi - kv0) as nat,
            ),
{
    accumulate::<S, Avx512, 16>(oi, v, kv0, jhi, probs)
}

/// The 16-wide path.
pub struct Avx512;

impl<S: Lanes> TileOps<S> for Avx512 {
    open spec fn dot_at(a: Seq<S>, b: Seq<S>, d: nat, bj: int, valid: int) -> S {
        dot16_spec(a, b)
    }

    open spec fn exp_at(x: S, bj: int, valid: int) -> S {
        exp_in_lanes(x, bj, valid, 16)
    }

    open spec fn gather_spec(l: S, p: Seq<S>) -> S {
        l.add_spec(sum_of(p, p.len()))
    }

    open spec fn axpy_at(o: S, p: S, v: S, t: int, d: int) -> S {
        axpy_lane(o, p, v, t, d, 16)
    }
}

impl<S: Lanes> TilePath<S> for Avx512 {
    fn score_block(qi: &[S], k: &Mat<S>, kv0: usize, jhi: usize, scale: S) -> (x: Vec<S>) {
        let mut x: Vec<S> = Vec::with_capacity(jhi - kv0);
        let mut j: usize = kv0;
        while j < jhi
            invariant
                kv0 <= j <= jhi,
                qi@.len() <= k.cols,
                jhi * k.cols <= k.data@.len(),
                x@.len() == j - kv0,
                forall|bj: int|
                    0 <= bj < x@.len() ==> #[trigger] x@[bj] == dot16_spec(
                        qi@,
                        k.row_seq(kv0 + bj),
                    ).mul_spec(scale),
            decreases jhi - j,
        {
            proof {
                lemma_row_bounds(j as int, jhi as int, k.cols as int);
            }
            x.push(dot_avx512(qi, k.row(j)).mul(scale));
            j += 1;
        }
        assert(x@ =~= block_scores::<S, Self>(qi@, *k, kv0 as int, jhi as int, scale));
        x
    }

    fn weigh(x: &Vec<S>, m: S) -> (p: Vec<S>) {
        let p = weigh::<S, 16>(x, m);
        assert(p@ =~= weights::<S, Self>(x@, m));
        p
    }

    fn gather(l: S, p: &Vec<S>) -> (r: S) {
        l.add(total(p))
    }

    fn rescale(out: &mut [S], c: S) {
        scale_avx512(out, c)
    }

    fn absorb(out: &mut [S], p: &Vec<S>, v: &Mat<S>, kv0: usize, jhi: usize) {
        let ghost start = out@;
        accumulate_avx512(out, v, kv0, jhi, p.as_slice());
        assert(out@ =~= absorbed::<S, Self>(start, p@, *v, kv0 as int));
    }
}

/// The full kernel: structurally identical to the 8-wide one — same
/// online-softmax bookkeeping, same causal block-skipping, same vectorized-exp
/// pattern — with every 8-wide primitive swapped for its 16-wide counterpart.
pub fn attention<S: Lanes>(q: &Mat<S>, k: &Mat<S>, v: &Mat<S>, causal: bool) -> (out: Mat<S>)
    requires
        attends(*q, *k, *v),
    ensures
        out.wf(),
        out.rows == q.rows,
        out.cols == q.cols,
        forall|i: int, t: int|
            0 <= i < q.rows && 0 <= t < q.cols ==> #[trigger] out.at(i, t) == tiled_at::<S, Avx512>(
                *q,
                *k,
                *v,
                causal,
                BLOCK as int,
                i,
                t,
            ),
{
    attention_with::<S, Avx512>(q, k, v, causal, BLOCK)
}

} // verus!
