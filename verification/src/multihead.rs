//! Multi-head attention — the outer loop that turns a kernel into a layer.
//!
//! Real attention runs `h` heads over the same sequence, each with its own
//! projections of Q, K and V. The heads never interact until the concatenation
//! at the end, so this is `h` completely independent instances of the
//! single-head problem.
//!
//! That independence is the interesting part, because it forces a scheduling
//! decision: parallelize *across* heads, or *within* one head? Across heads
//! wins here: separate inputs, separate outputs, no shared mutable state, no
//! synchronization beyond the join. [`head_chunks`] hands the heads out,
//! [`attention_chunk`] is what one worker does, and [`join_chunks`] collects the
//! results in head order.
use crate::mat::{filled, sample, Mat};
use crate::scalar::{Lanes, Scalar};
use crate::score::attends;
use crate::simd;
use crate::simd::{is_attention, select_spec, Cpu};
use vstd::prelude::*;

verus! {

/// Every head has a query, a key and a value matrix that fit each other.
pub open spec fn heads_attend<S: Scalar>(q: Seq<Mat<S>>, k: Seq<Mat<S>>, v: Seq<Mat<S>>) -> bool {
    &&& q.len() == k.len()
    &&& q.len() == v.len()
    &&& forall|h: int| 0 <= h < q.len() ==> #[trigger] attends(q[h], k[h], v[h])
}

/// Whether a matrix has `n` rows of at least `d` elements.
fn covers<S: Scalar>(m: &Mat<S>, n: usize, d: usize) -> (r: bool)
    ensures
        r == m.covers(n as int, d as int),
{
    if n == 0 {
        return true;
    }
    if m.cols < d {
        return false;
    }
    match n.checked_mul(m.cols) {
        Some(len) => len <= m.data.len(),
        None => {
            assert(m.data@.len() == m.data.len());
            false
        },
    }
}

/// Whether attention can be asked of three matrices.
fn head_fits<S: Scalar>(q: &Mat<S>, k: &Mat<S>, v: &Mat<S>) -> (r: bool)
    ensures
        r == attends(*q, *k, *v),
{
    let (n, d) = (q.rows, q.cols);
    n.checked_mul(d).is_some() && covers(q, n, d) && covers(k, n, d) && covers(v, n, d)
}

/// Whether the heads pair up and fit each other.
pub fn heads_fit<S: Scalar>(q: &[Mat<S>], k: &[Mat<S>], v: &[Mat<S>]) -> (r: bool)
    ensures
        r == heads_attend(q@, k@, v@),
{
    if q.len() != k.len() || q.len() != v.len() {
        return false;
    }
    let mut h: usize = 0;
    while h < q.len()
        invariant
            h <= q@.len(),
            q@.len() == k@.len(),
            q@.len() == v@.len(),
            forall|g: int| 0 <= g < h ==> #[trigger] attends(q@[g], k@[g], v@[g]),
        decreases q.len() - h,
    {
        if !head_fits(&q[h], &k[h], &v[h]) {
            assert(!attends(q@[h as int], k@[h as int], v@[h as int]));
            return false;
        }
        h += 1;
    }
    true
}

/// `out` holds the attention of heads `lo..hi`, in head order.
pub open spec fn is_heads<S: Lanes>(
    out: Seq<Mat<S>>,
    cpu: Cpu,
    q: Seq<Mat<S>>,
    k: Seq<Mat<S>>,
    v: Seq<Mat<S>>,
    causal: bool,
    lo: int,
    hi: int,
) -> bool {
    &&& out.len() == hi - lo
    &&& forall|h: int|
        lo <= h < hi ==> is_attention(
            #[trigger] out[h - lo],
            select_spec(cpu),
            q[h],
            k[h],
            v[h],
            causal,
        )
}

/// All heads, one after another.
pub fn attention<S: Lanes>(
    q: &[Mat<S>],
    k: &[Mat<S>],
    v: &[Mat<S>],
    causal: bool,
    cpu: Cpu,
) -> (out: Vec<Mat<S>>)
    requires
        heads_attend(q@, k@, v@),
    ensures
        is_heads(out@, cpu, q@, k@, v@, causal, 0, q@.len() as int),
{
    attention_chunk(q, k, v, causal, cpu, 0, q.len())
}

/// Heads `lo..hi`, one after another: one worker's share.
pub fn attention_chunk<S: Lanes>(
    q: &[Mat<S>],
    k: &[Mat<S>],
    v: &[Mat<S>],
    causal: bool,
    cpu: Cpu,
    lo: usize,
    hi: usize,
) -> (out: Vec<Mat<S>>)
    requires
        heads_attend(q@, k@, v@),
        lo <= hi <= q@.len(),
    ensures
        is_heads(out@, cpu, q@, k@, v@, causal, lo as int, hi as int),
{
    let mut out: Vec<Mat<S>> = Vec::with_capacity(hi - lo);
    let mut h: usize = lo;
    while h < hi
        invariant
            lo <= h <= hi <= q@.len(),
            heads_attend(q@, k@, v@),
            is_heads(out@, cpu, q@, k@, v@, causal, lo as int, h as int),
        decreases hi - h,
    {
        assert(attends(q@[h as int], k@[h as int], v@[h as int]));
        let ghost before = out@;
        let head = simd::attention(&q[h], &k[h], &v[h], causal, cpu);
        out.push(head);
        assert forall|x: int| lo <= x < h + 1 implies is_attention(
            #[trigger] out@[x - lo],
            select_spec(cpu),
            q@[x],
            k@[x],
            v@[x],
            causal,
        ) by {
            if x < h {
                assert(out@[x - lo] == before[x - lo]);
            }
        }
        h += 1;
    }
    out
}

/// How many workers share `heads` heads when `threads` are offered: none idle by
/// design, and at least one.
pub open spec fn workers(heads: int, threads: int) -> int {
    if threads <= 1 || heads <= 1 {
        1
    } else if threads < heads {
        threads
    } else {
        heads
    }
}

/// The largest share of any worker: `heads / workers`, rounded up.
pub open spec fn chunk_len(heads: int, threads: int) -> int {
    (heads + workers(heads, threads) - 1) / workers(heads, threads)
}

/// The contiguous share that starts at head `lo`.
pub open spec fn chunk_at(heads: int, chunk: int, lo: int) -> (int, int) {
    (
        lo,
        if lo + chunk < heads {
            lo + chunk
        } else {
            heads
        },
    )
}

/// The heads `0..h`, in contiguous shares of equal length, the last one ragged.
pub open spec fn is_partition(chunks: Seq<(usize, usize)>, heads: int, chunk: int) -> bool {
    &&& forall|c: int|
        0 <= c < chunks.len() ==> {
            &&& (#[trigger] chunks[c]).0 == c * chunk
            &&& chunks[c].0 < chunks[c].1
            &&& (chunks[c].0 as int, chunks[c].1 as int) == chunk_at(heads, chunk, c * chunk)
        }
    &&& chunks.len() * chunk >= heads
}

/// Hands `heads` heads out to at most `threads` workers, in contiguous chunks.
pub fn head_chunks(heads: usize, threads: usize) -> (chunks: Vec<(usize, usize)>)
    ensures
        is_partition(chunks@, heads as int, chunk_len(heads as int, threads as int)),
        chunks@.len() <= workers(heads as int, threads as int),
{
    let threads: usize = if threads <= 1 || heads <= 1 {
        1
    } else if threads < heads {
        threads
    } else {
        heads
    };
    proof {
        lemma_ceiling(heads as int, threads as int);
    }
    let chunk: usize = if heads % threads == 0 {
        heads / threads
    } else {
        heads / threads + 1
    };
    let mut chunks: Vec<(usize, usize)> = Vec::new();
    let mut lo: usize = 0;
    assert(0 * chunk == 0) by (nonlinear_arith);
    while lo < heads
        invariant
            lo <= heads,
            heads > 0 ==> chunk > 0,
            threads * chunk >= heads,
            chunks@.len() <= threads,
            lo == heads || lo == chunks@.len() * chunk,
            chunks@.len() * chunk >= lo,
            chunks@.len() > 0 ==> (chunks@.len() - 1) * chunk < heads,
            forall|c: int|
                0 <= c < chunks@.len() ==> {
                    &&& (#[trigger] chunks@[c]).0 == c * chunk
                    &&& chunks@[c].0 < chunks@[c].1
                    &&& (chunks@[c].0 as int, chunks@[c].1 as int) == chunk_at(
                        heads as int,
                        chunk as int,
                        c * chunk,
                    )
                },
        decreases heads - lo,
    {
        let hi: usize = if chunk < heads - lo {
            lo + chunk
        } else {
            heads
        };
        let ghost n = chunks@.len();
        proof {
            assert((n + 1) * chunk == n * chunk + chunk) by (nonlinear_arith);
            assert(n < threads) by {
                if n >= threads {
                    assert(n * chunk >= threads * chunk) by (nonlinear_arith)
                        requires
                            n >= threads,
                            chunk > 0,
                    ;
                }
            }
        }
        chunks.push((lo, hi));
        lo = hi;
    }
    chunks
}

/// `heads / threads`, rounded up, times `threads` covers all heads.
proof fn lemma_ceiling(heads: int, threads: int)
    requires
        heads >= 0,
        threads > 0,
    ensures
        ({
            let up = if heads % threads == 0 {
                heads / threads
            } else {
                heads / threads + 1
            };
            &&& (heads + threads - 1) / threads == up
            &&& threads * up >= heads
            &&& heads > 0 ==> up > 0
            &&& up <= heads
        }),
{
    let q = heads / threads;
    let r = heads % threads;
    vstd::arithmetic::div_mod::lemma_fundamental_div_mod(heads, threads);
    vstd::arithmetic::mul::lemma_mul_is_commutative(threads, q);
    vstd::arithmetic::div_mod::lemma_div_pos_is_pos(heads, threads);
    assert(threads * (q + 1) == threads * q + threads) by (nonlinear_arith);
    assert(q <= threads * q) by (nonlinear_arith)
        requires
            threads > 0,
            q >= 0,
    ;
    if r == 0 {
        vstd::arithmetic::div_mod::lemma_fundamental_div_mod_converse(
            heads + threads - 1,
            threads,
            q,
            threads - 1,
        );
        if q == 0 {
            assert(threads * q == 0) by (nonlinear_arith)
                requires
                    q == 0,
            ;
        }
    } else {
        vstd::arithmetic::mul::lemma_mul_is_commutative(threads, q + 1);
        vstd::arithmetic::div_mod::lemma_fundamental_div_mod_converse(
            heads + threads - 1,
            threads,
            q + 1,
            r - 1,
        );
    }
}

/// Collects the workers' results in the order the heads were handed out.
pub fn join_chunks<S: Scalar>(parts: Vec<Vec<Mat<S>>>) -> (out: Vec<Mat<S>>)
    ensures
        out@ == parts@.map_values(|p: Vec<Mat<S>>| p@).flatten(),
{
    let ghost all = parts@.map_values(|p: Vec<Mat<S>>| p@);
    let mut parts = parts;
    let mut out: Vec<Mat<S>> = Vec::new();
    let n = parts.len();
    let mut c: usize = 0;
    while c < n
        invariant
            c <= n,
            n == parts@.len(),
            n == all.len(),
            forall|x: int| c <= x < n ==> #[trigger] parts@[x]@ == all[x],
            out@ == all.take(c as int).flatten(),
        decreases n - c,
    {
        out.append(&mut parts[c]);
        proof {
            let grown = all.take(c + 1);
            assert(grown.drop_last() =~= all.take(c as int));
            grown.lemma_flatten_and_flatten_alt_are_equivalent();
            all.take(c as int).lemma_flatten_and_flatten_alt_are_equivalent();
        }
        c += 1;
    }
    assert(all.take(n as int) =~= all);
    out
}

/// The seed of head `h`: each head is seeded differently.
pub open spec fn head_seed(seed: u64, h: int) -> u64 {
    vstd::wrapping::u64_specs::wrapping_add(seed, (h * 0x9E37) as u64)
}

/// Heads of reproducible `n` x `d` data, one seed each.
pub open spec fn are_filled_heads<S: Scalar>(
    out: Seq<Mat<S>>,
    n: usize,
    d: usize,
    seed: u64,
) -> bool {
    forall|h: int|
        0 <= h < out.len() ==> {
            &&& (#[trigger] out[h]).wf()
            &&& out[h].rows == n
            &&& out[h].cols == d
            &&& forall|x: int|
                0 <= x < n * d ==> #[trigger] out[h].data@[x] == sample::<S>(
                    head_seed(seed, h),
                    x as nat,
                )
        }
}

/// `h` heads of reproducible test data, each seeded differently so no two heads
/// are secretly the same problem.
pub fn filled_heads<S: Scalar>(heads: usize, n: usize, d: usize, seed: u64) -> (out: Vec<Mat<S>>)
    requires
        n * d <= usize::MAX,
        heads > 0 ==> (heads - 1) * 0x9E37 <= u64::MAX,
    ensures
        out@.len() == heads,
        are_filled_heads(out@, n, d, seed),
{
    let mut out: Vec<Mat<S>> = Vec::with_capacity(heads);
    let mut h: usize = 0;
    while h < heads
        invariant
            h <= heads,
            n * d <= usize::MAX,
            heads > 0 ==> (heads - 1) * 0x9E37 <= u64::MAX,
            out@.len() == h,
            are_filled_heads(out@, n, d, seed),
        decreases heads - h,
    {
        out.push(filled::<S>(n, d, seed.wrapping_add(h as u64 * 0x9E37)));
        h += 1;
    }
    out
}

} // verus!
