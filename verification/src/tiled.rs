//! Tiled ("flash") attention. The key idea: never materialize the [n x n] score
//! matrix. Instead, walk the KV sequence in blocks and maintain a *running*
//! softmax (max `m` and normalizer `l`) per query row, rescaling the partial
//! output as new blocks arrive. Memory traffic drops from O(n^2) to O(n*d).
//!
//! Causal masking here is where tiling earns real speed: a whole KV block whose
//! smallest index already exceeds the largest query index can be skipped, so we
//! touch only the lower-triangular blocks — roughly half the work. Within the
//! diagonal block we apply the per-element j <= i mask.
//!
//! The bookkeeping is the same whatever instructions score a block and fold it
//! into the output. [`TilePath`] is the part that differs; [`Portable`] is the
//! scalar one, and `simd` and `avx512` bring the vector ones.
use crate::mat::{lemma_row_at, lemma_row_bounds, lemma_splice_rows, repeated, Mat};
use crate::scalar::Scalar;
use crate::score::{attends, dot, dot_spec, reach, scale, scale_spec};
use vstd::prelude::*;

verus! {

/// Default tile height and width, in rows.
///
/// The tile is the working set: `BLOCK` rows of K and V plus the query row, so
/// the choice is really "which cache level should the inner loop live in".
/// 64 rows at `d = 64` is 2 x 64 x 64 x 4 B = 32 KB of K and V, which is sized
/// to sit inside a typical 32-48 KB L1d.
pub const BLOCK: usize = 64;

/// How one tile is scored and folded into the output: which operations, in
/// which order. Entry `bj` of a tile of `valid` keys may be handled differently
/// from its neighbours, because vector code treats a ragged tail on its own.
pub trait TileOps<S: Scalar>: Sized {
    /// The dot product of the query with the key at offset `bj`.
    spec fn dot_at(a: Seq<S>, b: Seq<S>, d: nat, bj: int, valid: int) -> S;

    /// `exp(x)` for the entry at offset `bj`.
    spec fn exp_at(x: S, bj: int, valid: int) -> S;

    /// The normalizer `l` with a tile's weights added to it.
    spec fn gather_spec(l: S, p: Seq<S>) -> S;

    /// Output element `t` of `d` after a key of weight `p` and value `v`.
    spec fn axpy_at(o: S, p: S, v: S, t: int, d: int) -> S;
}

/// The code that performs the operations of a [`TileOps`].
pub trait TilePath<S: Scalar>: TileOps<S> {
    /// Scores a query row against keys `kv0..jhi`.
    fn score_block(qi: &[S], k: &Mat<S>, kv0: usize, jhi: usize, scale: S) -> (x: Vec<S>)
        requires
            kv0 < jhi,
            k.covers(jhi as int, qi@.len() as int),
        ensures
            x@ == block_scores::<S, Self>(qi@, *k, kv0 as int, jhi as int, scale),
    ;

    /// Exponentiates a tile's scores relative to the running maximum `m`.
    fn weigh(x: &Vec<S>, m: S) -> (p: Vec<S>)
        ensures
            p@ == weights::<S, Self>(x@, m),
    ;

    /// Adds a tile's weights to the normalizer.
    fn gather(l: S, p: &Vec<S>) -> (r: S)
        ensures
            r == Self::gather_spec(l, p@),
    ;

    /// Multiplies every element of an output row by `c`.
    fn rescale(out: &mut [S], c: S)
        ensures
            final(out)@ == scaled(old(out)@, c),
    ;

    /// Adds the weighted values of keys `kv0..jhi` to an output row.
    fn absorb(out: &mut [S], p: &Vec<S>, v: &Mat<S>, kv0: usize, jhi: usize)
        requires
            kv0 < jhi,
            p@.len() == jhi - kv0,
            v.covers(jhi as int, old(out)@.len() as int),
        ensures
            final(out)@ == absorbed::<S, Self>(old(out)@, p@, *v, kv0 as int),
    ;
}

/// The scaled scores of a query row against keys `kv0..jhi`.
pub open spec fn block_scores<S: Scalar, P: TileOps<S>>(
    qi: Seq<S>,
    k: Mat<S>,
    kv0: int,
    jhi: int,
    scale: S,
) -> Seq<S> {
    Seq::new(
        (jhi - kv0) as nat,
        |bj: int| P::dot_at(qi, k.row_seq(kv0 + bj), qi.len(), bj, jhi - kv0).mul_spec(scale),
    )
}

/// The weights `exp(x - m)` of a tile with scores `x`.
pub open spec fn weights<S: Scalar, P: TileOps<S>>(x: Seq<S>, m: S) -> Seq<S> {
    Seq::new(x.len(), |bj: int| P::exp_at(x[bj].sub_spec(m), bj, x.len() as int))
}

/// Every element times `c`.
pub open spec fn scaled<S: Scalar>(o: Seq<S>, c: S) -> Seq<S> {
    Seq::new(o.len(), |t: int| o[t].mul_spec(c))
}

/// Output element `t`, from `o`, after the first `count` keys of a tile.
pub open spec fn absorbed_at<S: Scalar, P: TileOps<S>>(
    o: S,
    p: Seq<S>,
    v: Mat<S>,
    kv0: int,
    t: int,
    d: int,
    count: nat,
) -> S
    decreases count,
{
    if count == 0 {
        o
    } else {
        P::axpy_at(
            absorbed_at::<S, P>(o, p, v, kv0, t, d, (count - 1) as nat),
            p[count - 1],
            v.at(kv0 + count - 1, t),
            t,
            d,
        )
    }
}

/// An output row after all keys of a tile.
pub open spec fn absorbed<S: Scalar, P: TileOps<S>>(
    o: Seq<S>,
    p: Seq<S>,
    v: Mat<S>,
    kv0: int,
) -> Seq<S> {
    Seq::new(
        o.len(),
        |t: int| absorbed_at::<S, P>(o[t], p, v, kv0, t, o.len() as int, p.len()),
    )
}

/// The largest of the first `k` scores, from negative infinity.
pub open spec fn top_of<S: Scalar>(x: Seq<S>, k: nat) -> S
    decreases k,
{
    if k == 0 {
        S::neg_infinity_spec()
    } else {
        let best = top_of(x, (k - 1) as nat);
        if x[k - 1].greater_than_spec(best) {
            x[k - 1]
        } else {
            best
        }
    }
}

/// The running softmax of one query row: the largest score so far, the
/// normalizer relative to it, and the unnormalized output relative to it.
pub struct RowState<S> {
    pub m: S,
    pub l: S,
    pub o: Seq<S>,
}

/// A row before any key.
pub open spec fn fresh<S: Scalar>(d: nat) -> RowState<S> {
    RowState {
        m: S::neg_infinity_spec(),
        l: S::zero_spec(),
        o: Seq::new(d, |t: int| S::zero_spec()),
    }
}

/// What history is multiplied by when the running maximum moves from `m_old`
/// to `m_new`. There is no history before the first tile.
pub open spec fn correction_spec<S: Scalar>(m_old: S, m_new: S) -> S {
    if m_old.equals_spec(S::neg_infinity_spec()) {
        S::zero_spec()
    } else {
        m_old.sub_spec(m_new).exp_spec()
    }
}

/// One online-softmax update: fold a tile with scores `x` and values from row
/// `kv0` of `v` into the running state.
pub open spec fn step<S: Scalar, P: TileOps<S>>(
    st: RowState<S>,
    x: Seq<S>,
    v: Mat<S>,
    kv0: int,
) -> RowState<S> {
    let m_new = st.m.max_spec(top_of(x, x.len()));
    let c = correction_spec(st.m, m_new);
    let o = if c.equals_spec(S::one_spec()) {
        st.o
    } else {
        scaled(st.o, c)
    };
    let p = weights::<S, P>(x, m_new);
    RowState {
        m: m_new,
        l: P::gather_spec(st.l.mul_spec(c), p),
        o: absorbed::<S, P>(o, p, v, kv0),
    }
}

/// One past the last key of tile `b` that query `i` may attend to.
pub open spec fn tile_end(n: int, causal: bool, block: int, i: int, b: int) -> int {
    let end = if (b + 1) * block < n {
        (b + 1) * block
    } else {
        n
    };
    if end < reach(n, causal, i) {
        end
    } else {
        reach(n, causal, i)
    }
}

/// Row `i` after its first `b` tiles of `block` keys. A tile with no key that
/// the row may attend to leaves the row alone.
pub open spec fn row_after<S: Scalar, P: TileOps<S>>(
    q: Mat<S>,
    k: Mat<S>,
    v: Mat<S>,
    causal: bool,
    block: int,
    i: int,
    b: nat,
) -> RowState<S>
    decreases b,
{
    if b == 0 {
        fresh(q.cols as nat)
    } else {
        let before = row_after::<S, P>(q, k, v, causal, block, i, (b - 1) as nat);
        let kv0 = (b - 1) * block;
        let jhi = tile_end(q.rows as int, causal, block, i, b - 1);
        if jhi <= kv0 {
            before
        } else {
            step::<S, P>(
                before,
                block_scores::<S, P>(q.row_seq(i), k, kv0, jhi, scale_spec(q.cols)),
                v,
                kv0,
            )
        }
    }
}

/// How many tiles of `block` keys cover `n` keys.
pub open spec fn tiles(n: int, block: int) -> nat {
    ((n + block - 1) / block) as nat
}

/// The divisor that turns the unnormalized output into the output.
pub open spec fn denominator<S: Scalar>(l: S) -> S {
    if l.equals_spec(S::zero_spec()) {
        S::one_spec()
    } else {
        l
    }
}

/// Element `t` of output row `i`: the running softmax over all tiles,
/// normalized at the end.
pub open spec fn tiled_at<S: Scalar, P: TileOps<S>>(
    q: Mat<S>,
    k: Mat<S>,
    v: Mat<S>,
    causal: bool,
    block: int,
    i: int,
    t: int,
) -> S {
    let st = row_after::<S, P>(q, k, v, causal, block, i, tiles(q.rows as int, block));
    st.o[t].mul_spec(S::one_spec().div_spec(denominator(st.l)))
}

/// Tiles that start at or past the last key a row may attend to change nothing,
/// so a kernel may stop before them.
pub proof fn idle_tiles_change_nothing<S: Scalar, P: TileOps<S>>(
    q: Mat<S>,
    k: Mat<S>,
    v: Mat<S>,
    causal: bool,
    block: int,
    i: int,
    b: nat,
    later: nat,
)
    requires
        block > 0,
        b <= later,
        reach(q.rows as int, causal, i) <= b * block,
    ensures
        row_after::<S, P>(q, k, v, causal, block, i, later) == row_after::<S, P>(
            q,
            k,
            v,
            causal,
            block,
            i,
            b,
        ),
    decreases later,
{
    if b < later {
        idle_tiles_change_nothing::<S, P>(q, k, v, causal, block, i, b, (later - 1) as nat);
        assert(b * block <= (later - 1) * block) by (nonlinear_arith)
            requires
                b <= later - 1,
                block > 0,
        ;
    }
}

/// The scalar path: one key after another, one element after another.
pub struct Portable;

impl<S: Scalar> TileOps<S> for Portable {
    open spec fn dot_at(a: Seq<S>, b: Seq<S>, d: nat, bj: int, valid: int) -> S {
        dot_spec(a, b, d)
    }

    open spec fn exp_at(x: S, bj: int, valid: int) -> S {
        x.exp_spec()
    }

    open spec fn gather_spec(l: S, p: Seq<S>) -> S {
        p.fold_left(l, |acc: S, w: S| acc.add_spec(w))
    }

    open spec fn axpy_at(o: S, p: S, v: S, t: int, d: int) -> S {
        o.add_spec(p.mul_spec(v))
    }
}

impl<S: Scalar> TilePath<S> for Portable {
    fn score_block(qi: &[S], k: &Mat<S>, kv0: usize, jhi: usize, scale: S) -> (x: Vec<S>) {
        let d = qi.len();
        let mut x: Vec<S> = Vec::with_capacity(jhi - kv0);
        let mut j: usize = kv0;
        while j < jhi
            invariant
                kv0 <= j <= jhi,
                d == qi@.len(),
                d <= k.cols,
                jhi * k.cols <= k.data@.len(),
                x@.len() == j - kv0,
                forall|bj: int|
                    0 <= bj < x@.len() ==> #[trigger] x@[bj] == dot_spec(
                        qi@,
                        k.row_seq(kv0 + bj),
                        d as nat,
                    ).mul_spec(scale),
            decreases jhi - j,
        {
            proof {
                lemma_row_bounds(j as int, jhi as int, k.cols as int);
            }
            x.push(dot(qi, k.row(j), d).mul(scale));
            j += 1;
        }
        assert(x@ =~= block_scores::<S, Self>(qi@, *k, kv0 as int, jhi as int, scale));
        x
    }

    fn weigh(x: &Vec<S>, m: S) -> (p: Vec<S>) {
        let mut p: Vec<S> = Vec::with_capacity(x.len());
        let mut bj: usize = 0;
        while bj < x.len()
            invariant
                bj <= x@.len(),
                p@.len() == bj,
                forall|u: int| 0 <= u < bj ==> #[trigger] p@[u] == x@[u].sub_spec(m).exp_spec(),
            decreases x.len() - bj,
        {
            p.push(x[bj].sub(m).exp());
            bj += 1;
        }
        assert(p@ =~= weights::<S, Self>(x@, m));
        p
    }

    fn gather(l: S, p: &Vec<S>) -> (r: S) {
        let mut r = l;
        let mut bj: usize = 0;
        while bj < p.len()
            invariant
                bj <= p@.len(),
                r == p@.take(bj as int).fold_left(l, |acc: S, w: S| acc.add_spec(w)),
            decreases p.len() - bj,
        {
            r = r.add(p[bj]);
            proof {
                let grown = p@.take(bj + 1);
                assert(grown.drop_last() =~= p@.take(bj as int));
            }
            bj += 1;
        }
        assert(p@.take(p@.len() as int) =~= p@);
        r
    }

    fn rescale(out: &mut [S], c: S) {
        let d = out.len();
        let ghost start = out@;
        let mut t: usize = 0;
        while t < d
            invariant
                t <= d,
                d == start.len(),
                out@.len() == d,
                forall|u: int| 0 <= u < t ==> #[trigger] out@[u] == start[u].mul_spec(c),
                forall|u: int| t <= u < d ==> #[trigger] out@[u] == start[u],
            decreases d - t,
        {
            out[t] = out[t].mul(c);
            t += 1;
        }
        assert(out@ =~= scaled(start, c));
    }

    fn absorb(out: &mut [S], p: &Vec<S>, v: &Mat<S>, kv0: usize, jhi: usize) {
        let d = out.len();
        let ghost start = out@;
        let mut j: usize = kv0;
        while j < jhi
            invariant
                kv0 <= j <= jhi,
                p@.len() == jhi - kv0,
                d <= v.cols,
                jhi * v.cols <= v.data@.len(),
                d == start.len(),
                out@.len() == d,
                forall|u: int|
                    0 <= u < d ==> #[trigger] out@[u] == absorbed_at::<S, Self>(
                        start[u],
                        p@,
                        *v,
                        kv0 as int,
                        u,
                        d as int,
                        (j - kv0) as nat,
                    ),
            decreases jhi - j,
        {
            proof {
                lemma_row_bounds(j as int, jhi as int, v.cols as int);
                lemma_row_at(*v, j as int, jhi as int);
            }
            let w = p[j - kv0];
            let vj = v.row(j);
            let mut t: usize = 0;
            while t < d
                invariant
                    kv0 <= j < jhi,
                    t <= d <= vj@.len(),
                    d == start.len(),
                    out@.len() == d,
                    w == p@[j - kv0],
                    forall|u: int| 0 <= u < d ==> #[trigger] vj@[u] == v.at(j as int, u),
                    forall|u: int|
                        0 <= u < t ==> #[trigger] out@[u] == absorbed_at::<S, Self>(
                            start[u],
                            p@,
                            *v,
                            kv0 as int,
                            u,
                            d as int,
                            (j + 1 - kv0) as nat,
                        ),
                    forall|u: int|
                        t <= u < d ==> #[trigger] out@[u] == absorbed_at::<S, Self>(
                            start[u],
                            p@,
                            *v,
                            kv0 as int,
                            u,
                            d as int,
                            (j - kv0) as nat,
                        ),
                decreases d - t,
            {
                out[t] = out[t].add(w.mul(vj[t]));
                t += 1;
            }
            j += 1;
        }
        assert(out@ =~= absorbed::<S, Self>(start, p@, *v, kv0 as int));
    }
}

/// Folds keys `kv0..jhi` into one row's running softmax; returns the new
/// maximum and normalizer.
fn advance_row<S: Scalar, P: TilePath<S>>(
    qi: &[S],
    k: &Mat<S>,
    v: &Mat<S>,
    kv0: usize,
    jhi: usize,
    scale: S,
    m_old: S,
    l_old: S,
    oi: &mut [S],
) -> (r: (S, S))
    requires
        kv0 < jhi,
        k.covers(jhi as int, qi@.len() as int),
        v.covers(jhi as int, old(oi)@.len() as int),
    ensures
        (RowState { m: r.0, l: r.1, o: final(oi)@ }) == step::<S, P>(
            RowState { m: m_old, l: l_old, o: old(oi)@ },
            block_scores::<S, P>(qi@, *k, kv0 as int, jhi as int, scale),
            *v,
            kv0 as int,
        ),
{
    let x = P::score_block(qi, k, kv0, jhi, scale);
    let mut block_max = S::neg_infinity();
    let mut bj: usize = 0;
    while bj < x.len()
        invariant
            bj <= x@.len(),
            block_max == top_of(x@, bj as nat),
        decreases x.len() - bj,
    {
        if x[bj].greater_than(block_max) {
            block_max = x[bj];
        }
        bj += 1;
    }
    let m_new = m_old.max(block_max);
    let correction = if m_old.equals(S::neg_infinity()) {
        S::zero()
    } else {
        m_old.sub(m_new).exp()
    };
    if !correction.equals(S::one()) {
        P::rescale(oi, correction);
    }
    let p = P::weigh(&x, m_new);
    let l_new = P::gather(l_old.mul(correction), &p);
    P::absorb(oi, &p, v, kv0, jhi);
    (m_new, l_new)
}

/// Row `i` of the working arrays is in state `st`.
spec fn in_state<S>(m: Seq<S>, l: Seq<S>, out: Mat<S>, i: int, st: RowState<S>) -> bool {
    &&& m[i] == st.m
    &&& l[i] == st.l
    &&& out.row_seq(i) == st.o
}

/// Row `i` has the same state in both sets of working arrays.
spec fn same_row<S>(
    m: Seq<S>,
    l: Seq<S>,
    out: Mat<S>,
    m0: Seq<S>,
    l0: Seq<S>,
    out0: Mat<S>,
    i: int,
) -> bool {
    &&& m[i] == m0[i]
    &&& l[i] == l0[i]
    &&& out.row_seq(i) == out0.row_seq(i)
}

/// The arrays that hold the running softmax of every row fit the problem.
spec fn fits<S>(m: Seq<S>, l: Seq<S>, out: Mat<S>, n: usize, d: usize) -> bool {
    &&& m.len() == n
    &&& l.len() == n
    &&& out.wf()
    &&& out.rows == n
    &&& out.cols == d
}

/// Folds tile `b` into rows `q0..q1`.
fn advance_rows<S: Scalar, P: TilePath<S>>(
    q: &Mat<S>,
    k: &Mat<S>,
    v: &Mat<S>,
    causal: bool,
    block: usize,
    scale: S,
    q0: usize,
    q1: usize,
    kv0: usize,
    kv1: usize,
    b: Ghost<nat>,
    m: &mut Vec<S>,
    l: &mut Vec<S>,
    out: &mut Mat<S>,
)
    requires
        attends(*q, *k, *v),
        scale == scale_spec::<S>(q.cols),
        q0 <= q1 <= q.rows,
        kv0 < kv1 <= q.rows,
        kv0 == b@ * block,
        kv1 == if (b@ + 1) * block < q.rows { (b@ + 1) * block } else { q.rows as int },
        fits(old(m)@, old(l)@, *old(out), q.rows, q.cols),
        forall|i: int|
            q0 <= i < q1 ==> #[trigger] in_state(
                old(m)@,
                old(l)@,
                *old(out),
                i,
                row_after::<S, P>(*q, *k, *v, causal, block as int, i, b@),
            ),
    ensures
        fits(final(m)@, final(l)@, *final(out), q.rows, q.cols),
        forall|i: int|
            q0 <= i < q1 ==> #[trigger] in_state(
                final(m)@,
                final(l)@,
                *final(out),
                i,
                row_after::<S, P>(*q, *k, *v, causal, block as int, i, b@ + 1),
            ),
        forall|i: int, st: RowState<S>|
            0 <= i < q.rows && !(q0 <= i < q1) ==> (#[trigger] in_state(
                final(m)@,
                final(l)@,
                *final(out),
                i,
                st,
            ) <==> in_state(old(m)@, old(l)@, *old(out), i, st)),
{
    let n = q.rows;
    let d = q.cols;
    let ghost m0 = m@;
    let ghost l0 = l@;
    let ghost out0 = *out;
    let mut i: usize = q0;
    while i < q1
        invariant
            q0 <= i <= q1 <= n,
            n == q.rows,
            d == q.cols,
            attends(*q, *k, *v),
            scale == scale_spec::<S>(d),
            kv0 < kv1 <= n,
            kv0 == b@ * block,
            kv1 == if (b@ + 1) * block < n { (b@ + 1) * block } else { n as int },
            fits(m@, l@, *out, n, d),
            fits(m0, l0, out0, n, d),
            forall|r: int|
                q0 <= r < q1 ==> #[trigger] in_state(
                    m0,
                    l0,
                    out0,
                    r,
                    row_after::<S, P>(*q, *k, *v, causal, block as int, r, b@),
                ),
            forall|r: int|
                q0 <= r < i ==> #[trigger] in_state(
                    m@,
                    l@,
                    *out,
                    r,
                    row_after::<S, P>(*q, *k, *v, causal, block as int, r, b@ + 1),
                ),
            forall|r: int|
                0 <= r < n && !(q0 <= r < i) ==> #[trigger] same_row(m@, l@, *out, m0, l0, out0, r),
        decreases q1 - i,
    {
        // Blocks straddling the diagonal still contain masked entries; the
        // per-element `j <= i` mask is applied by clamping `jhi`.
        let jhi: usize = if causal && i + 1 < kv1 {
            i + 1
        } else {
            kv1
        };
        let ghost st = row_after::<S, P>(*q, *k, *v, causal, block as int, i as int, b@);
        let ghost before = *out;
        let ghost m1 = m@;
        let ghost l1 = l@;
        assert(in_state(m0, l0, out0, i as int, st));
        assert(same_row(m@, l@, *out, m0, l0, out0, i as int));
        if jhi > kv0 {
            proof {
                lemma_row_bounds(i as int, n as int, d as int);
                assert(jhi * k.cols <= n * k.cols) by (nonlinear_arith)
                    requires
                        jhi <= n,
                        0 <= k.cols,
                ;
                assert(jhi * v.cols <= n * v.cols) by (nonlinear_arith)
                    requires
                        jhi <= n,
                        0 <= v.cols,
                ;
            }
            let oi = out.row_mut(i);
            let (m_new, l_new) = advance_row::<S, P>(
                q.row(i),
                k,
                v,
                kv0,
                jhi,
                scale,
                m[i],
                l[i],
                oi,
            );
            let ghost part = oi@;
            proof {
                lemma_splice_rows(before, *out, i as int, n as int, part);
            }
            m[i] = m_new;
            l[i] = l_new;
        }
        assert(in_state(
            m@,
            l@,
            *out,
            i as int,
            row_after::<S, P>(*q, *k, *v, causal, block as int, i as int, b@ + 1),
        ));
        proof {
            assert forall|r: int| q0 <= r < i implies #[trigger] in_state(
                m@,
                l@,
                *out,
                r,
                row_after::<S, P>(*q, *k, *v, causal, block as int, r, b@ + 1),
            ) by {
                assert(in_state(
                    m1,
                    l1,
                    before,
                    r,
                    row_after::<S, P>(*q, *k, *v, causal, block as int, r, b@ + 1),
                ));
                assert(out.row_seq(r) == before.row_seq(r));
            }
            assert forall|r: int| 0 <= r < n && !(q0 <= r < i + 1) implies #[trigger] same_row(
                m@,
                l@,
                *out,
                m0,
                l0,
                out0,
                r,
            ) by {
                assert(same_row(m1, l1, before, m0, l0, out0, r));
                assert(out.row_seq(r) == before.row_seq(r));
            }
        }
        i += 1;
    }
    proof {
        assert forall|r: int, st: RowState<S>| 0 <= r < n && !(q0 <= r < q1) implies (
        #[trigger] in_state(m@, l@, *out, r, st) <==> in_state(m0, l0, out0, r, st)) by {
            assert(same_row(m@, l@, *out, m0, l0, out0, r));
        }
    }
}

/// The tiled kernel with tiles of `block` rows, on a given path.
pub(crate) fn attention_with<S: Scalar, P: TilePath<S>>(
    q: &Mat<S>,
    k: &Mat<S>,
    v: &Mat<S>,
    causal: bool,
    block: usize,
) -> (out: Mat<S>)
    requires
        attends(*q, *k, *v),
        q.rows > 0 ==> block > 0,
    ensures
        out.wf(),
        out.rows == q.rows,
        out.cols == q.cols,
        forall|i: int, t: int|
            0 <= i < q.rows && 0 <= t < q.cols ==> #[trigger] out.at(i, t) == tiled_at::<S, P>(
                *q,
                *k,
                *v,
                causal,
                block as int,
                i,
                t,
            ),
{
    let n = q.rows;
    let d = q.cols;
    let scale = scale::<S>(d);
    let mut out = Mat::<S>::zeros(n, d);
    let mut m: Vec<S> = repeated(S::neg_infinity(), n);
    let mut l: Vec<S> = repeated(S::zero(), n);
    let ghost last = tiles(n as int, block as int);
    proof {
        assert forall|i: int| 0 <= i < n implies #[trigger] in_state(
            m@,
            l@,
            out,
            i,
            row_after::<S, P>(*q, *k, *v, causal, block as int, i, 0),
        ) by {
            lemma_row_bounds(i, n as int, d as int);
            assert(out.row_seq(i) =~= fresh::<S>(d as nat).o);
        }
    }

    let mut q0: usize = 0;
    while q0 < n
        invariant
            q0 <= n,
            n == q.rows,
            d == q.cols,
            n > 0 ==> block > 0,
            attends(*q, *k, *v),
            scale == scale_spec::<S>(d),
            fits(m@, l@, out, n, d),
            last == tiles(n as int, block as int),
            forall|i: int|
                0 <= i < q0 ==> #[trigger] in_state(
                    m@,
                    l@,
                    out,
                    i,
                    row_after::<S, P>(*q, *k, *v, causal, block as int, i, last),
                ),
            forall|i: int|
                q0 <= i < n ==> #[trigger] in_state(
                    m@,
                    l@,
                    out,
                    i,
                    row_after::<S, P>(*q, *k, *v, causal, block as int, i, 0),
                ),
        decreases n - q0,
    {
        let q1: usize = if block < n - q0 {
            q0 + block
        } else {
            n
        };
        let mut kv0: usize = 0;
        let mut b: Ghost<nat> = Ghost(0);
        // Causal block skip: if the whole KV block sits strictly after the
        // whole query block, every (i, j) in it is masked, and KV blocks only
        // increase; nothing after this qualifies.
        while kv0 < n && (!causal || kv0 < q1)
            invariant
                q0 < q1 <= n,
                n == q.rows,
                d == q.cols,
                block > 0,
                attends(*q, *k, *v),
                scale == scale_spec::<S>(d),
                fits(m@, l@, out, n, d),
                last == tiles(n as int, block as int),
                b@ * block < n ==> kv0 == b@ * block,
                b@ * block >= n ==> kv0 == n,
                b@ > 0 ==> (b@ - 1) * block < n,
                forall|i: int|
                    0 <= i < q0 ==> #[trigger] in_state(
                        m@,
                        l@,
                        out,
                        i,
                        row_after::<S, P>(*q, *k, *v, causal, block as int, i, last),
                    ),
                forall|i: int|
                    q0 <= i < q1 ==> #[trigger] in_state(
                        m@,
                        l@,
                        out,
                        i,
                        row_after::<S, P>(*q, *k, *v, causal, block as int, i, b@),
                    ),
                forall|i: int|
                    q1 <= i < n ==> #[trigger] in_state(
                        m@,
                        l@,
                        out,
                        i,
                        row_after::<S, P>(*q, *k, *v, causal, block as int, i, 0),
                    ),
            decreases n - kv0,
        {
            let kv1: usize = if block < n - kv0 {
                kv0 + block
            } else {
                n
            };
            proof {
                assert((b@ + 1) * block == b@ * block + block) by (nonlinear_arith);
            }
            advance_rows::<S, P>(
                q,
                k,
                v,
                causal,
                block,
                scale,
                q0,
                q1,
                kv0,
                kv1,
                b,
                &mut m,
                &mut l,
                &mut out,
            );
            kv0 = kv1;
            b = Ghost(b@ + 1);
        }
        proof {
            assert(b@ <= last) by {
                lemma_tiles_reached(n as int, block as int, b@);
            }
            assert forall|i: int| q0 <= i < q1 implies #[trigger] in_state(
                m@,
                l@,
                out,
                i,
                row_after::<S, P>(*q, *k, *v, causal, block as int, i, last),
            ) by {
                assert(reach(n as int, causal, i) <= b@ * block);
                idle_tiles_change_nothing::<S, P>(*q, *k, *v, causal, block as int, i, b@, last);
            }
        }
        q0 = q1;
    }

    let mut i: usize = 0;
    while i < n
        invariant
            i <= n,
            n == q.rows,
            d == q.cols,
            fits(m@, l@, out, n, d),
            last == tiles(n as int, block as int),
            forall|r: int|
                i <= r < n ==> #[trigger] in_state(
                    m@,
                    l@,
                    out,
                    r,
                    row_after::<S, P>(*q, *k, *v, causal, block as int, r, last),
                ),
            forall|r: int|
                0 <= r < i ==> #[trigger] out.row_seq(r) == Seq::new(
                    d as nat,
                    |t: int| tiled_at::<S, P>(*q, *k, *v, causal, block as int, r, t),
                ),
        decreases n - i,
    {
        let denom = if l[i].equals(S::zero()) {
            S::one()
        } else {
            l[i]
        };
        let inv = S::one().div(denom);
        let ghost before = out;
        let ghost part = Seq::new(
            d as nat,
            |t: int| tiled_at::<S, P>(*q, *k, *v, causal, block as int, i as int, t),
        );
        proof {
            lemma_row_bounds(i as int, n as int, d as int);
            assert(in_state(
                m@,
                l@,
                out,
                i as int,
                row_after::<S, P>(*q, *k, *v, causal, block as int, i as int, last),
            ));
        }
        let oi = out.row_mut(i);
        P::rescale(oi, inv);
        assert(oi@ =~= part);
        proof {
            lemma_splice_rows(before, out, i as int, n as int, part);
            assert forall|r: int| i < r < n implies #[trigger] in_state(
                m@,
                l@,
                out,
                r,
                row_after::<S, P>(*q, *k, *v, causal, block as int, r, last),
            ) by {
                assert(in_state(
                    m@,
                    l@,
                    before,
                    r,
                    row_after::<S, P>(*q, *k, *v, causal, block as int, r, last),
                ));
                assert(out.row_seq(r) == before.row_seq(r));
            }
        }
        i += 1;
    }
    proof {
        assert forall|r: int, t: int| 0 <= r < n && 0 <= t < d implies #[trigger] out.at(r, t)
            == tiled_at::<S, P>(*q, *k, *v, causal, block as int, r, t) by {
            lemma_row_at(out, r, n as int);
            assert(out.row_seq(r)[t] == tiled_at::<S, P>(
                *q,
                *k,
                *v,
                causal,
                block as int,
                r,
                t,
            ));
        }
    }
    out
}

/// A loop that stops once it has covered `n` keys visits at most `tiles` tiles.
proof fn lemma_tiles_reached(n: int, block: int, b: nat)
    requires
        n >= 0,
        block > 0,
        b > 0 ==> (b - 1) * block < n,
    ensures
        b <= tiles(n, block),
{
    if b > 0 {
        assert(b * block <= n + block - 1) by (nonlinear_arith)
            requires
                (b - 1) * block < n,
        ;
        vstd::arithmetic::div_mod::lemma_div_is_ordered(b * block, n + block - 1, block);
        vstd::arithmetic::div_mod::lemma_div_by_multiple(b as int, block);
    } else {
        vstd::arithmetic::div_mod::lemma_div_pos_is_pos(n + block - 1, block);
    }
}

/// The kernel at the default tile size.
pub fn attention<S: Scalar>(q: &Mat<S>, k: &Mat<S>, v: &Mat<S>, causal: bool) -> (out: Mat<S>)
    requires
        attends(*q, *k, *v),
    ensures
        out.wf(),
        out.rows == q.rows,
        out.cols == q.cols,
        forall|i: int, t: int|
            0 <= i < q.rows && 0 <= t < q.cols ==> #[trigger] out.at(i, t) == tiled_at::<
                S,
                Portable,
            >(*q, *k, *v, causal, BLOCK as int, i, t),
{
    attention_b::<S, BLOCK>(q, k, v, causal)
}

/// The kernel with the tile size as a const parameter, so a sweep can
/// instantiate several and compare. Monomorphized per size, so the block bounds
/// stay compile-time constants exactly as they are in `attention`, and the sweep
/// measures the cache behaviour rather than the cost of a dynamic bound.
pub fn attention_b<S: Scalar, const TILE: usize>(
    q: &Mat<S>,
    k: &Mat<S>,
    v: &Mat<S>,
    causal: bool,
) -> (out: Mat<S>)
    requires
        attends(*q, *k, *v),
        q.rows > 0 ==> TILE > 0,
    ensures
        out.wf(),
        out.rows == q.rows,
        out.cols == q.cols,
        forall|i: int, t: int|
            0 <= i < q.rows && 0 <= t < q.cols ==> #[trigger] out.at(i, t) == tiled_at::<
                S,
                Portable,
            >(*q, *k, *v, causal, TILE as int, i, t),
{
    attention_with::<S, Portable>(q, k, v, causal, TILE)
}

} // verus!
