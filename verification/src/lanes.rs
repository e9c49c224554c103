//! Fixed-width vectors and the loops over them, at any lane count: the shared
//! shape of the 8-wide and the 16-wide kernels. Each loop runs whole vectors
//! first and finishes a ragged tail one element at a time.
use crate::mat::{lemma_row_at, lemma_row_bounds, Mat};
use crate::scalar::{Lanes, Scalar};
use crate::tiled::{absorbed_at, scaled, TileOps};
use crate::vexp::{exp_lane_spec, exp_lanes};
use vstd::prelude::*;

verus! {

/// `W` consecutive elements of `s`.
pub(crate) fn load<S: Scalar, const W: usize>(s: &[S], at: usize) -> (r: [S; W])
    requires
        W > 0,
        at + W <= s@.len(),
    ensures
        r@ == s@.subrange(at as int, at + W),
{
    let mut r = [s[at]; W];
    let mut i: usize = 0;
    while i < W
        invariant
            i <= W,
            at + W <= s@.len(),
            s@.len() <= usize::MAX,
            forall|j: int| 0 <= j < i ==> #[trigger] r@[j] == s@[at + j],
        decreases W - i,
    {
        r[i] = s[at + i];
        i += 1;
    }
    assert(r@ =~= s@.subrange(at as int, at + W));
    r
}

/// Writes `W` consecutive elements of `out`.
pub(crate) fn store<S: Scalar, const W: usize>(out: &mut [S], at: usize, x: [S; W])
    requires
        at + W <= old(out)@.len(),
    ensures
        final(out)@.len() == old(out)@.len(),
        forall|t: int| at <= t < at + W ==> #[trigger] final(out)@[t] == x@[t - at],
        forall|t: int|
            0 <= t < old(out)@.len() && !(at <= t < at + W) ==> #[trigger] final(out)@[t] == old(
                out,
            )@[t],
{
    let len = out.len();
    let ghost start = out@;
    let mut i: usize = 0;
    while i < W
        invariant
            i <= W,
            at + W <= len,
            len == out@.len(),
            len == start.len(),
            forall|t: int| at <= t < at + i ==> #[trigger] out@[t] == x@[t - at],
            forall|t: int| 0 <= t < len && !(at <= t < at + i) ==> #[trigger] out@[t] == start[t],
        decreases W - i,
    {
        out[at + i] = x[i];
        i += 1;
    }
}

/// `a * b + c` in every lane, with one rounding.
pub(crate) fn fma<S: Scalar, const W: usize>(a: [S; W], b: [S; W], c: [S; W]) -> (r: [S; W])
    ensures
        forall|i: int| 0 <= i < W ==> #[trigger] r@[i] == a@[i].mul_add_spec(b@[i], c@[i]),
{
    let mut r = c;
    let mut i: usize = 0;
    while i < W
        invariant
            i <= W,
            forall|j: int| 0 <= j < i ==> #[trigger] r@[j] == a@[j].mul_add_spec(b@[j], c@[j]),
        decreases W - i,
    {
        r[i] = a[i].mul_add(b[i], c[i]);
        i += 1;
    }
    r
}

/// Lane `lane` of a dot product after `steps` vectors of width `w`.
pub open spec fn lane_sum<S: Scalar>(a: Seq<S>, b: Seq<S>, w: int, lane: int, steps: nat) -> S
    decreases steps,
{
    if steps == 0 {
        S::zero_spec()
    } else {
        let t = w * (steps - 1) + lane;
        a[t].mul_add_spec(b[t], lane_sum(a, b, w, lane, (steps - 1) as nat))
    }
}

/// `total` plus the products of elements `from..to`, from the left.
pub open spec fn with_tail<S: Scalar>(total: S, a: Seq<S>, b: Seq<S>, from: int, to: int) -> S
    decreases to - from,
{
    if to <= from {
        total
    } else {
        with_tail(total, a, b, from, to - 1).add_spec(a[to - 1].mul_spec(b[to - 1]))
    }
}

/// The length of the part of `n` elements that whole vectors of width `w` cover.
pub open spec fn whole(n: int, w: int) -> int {
    w * (n / w)
}

/// A loop that advances by `w` while a whole vector fits ends at `whole(n, w)`.
pub(crate) proof fn lemma_whole(n: int, w: int, s: int)
    requires
        w > 0,
        w * s <= n < w * s + w,
    ensures
        n / w == s,
        whole(n, w) == w * s,
{
    vstd::arithmetic::mul::lemma_mul_is_commutative(w, s);
    vstd::arithmetic::div_mod::lemma_fundamental_div_mod_converse(n, w, s, n - w * s);
}

/// Bounds of `whole`.
pub(crate) proof fn lemma_whole_bounds(n: int, w: int)
    requires
        w > 0,
        n >= 0,
    ensures
        0 <= n / w,
        0 <= whole(n, w) <= n < whole(n, w) + w,
{
    vstd::arithmetic::div_mod::lemma_fundamental_div_mod(n, w);
    vstd::arithmetic::div_mod::lemma_div_pos_is_pos(n, w);
    vstd::arithmetic::mul::lemma_mul_nonnegative(w, n / w);
}

/// One step of a loop over whole vectors.
pub(crate) proof fn lemma_next_vector(w: int, s: int)
    ensures
        w * (s + 1) == w * s + w,
{
    assert(w * (s + 1) == w * s + w) by (nonlinear_arith);
}

/// The lanes of a dot product over whole vectors, and where the tail starts.
pub(crate) fn lane_sums<S: Scalar, const W: usize>(a: &[S], b: &[S]) -> (r: ([S; W], usize))
    requires
        W > 0,
        a@.len() <= b@.len(),
    ensures
        r.1 == whole(a@.len() as int, W as int),
        forall|i: int|
            0 <= i < W ==> #[trigger] r.0@[i] == lane_sum(
                a@,
                b@,
                W as int,
                i,
                (a@.len() as int / W as int) as nat,
            ),
{
    let n = a.len();
    let mut acc = [S::zero(); W];
    let mut t: usize = 0;
    let mut s: Ghost<nat> = Ghost(0);
    while W <= n - t
        invariant
            W > 0,
            n == a@.len(),
            n <= b@.len(),
            t <= n,
            t == W * s@,
            forall|i: int|
                0 <= i < W ==> #[trigger] acc@[i] == lane_sum(a@, b@, W as int, i, s@),
        decreases n - t,
    {
        let va = load::<S, W>(a, t);
        let vb = load::<S, W>(b, t);
        proof {
            lemma_next_vector(W as int, s@ as int);
        }
        acc = fma(va, vb, acc);
        t += W;
        s = Ghost(s@ + 1);
    }
    proof {
        lemma_whole(n as int, W as int, s@ as int);
    }
    (acc, t)
}

/// `total` plus the products of the elements from `from` on.
pub(crate) fn add_tail<S: Scalar>(total: S, a: &[S], b: &[S], from: usize) -> (r: S)
    requires
        from <= a@.len() <= b@.len(),
    ensures
        r == with_tail(total, a@, b@, from as int, a@.len() as int),
{
    let n = a.len();
    let mut r = total;
    let mut t: usize = from;
    while t < n
        invariant
            from <= t <= n,
            n == a@.len(),
            n <= b@.len(),
            r == with_tail(total, a@, b@, from as int, t as int),
        decreases n - t,
    {
        r = r.add(a[t].mul(b[t]));
        t += 1;
    }
    r
}

/// The part of `n` elements past `k` whole vectors splits the same way.
proof fn lemma_whole_rest(n: int, w: int, k: int)
    requires
        w > 0,
        0 <= k,
        w * k <= n,
    ensures
        w * k <= whole(n, w),
        whole(n - w * k, w) == whole(n, w) - w * k,
{
    lemma_whole_bounds(n, w);
    let s = n / w;
    assert(k <= s) by {
        if k > s {
            assert(w * k >= w * (s + 1)) by (nonlinear_arith)
                requires
                    k >= s + 1,
                    w > 0,
            ;
            lemma_next_vector(w, s);
        }
    }
    assert(w * k <= w * s && w * (s - k) == w * s - w * k) by (nonlinear_arith)
        requires
            k <= s,
            w > 0,
    ;
    lemma_whole(n - w * k, w, s - k);
}

/// Output element `t` of `d` after a key of weight `p` and value `v`: one
/// rounding inside a whole vector of width `w`, two in the tail.
pub open spec fn axpy_lane<S: Scalar>(o: S, p: S, v: S, t: int, d: int, w: int) -> S {
    if t < whole(d, w) {
        p.mul_add_spec(v, o)
    } else {
        o.add_spec(p.mul_spec(v))
    }
}

/// An output row after a key of weight `p` and value row `v`.
pub open spec fn axpy_row<S: Scalar>(o: Seq<S>, p: S, v: Seq<S>, w: int) -> Seq<S> {
    Seq::new(o.len(), |t: int| axpy_lane(o[t], p, v[t], t, o.len() as int, w))
}

/// `exp(x)` for entry `bj` of `valid`: approximated inside a whole vector of
/// width `w`, exact in the tail.
pub open spec fn exp_in_lanes<S: Lanes>(x: S, bj: int, valid: int, w: int) -> S {
    if bj < whole(valid, w) {
        exp_lane_spec(x)
    } else {
        x.exp_spec()
    }
}

/// `out += p * v`, `W` lanes at a time.
pub(crate) fn axpy<S: Scalar, const W: usize>(out: &mut [S], v: &[S], p: S)
    requires
        W > 0,
        old(out)@.len() <= v@.len(),
    ensures
        final(out)@ == axpy_row(old(out)@, p, v@, W as int),
{
    let n = out.len();
    let ghost start = out@;
    let vp = [p; W];
    let mut t: usize = 0;
    let mut s: Ghost<nat> = Ghost(0);
    while W <= n - t
        invariant
            W > 0,
            n == out@.len(),
            n == start.len(),
            n <= v@.len(),
            t <= n,
            t == W * s@,
            forall|i: int| 0 <= i < W ==> #[trigger] vp@[i] == p,
            forall|u: int| 0 <= u < t ==> #[trigger] out@[u] == p.mul_add_spec(v@[u], start[u]),
            forall|u: int| t <= u < n ==> #[trigger] out@[u] == start[u],
        decreases n - t,
    {
        let vo = load::<S, W>(out, t);
        let vv = load::<S, W>(v, t);
        proof {
            lemma_next_vector(W as int, s@ as int);
        }
        let r = fma(vp, vv, vo);
        assert forall|i: int| 0 <= i < W implies #[trigger] r@[i] == p.mul_add_spec(
            v@[t + i],
            start[t + i],
        ) by {
            assert(vp@[i] == p);
        }
        store(out, t, r);
        t += W;
        s = Ghost(s@ + 1);
    }
    proof {
        lemma_whole(n as int, W as int, s@ as int);
    }
    while t < n
        invariant
            whole(n as int, W as int) <= t <= n,
            n == out@.len(),
            n == start.len(),
            n <= v@.len(),
            forall|u: int|
                0 <= u < t ==> #[trigger] out@[u] == axpy_lane(
                    start[u],
                    p,
                    v@[u],
                    u,
                    n as int,
                    W as int,
                ),
            forall|u: int| t <= u < n ==> #[trigger] out@[u] == start[u],
        decreases n - t,
    {
        out[t] = out[t].add(p.mul(v[t]));
        t += 1;
    }
    assert(out@ =~= axpy_row(start, p, v@, W as int));
}

/// `out *= c`, `W` lanes at a time.
pub(crate) fn rescale<S: Scalar, const W: usize>(out: &mut [S], c: S)
    requires
        W > 0,
    ensures
        final(out)@ == scaled(old(out)@, c),
{
    let n = out.len();
    let ghost start = out@;
    let mut t: usize = 0;
    while W <= n - t
        invariant
            W > 0,
            n == out@.len(),
            n == start.len(),
            t <= n,
            forall|u: int| 0 <= u < t ==> #[trigger] out@[u] == start[u].mul_spec(c),
            forall|u: int| t <= u < n ==> #[trigger] out@[u] == start[u],
        decreases n - t,
    {
        let mut vo = load::<S, W>(out, t);
        let mut i: usize = 0;
        while i < W
            invariant
                i <= W,
                t + W <= n,
                n == start.len(),
                forall|j: int| 0 <= j < i ==> #[trigger] vo@[j] == start[t + j].mul_spec(c),
                forall|j: int| i <= j < W ==> #[trigger] vo@[j] == start[t + j],
            decreases W - i,
        {
            vo[i] = vo[i].mul(c);
            i += 1;
        }
        store(out, t, vo);
        t += W;
    }
    while t < n
        invariant
            n == out@.len(),
            n == start.len(),
            t <= n,
            forall|u: int| 0 <= u < t ==> #[trigger] out@[u] == start[u].mul_spec(c),
            forall|u: int| t <= u < n ==> #[trigger] out@[u] == start[u],
        decreases n - t,
    {
        out[t] = out[t].mul(c);
        t += 1;
    }
    assert(out@ =~= scaled(start, c));
}

/// `exp(x - m)` of every score, `W` lanes at a time.
pub(crate) fn weigh<S: Lanes, const W: usize>(x: &Vec<S>, m: S) -> (p: Vec<S>)
    requires
        W > 0,
    ensures
        p@.len() == x@.len(),
        forall|bj: int|
            0 <= bj < x@.len() ==> #[trigger] p@[bj] == exp_in_lanes(
                x@[bj].sub_spec(m),
                bj,
                x@.len() as int,
                W as int,
            ),
{
    let valid = x.len();
    let mut p: Vec<S> = Vec::with_capacity(valid);
    let mut bj: usize = 0;
    let mut s: Ghost<nat> = Ghost(0);
    while W <= valid - bj
        invariant
            W > 0,
            valid == x@.len(),
            bj <= valid,
            bj == W * s@,
            p@.len() == bj,
            forall|u: int|
                0 <= u < bj ==> #[trigger] p@[u] == exp_lane_spec(x@[u].sub_spec(m)),
        decreases valid - bj,
    {
        let mut e = load::<S, W>(x.as_slice(), bj);
        let mut i: usize = 0;
        while i < W
            invariant
                i <= W,
                bj + W <= valid,
                valid == x@.len(),
                forall|j: int| 0 <= j < i ==> #[trigger] e@[j] == x@[bj + j].sub_spec(m),
                forall|j: int| i <= j < W ==> #[trigger] e@[j] == x@[bj + j],
            decreases W - i,
        {
            e[i] = e[i].sub(m);
            i += 1;
        }
        let e = exp_lanes(e);
        i = 0;
        while i < W
            invariant
                i <= W,
                bj + W <= valid,
                valid == x@.len(),
                p@.len() == bj + i,
                forall|j: int|
                    0 <= j < W ==> #[trigger] e@[j] == exp_lane_spec(x@[bj + j].sub_spec(m)),
                forall|u: int|
                    0 <= u < bj + i ==> #[trigger] p@[u] == exp_lane_spec(x@[u].sub_spec(m)),
            decreases W - i,
        {
            p.push(e[i]);
            i += 1;
        }
        proof {
            lemma_next_vector(W as int, s@ as int);
        }
        bj += W;
        s = Ghost(s@ + 1);
    }
    proof {
        lemma_whole(valid as int, W as int, s@ as int);
    }
    while bj < valid
        invariant
            whole(valid as int, W as int) <= bj <= valid,
            valid == x@.len(),
            p@.len() == bj,
            forall|u: int|
                0 <= u < bj ==> #[trigger] p@[u] == exp_in_lanes(
                    x@[u].sub_spec(m),
                    u,
                    valid as int,
                    W as int,
                ),
        decreases valid - bj,
    {
        p.push(x[bj].sub(m).exp());
        bj += 1;
    }
    p
}

/// A path that adds values to the output `w` lanes at a time.
pub open spec fn adds_in_lanes<S: Scalar, P: TileOps<S>>(w: int) -> bool {
    forall|o: S, p: S, v: S, t: int, d: int| #[trigger]
        P::axpy_at(o, p, v, t, d) == axpy_lane(o, p, v, t, d, w)
}

/// A vector of output elements from `at` on, after `count` keys of a tile.
spec fn column<S: Scalar, P: TileOps<S>>(
    acc: Seq<S>,
    start: Seq<S>,
    p: Seq<S>,
    v: Mat<S>,
    kv0: int,
    at: int,
    count: nat,
) -> bool {
    forall|i: int|
        0 <= i < acc.len() ==> #[trigger] acc[i] == absorbed_at::<S, P>(
            start[at + i],
            p,
            v,
            kv0,
            at + i,
            start.len() as int,
            count,
        )
}

/// Adds the key at row `j`, of weight `p[j - kv0]`, to a vector of output elements.
fn absorb_key<S: Scalar, P: TileOps<S>, const W: usize>(
    acc: [S; W],
    p: &[S],
    v: &Mat<S>,
    kv0: usize,
    j: usize,
    at: usize,
    start: Ghost<Seq<S>>,
) -> (r: [S; W])
    requires
        W > 0,
        adds_in_lanes::<S, P>(W as int),
        kv0 <= j,
        j - kv0 < p@.len(),
        j < usize::MAX,
        (j + 1) * v.cols <= v.data@.len(),
        at + W <= whole(start@.len() as int, W as int),
        start@.len() <= v.cols,
        column::<S, P>(acc@, start@, p@, *v, kv0 as int, at as int, (j - kv0) as nat),
    ensures
        column::<S, P>(r@, start@, p@, *v, kv0 as int, at as int, (j - kv0 + 1) as nat),
{
    proof {
        lemma_whole_bounds(start@.len() as int, W as int);
        lemma_row_at(*v, j as int, j + 1);
    }
    let vr = v.row(j);
    let w = p[j - kv0];
    let r = fma([w; W], load::<S, W>(vr, at), acc);
    assert forall|i: int| 0 <= i < W implies #[trigger] r@[i] == absorbed_at::<S, P>(
        start@[at + i],
        p@,
        *v,
        kv0 as int,
        at + i,
        start@.len() as int,
        (j - kv0 + 1) as nat,
    ) by {
        assert(acc@[i] == absorbed_at::<S, P>(
            start@[at + i],
            p@,
            *v,
            kv0 as int,
            at + i,
            start@.len() as int,
            (j - kv0) as nat,
        ));
        assert(v.row_seq(j as int)[at + i] == v.at(j as int, at + i));
    }
    r
}

/// `out += sum_j p[j] * V[j]` over one KV block, holding a stretch of the
/// output row in registers for the whole block.
///
/// The obvious loop is one `axpy` per key, and that reloads and restores the
/// entire output row every time. Interchanging the loops fixes it: walking
/// `out` in chunks of four vectors and putting the key loop *inside* means four
/// accumulators stay in registers across every key in the block, and `out` is
/// touched once at each end. Only `V` is streamed, which is the part that
/// genuinely has to move.
pub(crate) fn accumulate<S: Scalar, P: TileOps<S>, const W: usize>(
    oi: &mut [S],
    v: &Mat<S>,
    kv0: usize,
    jhi: usize,
    p: &[S],
)
    requires
        0 < W <= 64,
        adds_in_lanes::<S, P>(W as int),
        kv0 < jhi && old(oi)@.len() > 0 ==> jhi - kv0 <= p@.len() && v.covers(
            jhi as int,
            old(oi)@.len() as int,
        ),
    ensures
        final(oi)@.len() == old(oi)@.len(),
        kv0 >= jhi ==> final(oi)@ == old(oi)@,
        forall|t: int|
            kv0 < jhi && 0 <= t < old(oi)@.len() ==> #[trigger] final(oi)@[t] == absorbed_at::<
                S,
                P,
            >(
                old(oi)@[t],
                p@,
                *v,
                kv0 as int,
                t,
                old(oi)@.len() as int,
                (jhi - kv0) as nat,
            ),
{
    let d = oi.len();
    if kv0 >= jhi || d == 0 {
        return;
    }
    let ghost start = oi@;
    let ghost count = (jhi - kv0) as nat;
    let chunk: usize = 4 * W;
    let mut base: usize = 0;
    let mut c: Ghost<nat> = Ghost(0);
    assert(W * (4 * c@) == 0) by (nonlinear_arith)
        requires
            c@ == 0,
    ;
    while chunk <= d - base
        invariant
            0 < W <= 64,
            chunk == 4 * W,
            adds_in_lanes::<S, P>(W as int),
            kv0 <= jhi,
            jhi - kv0 <= p@.len(),
            count == jhi - kv0,
            v.covers(jhi as int, d as int),
            d == oi@.len(),
            d == start.len(),
            base <= d,
            base == W * (4 * c@),
            forall|t: int|
                0 <= t < base ==> #[trigger] oi@[t] == absorbed_at::<S, P>(
                    start[t],
                    p@,
                    *v,
                    kv0 as int,
                    t,
                    d as int,
                    count,
                ),
            forall|t: int| base <= t < d ==> #[trigger] oi@[t] == start[t],
        decreases d - base,
    {
        proof {
            assert(W * (4 * (c@ + 1)) == W * (4 * c@) + 4 * W) by (nonlinear_arith);
            lemma_whole_rest(d as int, W as int, 4 * (c@ + 1) as int);
        }
        let mut a0 = load::<S, W>(oi, base);
        let mut a1 = load::<S, W>(oi, base + W);
        let mut a2 = load::<S, W>(oi, base + 2 * W);
        let mut a3 = load::<S, W>(oi, base + 3 * W);
        let mut j: usize = kv0;
        while j < jhi
            invariant
                0 < W <= 64,
                adds_in_lanes::<S, P>(W as int),
                kv0 <= j <= jhi,
                jhi - kv0 <= p@.len(),
                v.covers(jhi as int, d as int),
                d == start.len(),
                base + 4 * W <= whole(d as int, W as int),
                base + 4 * W <= d,
                column::<S, P>(a0@, start, p@, *v, kv0 as int, base as int, (j - kv0) as nat),
                column::<S, P>(a1@, start, p@, *v, kv0 as int, base + W, (j - kv0) as nat),
                column::<S, P>(a2@, start, p@, *v, kv0 as int, base + 2 * W, (j - kv0) as nat),
                column::<S, P>(a3@, start, p@, *v, kv0 as int, base + 3 * W, (j - kv0) as nat),
            decreases jhi - j,
        {
            proof {
                lemma_row_bounds(j as int, jhi as int, v.cols as int);
            }
            a0 = absorb_key::<S, P, W>(a0, p, v, kv0, j, base, Ghost(start));
            a1 = absorb_key::<S, P, W>(a1, p, v, kv0, j, base + W, Ghost(start));
            a2 = absorb_key::<S, P, W>(a2, p, v, kv0, j, base + 2 * W, Ghost(start));
            a3 = absorb_key::<S, P, W>(a3, p, v, kv0, j, base + 3 * W, Ghost(start));
            j += 1;
        }
        store(oi, base, a0);
        store(oi, base + W, a1);
        store(oi, base + 2 * W, a2);
        store(oi, base + 3 * W, a3);
        base += chunk;
        c = Ghost(c@ + 1);
    }
    proof {
        lemma_whole_rest(d as int, W as int, 4 * c@ as int);
    }

    // Whatever is left over keeps the per-key form.
    if base < d {
        let mut j: usize = kv0;
        while j < jhi
            invariant
                0 < W <= 64,
                adds_in_lanes::<S, P>(W as int),
                kv0 <= j <= jhi,
                jhi - kv0 <= p@.len(),
                count == jhi - kv0,
                v.covers(jhi as int, d as int),
                d == oi@.len(),
                d == start.len(),
                base < d,
                base <= whole(d as int, W as int),
                whole(d - base, W as int) == whole(d as int, W as int) - base,
                forall|t: int|
                    0 <= t < base ==> #[trigger] oi@[t] == absorbed_at::<S, P>(
                        start[t],
                        p@,
                        *v,
                        kv0 as int,
                        t,
                        d as int,
                        count,
                    ),
                forall|t: int|
                    base <= t < d ==> #[trigger] oi@[t] == absorbed_at::<S, P>(
                        start[t],
                        p@,
                        *v,
                        kv0 as int,
                        t,
                        d as int,
                        (j - kv0) as nat,
                    ),
            decreases jhi - j,
        {
            proof {
                lemma_row_bounds(j as int, jhi as int, v.cols as int);
                lemma_row_at(*v, j as int, jhi as int);
            }
            let ghost before = oi@;
            let vr = v.row(j);
            let w = p[j - kv0];
            let (_done, rest) = oi.split_at_mut(base);
            axpy::<S, W>(rest, &vr[base..vr.len()], w);
            proof {
                assert forall|t: int| base <= t < d implies #[trigger] oi@[t] == absorbed_at::<
                    S,
                    P,
                >(start[t], p@, *v, kv0 as int, t, d as int, (j - kv0 + 1) as nat) by {
                    assert(before[t] == absorbed_at::<S, P>(
                        start[t],
                        p@,
                        *v,
                        kv0 as int,
                        t,
                        d as int,
                        (j - kv0) as nat,
                    ));
                    assert(v.row_seq(j as int)[t] == v.at(j as int, t));
                }
            }
            j += 1;
        }
    }
}

} // verus!
