//! What the vector primitives compute.
use crate::avx512::{accumulate_avx512, axpy_avx512, dot_avx512, scale_avx512, Avx512};
use crate::laws::model::of;
use crate::laws::paths::{avx2_is_textbook, avx512_is_textbook, dot16_matches_dot, dot4_matches_dot};
use crate::laws::softmax::textbook;
use crate::laws::sums::finite_upto;
use crate::laws::terms::{entry, splits, total};
use crate::mat::Mat;
use crate::scalar::{Exact, Lanes, Scalar};
use crate::score::dot_spec;
use crate::simd::{accumulate_avx2, axpy_avx2, dot4_avx2, dot_avx2, scale_avx2, Avx2};
use crate::tiled::{absorbed_at, TileOps};
use crate::vexp::{exp16, exp8, exp_lane_spec};
use vstd::prelude::*;

verus! {

/// The sum of the products of corresponding elements.
pub open spec fn inner<S: Scalar>(a: Seq<S>, b: Seq<S>) -> S {
    total(|t: int| a[t].mul_spec(b[t]), a.len())
}

proof fn lemma_inner<S: Scalar>(a: Seq<S>, b: Seq<S>, d: nat)
    ensures
        dot_spec(a, b, d) == total(|t: int| a[t].mul_spec(b[t]), d),
    decreases d,
{
    if d > 0 {
        lemma_inner(a, b, (d - 1) as nat);
    }
}

/// In exact arithmetic every dot product is the sum of the products, and four at a
/// time come in the order of the rows.
pub proof fn dots_are_sums_of_products<S: Exact>(
    a: &[S],
    b0: &[S],
    b1: &[S],
    b2: &[S],
    b3: &[S],
    eight: S,
    sixteen: S,
    four: [S; 4],
)
    requires
        a@.len() <= b0@.len(),
        a@.len() <= b1@.len(),
        a@.len() <= b2@.len(),
        a@.len() <= b3@.len(),
        finite_upto(a@, a@.len() as int),
        finite_upto(b0@, a@.len() as int),
        finite_upto(b1@, a@.len() as int),
        finite_upto(b2@, a@.len() as int),
        finite_upto(b3@, a@.len() as int),
        call_ensures(dot_avx2::<S>, (a, b0), eight),
        call_ensures(dot_avx512::<S>, (a, b0), sixteen),
        call_ensures(dot4_avx2::<S>, (a, b0, b1, b2, b3), four),
    ensures
        eight == inner(a@, b0@),
        sixteen == inner(a@, b0@),
        four@[0] == inner(a@, b0@),
        four@[1] == inner(a@, b1@),
        four@[2] == inner(a@, b2@),
        four@[3] == inner(a@, b3@),
{
    dot4_matches_dot(a@, b0@);
    dot4_matches_dot(a@, b1@);
    dot4_matches_dot(a@, b2@);
    dot4_matches_dot(a@, b3@);
    dot16_matches_dot(a@, b0@);
    lemma_inner(a@, b0@, a@.len());
    lemma_inner(a@, b1@, a@.len());
    lemma_inner(a@, b2@, a@.len());
    lemma_inner(a@, b3@, a@.len());
}

/// Scaling multiplies every element, in whatever arithmetic.
pub proof fn scaling_multiplies_every_element<S: Scalar>(a: &mut [S], b: &mut [S], c: S)
    requires
        call_ensures(scale_avx2::<S>, (a, c), ()),
        call_ensures(scale_avx512::<S>, (b, c), ()),
    ensures
        final(a)@ == Seq::new(old(a)@.len(), |i: int| old(a)@[i].mul_spec(c)),
        final(b)@ == Seq::new(old(b)@.len(), |i: int| old(b)@[i].mul_spec(c)),
{
    assert(final(a)@ =~= Seq::new(old(a)@.len(), |i: int| old(a)@[i].mul_spec(c)));
    assert(final(b)@ =~= Seq::new(old(b)@.len(), |i: int| old(b)@[i].mul_spec(c)));
}

/// Adding a weighted row adds the weight times each of its elements.
pub proof fn weighted_rows_are_added<S: Exact>(
    a: &mut [S],
    b: &mut [S],
    v: &[S],
    p: S,
    t: int,
)
    requires
        call_ensures(axpy_avx2::<S>, (a, v, p), ()),
        call_ensures(axpy_avx512::<S>, (b, v, p), ()),
        p.is_finite_spec(),
        0 <= t < v@.len(),
        v@[t].is_finite_spec(),
    ensures
        final(a)@.len() == old(a)@.len(),
        final(b)@.len() == old(b)@.len(),
        t < old(a)@.len() && old(a)@[t].is_finite_spec() ==> final(a)@[t] == old(a)@[t].add_spec(
            p.mul_spec(v@[t]),
        ),
        t < old(b)@.len() && old(b)@[t].is_finite_spec() ==> final(b)@[t] == old(b)@[t].add_spec(
            p.mul_spec(v@[t]),
        ),
{
    S::mul_is_finite(p, v@[t]);
    if t < old(a)@.len() && old(a)@[t].is_finite_spec() {
        S::mul_add_fuses(p, v@[t], old(a)@[t]);
        S::add_commutes(p.mul_spec(v@[t]), old(a)@[t]);
    }
    if t < old(b)@.len() && old(b)@[t].is_finite_spec() {
        S::mul_add_fuses(p, v@[t], old(b)@[t]);
        S::add_commutes(p.mul_spec(v@[t]), old(b)@[t]);
    }
}

proof fn lemma_absorbed<S: Exact, P: TileOps<S>>(
    o: S,
    p: Seq<S>,
    v: Mat<S>,
    kv0: int,
    t: int,
    d: int,
    k: nat,
)
    requires
        textbook::<S, P>(),
        o.is_finite_spec(),
        finite_upto(p, k as int),
        forall|j: int| 0 <= j < k ==> (#[trigger] entry(v, kv0 + j, t)).is_finite_spec(),
    ensures
        absorbed_at::<S, P>(o, p, v, kv0, t, d, k) == o.add_spec(
            total(|j: int| p[j].mul_spec(entry(v, kv0 + j, t)), k),
        ),
        total(|j: int| p[j].mul_spec(entry(v, kv0 + j, t)), k).is_finite_spec(),
    decreases k,
{
    let f = |j: int| p[j].mul_spec(entry(v, kv0 + j, t));
    if k == 0 {
        S::zero_is_finite();
        S::add_zero(o);
    } else {
        let h = (k - 1) as nat;
        lemma_absorbed::<S, P>(o, p, v, kv0, t, d, h);
        let x = entry(v, kv0 + h, t);
        assert(x.is_finite_spec() && p[h as int].is_finite_spec());
        assert(v.at(kv0 + k - 1, t) == x);
        S::mul_is_finite(p[h as int], x);
        S::add_is_finite(o, total(f, h));
        S::add_is_finite(total(f, h), p[h as int].mul_spec(x));
        S::add_associates(o, total(f, h), p[h as int].mul_spec(x));
    }
}

/// Accumulating a block of keys adds the weighted sum of their values to the output
/// row, and an empty block nothing.
pub proof fn blocks_add_their_weighted_values<S: Exact + Lanes>(
    a: &mut [S],
    b: &mut [S],
    v: &Mat<S>,
    kv0: usize,
    jhi: usize,
    p: &[S],
    t: int,
)
    requires
        call_ensures(accumulate_avx2::<S>, (a, v, kv0, jhi, p), ()),
        call_ensures(accumulate_avx512::<S>, (b, v, kv0, jhi, p), ()),
        finite_upto(p@, jhi - kv0),
        forall|j: int|
            0 <= j < jhi - kv0 ==> (#[trigger] entry(*v, kv0 + j, t)).is_finite_spec(),
        0 <= t < old(a)@.len(),
        t < old(b)@.len(),
        old(a)@[t].is_finite_spec(),
        old(b)@[t].is_finite_spec(),
    ensures
        kv0 < jhi ==> final(a)@[t] == old(a)@[t].add_spec(
            total(|j: int| p@[j].mul_spec(entry(*v, kv0 + j, t)), (jhi - kv0) as nat),
        ),
        kv0 < jhi ==> final(b)@[t] == old(b)@[t].add_spec(
            total(|j: int| p@[j].mul_spec(entry(*v, kv0 + j, t)), (jhi - kv0) as nat),
        ),
        kv0 >= jhi ==> final(a)@ == old(a)@ && final(b)@ == old(b)@,
{
    if kv0 < jhi {
        let k = (jhi - kv0) as nat;
        avx2_is_textbook::<S>();
        avx512_is_textbook::<S>();
        lemma_absorbed::<S, Avx2>(
            old(a)@[t],
            p@,
            *v,
            kv0 as int,
            t,
            old(a)@.len() as int,
            k,
        );
        lemma_absorbed::<S, Avx512>(
            old(b)@[t],
            p@,
            *v,
            kv0 as int,
            t,
            old(b)@.len() as int,
            k,
        );
    }
}

/// A lane of either vectorized exponential depends on its own argument only, and
/// both exponentiate alike. Past 88 on either side it stays what it is there.
pub proof fn lanes_exponentiate_alike<S: Lanes>(
    x: [S; 8],
    y: [S; 8],
    u: [S; 16],
    w: [S; 16],
    i: int,
    j: int,
)
    requires
        call_ensures(exp8::<S>, (x,), y),
        call_ensures(exp16::<S>, (u,), w),
        0 <= i < 8,
        0 <= j < 16,
        of::<S>(88).greater_than_spec(of::<S>(88).neg_spec()),
        !of::<S>(88).greater_than_spec(of(88)),
        !of::<S>(88).neg_spec().greater_than_spec(of::<S>(88).neg_spec()),
    ensures
        x@[i] == u@[j] ==> y@[i] == w@[j],
        x@[i] == of::<S>(88) && !of::<S>(88).greater_than_spec(u@[j]) ==> y@[i] == w@[j],
        x@[i] == of::<S>(88).neg_spec() && of::<S>(88).greater_than_spec(u@[j])
            && !u@[j].greater_than_spec(of::<S>(88).neg_spec()) ==> y@[i] == w@[j],
{
}

/// `c0 + r (c1 + r (c2 + r (c3 + r (c4 + r c5))))`, where `c_k` is one over the
/// factorial of `k`.
pub open spec fn is_series<S: Scalar>(p: S, r: S, c2: S, c3: S, c4: S, c5: S) -> bool {
    let one = S::one_spec();
    &&& c2.mul_spec(of(2)) == one
    &&& c3.mul_spec(of(6)) == one
    &&& c4.mul_spec(of(24)) == one
    &&& c5.mul_spec(of(120)) == one
    &&& p == c5.mul_spec(r).add_spec(c4).mul_spec(r).add_spec(c3).mul_spec(r).add_spec(
        c2,
    ).mul_spec(r).add_spec(one).mul_spec(r).add_spec(one)
}

/// Between -88 and 88 a lane is the exponential series of a remainder, times a power
/// of two: the argument is that many times `ln 2` and the remainder.
pub proof fn lanes_sum_the_exponential_series<S: Exact + Lanes>(x: [S; 8], y: [S; 8], i: int)
    requires
        call_ensures(exp8::<S>, (x,), y),
        0 <= i < 8,
        x@[i].is_finite_spec(),
        of::<S>(88).greater_than_spec(x@[i]),
        x@[i].greater_than_spec(of::<S>(88).neg_spec()),
        S::ln_2_spec().is_finite_spec(),
        x@[i].mul_spec(S::log2_e_spec()).round_spec().is_finite_spec(),
        x@[i].mul_spec(S::log2_e_spec()).round_spec().neg_spec().is_finite_spec(),
        x@[i].mul_spec(S::log2_e_spec()).round_spec().neg_spec().mul_spec(
            S::ln_2_spec(),
        ).add_spec(
            x@[i].mul_spec(S::log2_e_spec()).round_spec().mul_spec(S::ln_2_spec()),
        ) == S::zero_spec(),
        of::<S>(2) != S::zero_spec(),
        of::<S>(6) != S::zero_spec(),
        of::<S>(24) != S::zero_spec(),
        of::<S>(120) != S::zero_spec(),
        of::<S>(2).is_finite_spec(),
        of::<S>(6).is_finite_spec(),
        of::<S>(24).is_finite_spec(),
        of::<S>(120).is_finite_spec(),
        splits(S::one_spec(), of(2)),
        splits(S::one_spec(), of(6)),
        splits(S::one_spec(), of(24)),
        splits(S::one_spec(), of(120)),
    ensures
        ({
            let k = x@[i].mul_spec(S::log2_e_spec()).round_spec();
            exists|r: S, p: S, c2: S, c3: S, c4: S, c5: S|
                {
                    &&& r.add_spec(k.mul_spec(S::ln_2_spec())) == x@[i]
                    &&& #[trigger] is_series(p, r, c2, c3, c4, c5)
                    &&& y@[i] == p.mul_spec(
                        S::from_bits_spec(
                            (vstd::wrapping::i32_specs::wrapping_add(k.to_i32_spec(), 127) as u32)
                                << 23,
                        ),
                    )
                }
        }),
{
    let a = x@[i];
    let one = S::one_spec();
    let ln = S::ln_2_spec();
    let k = a.mul_spec(S::log2_e_spec()).round_spec();
    let m = k.neg_spec().mul_spec(ln);
    let r = k.neg_spec().mul_add_spec(ln, a);
    S::one_is_finite();
    S::mul_add_fuses(k.neg_spec(), ln, a);
    S::mul_is_finite(k.neg_spec(), ln);
    S::mul_is_finite(k, ln);
    // (m + a) + k ln = a + (m + k ln) = a
    S::add_is_finite(m, a);
    S::add_commutes(m, a);
    S::add_associates(a, m, k.mul_spec(ln));
    S::add_zero(a);
    assert(r.add_spec(k.mul_spec(ln)) == a);
    let c2 = one.div_spec(of(2));
    let c3 = one.div_spec(of(6));
    let c4 = one.div_spec(of(24));
    let c5 = one.div_spec(of(120));
    S::reciprocal_is_finite(of(2));
    S::reciprocal_is_finite(of(6));
    S::reciprocal_is_finite(of(24));
    S::reciprocal_is_finite(of(120));
    let p4 = lemma_fused(c5, r, c4);
    let p3 = lemma_fused(p4, r, c3);
    let p2 = lemma_fused(p3, r, c2);
    let p1 = lemma_fused(p2, r, one);
    let p = lemma_fused(p1, r, one);
    assert(is_series(p, r, c2, c3, c4, c5));
    assert(y@[i] == exp_lane_spec(a));
}

proof fn lemma_fused<S: Exact>(a: S, r: S, c: S) -> (p: S)
    requires
        a.is_finite_spec(),
        r.is_finite_spec(),
        c.is_finite_spec(),
    ensures
        p == a.mul_add_spec(r, c),
        p == a.mul_spec(r).add_spec(c),
        p.is_finite_spec(),
{
    S::mul_add_fuses(a, r, c);
    S::mul_is_finite(a, r);
    S::add_is_finite(a.mul_spec(r), c);
    a.mul_add_spec(r, c)
}

} // verus!
