//! What the reductions over measurements mean: largest, smallest, spread.
use crate::laws::maxima::{
    is_largest, lemma_largest_grows, lemma_largest_starts, lemma_largest_unique,
};
use crate::laws::means::order_fits;
use crate::laws::model::min_is_smaller;
use crate::laws::orders::is_permutation;
use crate::laws::softmax::invertible;
use crate::laws::sums::finite_upto;
use crate::mat::abs_diff_max;
use crate::ring::{quotients_multiply_with_the_inverse, wrap, Ring64};
use crate::roofline::probe::{best_of, summary_spec, worst_of};
use crate::scalar::{Exact, Measure, Scalar};
use crate::timing::percent_spec;
use vstd::prelude::*;

verus! {

/// `|a - b|` is a distance between numbers: finite, never below zero, zero only
/// between equals, and the same both ways.
pub open spec fn abs_is_a_distance<S: Scalar>() -> bool {
    forall|a: S, b: S|
        a.is_finite_spec() && b.is_finite_spec() ==> {
            let d = #[trigger] a.sub_spec(b).abs_spec();
            &&& d.is_finite_spec()
            &&& !S::zero_spec().greater_than_spec(d)
            &&& d == S::zero_spec() <==> a == b
            &&& d == b.sub_spec(a).abs_spec()
        }
}

/// The ring has a distance: the shorter way round.
pub proof fn the_ring_has_a_distance()
    ensures
        abs_is_a_distance::<Ring64>(),
{
    assert forall|a: Ring64, b: Ring64| a.is_finite_spec() && b.is_finite_spec() implies {
        let d = #[trigger] a.sub_spec(b).abs_spec();
        &&& d.is_finite_spec()
        &&& !Ring64::zero_spec().greater_than_spec(d)
        &&& d == Ring64::zero_spec() <==> a == b
        &&& d == b.sub_spec(a).abs_spec()
    } by {
        if let (Ring64::Int(x), Ring64::Int(y)) = (a, b) {
            assert(wrap(x - y) == if x >= y {
                x - y
            } else {
                x - y + 0x1_0000_0000_0000_0000
            });
            assert(wrap(y - x) == if y >= x {
                y - x
            } else {
                y - x + 0x1_0000_0000_0000_0000
            });
            let z = wrap(x - y);
            assert(wrap(0 - z) == if z == 0 {
                0
            } else {
                0x1_0000_0000_0000_0000 - z
            });
            let u = wrap(y - x);
            assert(wrap(0 - u) == if u == 0 {
                0
            } else {
                0x1_0000_0000_0000_0000 - u
            });
        }
    }
}

/// The largest absolute difference bounds every difference, is one of them, is
/// zero exactly between equal data, and does not depend on which side is which.
pub proof fn max_abs_diff_is_the_largest_difference<S: Exact>(a: Seq<S>, b: Seq<S>, k: nat)
    requires
        abs_is_a_distance::<S>(),
        finite_upto(a, k as int),
        finite_upto(b, k as int),
    ensures
        abs_diff_max(a, b, k).is_finite_spec(),
        !S::zero_spec().greater_than_spec(abs_diff_max(a, b, k)),
        forall|i: int|
            0 <= i < k ==> !(#[trigger] a[i].sub_spec(b[i]).abs_spec()).greater_than_spec(
                abs_diff_max(a, b, k),
            ),
        k == 0 ==> abs_diff_max(a, b, k) == S::zero_spec(),
        k > 0 ==> exists|i: int|
            0 <= i < k && #[trigger] a[i].sub_spec(b[i]).abs_spec() == abs_diff_max(a, b, k),
        abs_diff_max(a, b, k) == S::zero_spec() <==> forall|i: int|
            0 <= i < k ==> #[trigger] a[i] == b[i],
        abs_diff_max(a, b, k) == abs_diff_max(b, a, k),
    decreases k,
{
    S::zero_is_finite();
    S::order_is_total(S::zero_spec(), S::zero_spec());
    if k > 0 {
        let h = (k - 1) as nat;
        max_abs_diff_is_the_largest_difference(a, b, h);
        let past = abs_diff_max(a, b, h);
        assert(a[k - 1].is_finite_spec() && b[k - 1].is_finite_spec());
        let d = a[k - 1].sub_spec(b[k - 1]).abs_spec();
        assert(d.is_finite_spec());
        S::max_is_larger(past, d);
        S::order_is_total(past, d);
        S::order_is_total(d, d);
        S::order_is_total(past, past);
        S::order_is_total(past, S::zero_spec());
        S::order_is_total(d, S::zero_spec());
        let now = abs_diff_max(a, b, k);
        assert forall|i: int| 0 <= i < k implies !(#[trigger] a[i].sub_spec(
            b[i],
        ).abs_spec()).greater_than_spec(now) by {
            if i < h {
                let e = a[i].sub_spec(b[i]).abs_spec();
                assert(a[i].is_finite_spec() && b[i].is_finite_spec());
                assert(!e.greater_than_spec(past));
                if now != past && e.greater_than_spec(now) {
                    S::order_is_transitive(e, now, past);
                }
            }
        }
        if now == d {
            assert(a[k - 1].sub_spec(b[k - 1]).abs_spec() == now);
        } else if h > 0 {
            let i = choose|i: int| 0 <= i < h && #[trigger] a[i].sub_spec(b[i]).abs_spec() == past;
            assert(a[i].sub_spec(b[i]).abs_spec() == now);
        } else {
            // Nothing is below zero, so the one difference is not below it either.
            assert(past == S::zero_spec() && d == S::zero_spec());
        }
        if now == S::zero_spec() {
            assert forall|i: int| 0 <= i < k implies #[trigger] a[i] == b[i] by {
                if i < h {
                    assert(past == S::zero_spec());
                }
            }
        }
        if forall|i: int| 0 <= i < k ==> #[trigger] a[i] == b[i] {
            assert(a[k - 1] == b[k - 1]);
        }
    }
}

/// `m` is the smallest of the first `k` elements.
pub open spec fn is_smallest<S: Scalar>(m: S, x: Seq<S>, k: int) -> bool {
    &&& m.is_finite_spec()
    &&& exists|j: int| 0 <= j < k && #[trigger] x[j] == m
    &&& forall|j: int| 0 <= j < k ==> !m.greater_than_spec(#[trigger] x[j])
}

/// Samples as a probe takes them: finite and positive.
pub open spec fn are_samples<S: Scalar>(x: Seq<S>) -> bool {
    &&& x.len() > 0
    &&& forall|j: int|
        0 <= j < x.len() ==> (#[trigger] x[j]).is_finite_spec() && x[j].greater_than_spec(
            S::zero_spec(),
        )
}

/// `min` gives the smaller of two finite values, and no finite value exceeds the
/// largest one.
pub open spec fn minima_fit<S: Measure>() -> bool {
    &&& S::max_value_spec().is_finite_spec()
    &&& forall|a: S| a.is_finite_spec() ==> !(#[trigger] a.greater_than_spec(S::max_value_spec()))
    &&& forall|a: S, b: S|
        a.is_finite_spec() && b.is_finite_spec() ==> #[trigger] min_is_smaller(a, b)
}

/// The ring's minima are minima.
pub proof fn ring_minima_fit()
    ensures
        minima_fit::<Ring64>(),
{
}

/// The best of positive samples is the largest of them.
pub proof fn best_is_the_largest<S: Exact>(x: Seq<S>)
    requires
        are_samples(x),
    ensures
        is_largest(best_of(x), x, x.len() as int),
    decreases x.len(),
{
    S::zero_is_finite();
    let last = x.last();
    assert(x[x.len() - 1].is_finite_spec() && last.greater_than_spec(S::zero_spec()));
    if x.len() == 1 {
        reveal_with_fuel(best_of, 2);
        S::max_is_larger(S::zero_spec(), last);
        lemma_largest_starts(x);
    } else {
        let head = x.drop_last();
        assert forall|j: int| 0 <= j < head.len() implies (#[trigger] head[j]).is_finite_spec()
            && head[j].greater_than_spec(S::zero_spec()) by {
            assert(head[j] == x[j]);
        }
        best_is_the_largest(head);
        let m = best_of(head);
        let k = x.len() - 1;
        let j = choose|j: int| 0 <= j < k && head[j] == m;
        assert(x[j] == m);
        assert forall|u: int| 0 <= u < k implies !(#[trigger] x[u]).greater_than_spec(m) by {
            assert(head[u] == x[u]);
        }
        S::max_is_larger(m, last);
        lemma_largest_grows(m, x, k);
    }
}

/// The worst of samples is the smallest of them.
pub proof fn worst_is_the_smallest<S: Exact + Measure>(x: Seq<S>)
    requires
        are_samples(x),
        minima_fit::<S>(),
    ensures
        is_smallest(worst_of(x), x, x.len() as int),
    decreases x.len(),
{
    let last = x.last();
    let k = x.len() - 1;
    assert(x[k].is_finite_spec());
    S::order_is_total(last, last);
    if x.len() == 1 {
        reveal_with_fuel(worst_of, 2);
        let top = S::max_value_spec();
        assert(min_is_smaller(top, last));
        S::order_is_total(top, last);
        assert(!last.greater_than_spec(top));
        assert(worst_of(x) == x[0]);
    } else {
        let head = x.drop_last();
        assert forall|j: int| 0 <= j < head.len() implies (#[trigger] head[j]).is_finite_spec()
            && head[j].greater_than_spec(S::zero_spec()) by {
            assert(head[j] == x[j]);
        }
        worst_is_the_smallest(head);
        let m = worst_of(head);
        let j = choose|j: int| 0 <= j < k && head[j] == m;
        assert(x[j] == m);
        assert(min_is_smaller(m, last));
        let now = worst_of(x);
        assert(x[k] == last);
        assert forall|u: int| 0 <= u < x.len() implies !now.greater_than_spec(#[trigger] x[u]) by {
            if u < k {
                assert(head[u] == x[u]);
                assert(x[u].is_finite_spec());
                if m.greater_than_spec(last) && last.greater_than_spec(x[u]) {
                    S::order_is_transitive(m, last, x[u]);
                }
            } else {
                S::order_is_total(m, last);
            }
        }
    }
}

/// There is only one smallest element.
proof fn lemma_smallest_unique<S: Exact>(a: S, b: S, x: Seq<S>, k: int)
    requires
        is_smallest(a, x, k),
        is_smallest(b, x, k),
    ensures
        a == b,
{
    S::order_is_total(a, b);
}

/// The order of the samples does not matter.
pub proof fn summaries_ignore_order<S: Exact + Measure>(
    p: Seq<int>,
    back: Seq<int>,
    x: Seq<S>,
    y: Seq<S>,
)
    requires
        are_samples(x),
        minima_fit::<S>(),
        is_permutation(p, back, x.len() as int),
        y.len() == x.len(),
        forall|j: int| 0 <= j < x.len() ==> #[trigger] y[j] == x[p[j]],
    ensures
        best_of(y) == best_of(x),
        worst_of(y) == worst_of(x),
        summary_spec(y) == summary_spec(x),
{
    let n = x.len() as int;
    assert forall|j: int| 0 <= j < n implies (#[trigger] y[j]).is_finite_spec()
        && y[j].greater_than_spec(S::zero_spec()) by {
        assert(0 <= p[j] < n);
        assert(x[p[j]].is_finite_spec());
    }
    best_is_the_largest(x);
    best_is_the_largest(y);
    worst_is_the_smallest(x);
    worst_is_the_smallest(y);
    let (hi, lo) = (best_of(x), worst_of(x));
    let a = choose|j: int| 0 <= j < n && x[j] == hi;
    let b = choose|j: int| 0 <= j < n && x[j] == lo;
    assert(0 <= back[a] < n && p[back[a]] == a);
    assert(0 <= back[b] < n && p[back[b]] == b);
    assert(y[back[a]] == hi && y[back[b]] == lo);
    assert forall|u: int| 0 <= u < n implies !(#[trigger] y[u]).greater_than_spec(hi)
        && !lo.greater_than_spec(y[u]) by {
        assert(0 <= p[u] < n);
        assert(!x[p[u]].greater_than_spec(hi) && !lo.greater_than_spec(x[p[u]]));
    }
    lemma_largest_unique(hi, best_of(y), y, n);
    lemma_smallest_unique(lo, worst_of(y), y, n);
}

/// No samples have no best and no spread.
pub proof fn no_samples_summarize_to_zero<S: Exact + Measure>()
    ensures
        summary_spec(Seq::<S>::empty()) == (S::zero_spec(), S::zero_spec()),
{
    S::zero_is_finite();
    S::order_is_total(S::zero_spec(), S::zero_spec());
}

/// Subtracting undoes adding, and dividing by what has a reciprocal is multiplying
/// with it.
pub open spec fn inverses_fit<S: Scalar>() -> bool {
    &&& forall|a: S, b: S|
        a.is_finite_spec() && b.is_finite_spec() ==> (#[trigger] a.sub_spec(b)).add_spec(b) == a
    &&& forall|a: S, b: S|
        a.is_finite_spec() && b.is_finite_spec() && invertible(b) ==> #[trigger] a.div_spec(b)
            == a.mul_spec(S::one_spec().div_spec(b))
}

/// The ring's inverses are inverses.
pub proof fn ring_inverses_fit()
    ensures
        inverses_fit::<Ring64>(),
{
    assert forall|a: Ring64, b: Ring64| a.is_finite_spec() && b.is_finite_spec() implies (
    #[trigger] a.sub_spec(b)).add_spec(b) == a by {
        if let (Ring64::Int(x), Ring64::Int(y)) = (a, b) {
            assert(wrap(x - y) == if x >= y {
                x - y
            } else {
                x - y + 0x1_0000_0000_0000_0000
            });
        }
    }
    assert forall|a: Ring64, b: Ring64|
        a.is_finite_spec() && b.is_finite_spec() && invertible(b) implies #[trigger] a.div_spec(b)
        == a.mul_spec(Ring64::one_spec().div_spec(b)) by {
        if let (Ring64::Int(x), Ring64::Int(y)) = (a, b) {
            quotients_multiply_with_the_inverse(x, y);
        }
    }
}

/// Adding the same to two numbers keeps them apart.
proof fn lemma_add_cancels<S: Exact>(a: S, b: S, c: S)
    requires
        inverses_fit::<S>(),
        a.is_finite_spec(),
        b.is_finite_spec(),
        c.is_finite_spec(),
        a.add_spec(c) == b.add_spec(c),
    ensures
        a == b,
{
    S::zero_is_finite();
    let minus = S::zero_spec().sub_spec(c);
    S::sub_is_finite(S::zero_spec(), c);
    assert(minus.add_spec(c) == S::zero_spec());
    S::add_commutes(minus, c);
    S::add_associates(a, c, minus);
    S::add_associates(b, c, minus);
    S::add_zero(a);
    S::add_zero(b);
}

/// What is left of `best` without `worst`: between nothing and all of it, and
/// nothing only where the two are equal.
proof fn lemma_rest<S: Exact>(best: S, worst: S)
    requires
        order_fits::<S>(|a: S| a.greater_than_spec(S::zero_spec())),
        inverses_fit::<S>(),
        best.is_finite_spec(),
        worst.is_finite_spec(),
        worst.greater_than_spec(S::zero_spec()),
        !worst.greater_than_spec(best),
    ensures
        best.sub_spec(worst).is_finite_spec(),
        !S::zero_spec().greater_than_spec(best.sub_spec(worst)),
        !best.sub_spec(worst).greater_than_spec(best),
        best.sub_spec(worst) == S::zero_spec() <==> best == worst,
{
    let zero = S::zero_spec();
    let rest = best.sub_spec(worst);
    S::zero_is_finite();
    S::sub_is_finite(best, worst);
    assert(rest.add_spec(worst) == best);
    S::add_commutes(zero, worst);
    S::add_zero(worst);
    S::add_zero(rest);
    S::order_is_total(zero, zero);
    S::order_is_total(worst, worst);
    S::order_is_total(rest, rest);
    S::order_is_total(worst, zero);
    S::order_is_total(rest, zero);
    S::order_is_total(best, worst);
    if best == worst {
        lemma_add_cancels(rest, zero, worst);
    }
    if zero.greater_than_spec(rest) {
        // rest + worst <= 0 + worst
        assert(!rest.add_spec(worst).greater_than_spec(zero.add_spec(worst)));
    }
    // rest + 0 <= rest + worst
    assert(!rest.add_spec(zero).greater_than_spec(rest.add_spec(worst)));
}

/// A part of a whole is a share between zero and one, and none only of nothing.
proof fn lemma_share<S: Exact>(part: S, whole: S)
    requires
        order_fits::<S>(|a: S| a.greater_than_spec(S::zero_spec())),
        inverses_fit::<S>(),
        part.is_finite_spec(),
        whole.is_finite_spec(),
        whole.greater_than_spec(S::zero_spec()),
        invertible(whole),
        !S::zero_spec().greater_than_spec(part),
        !part.greater_than_spec(whole),
    ensures
        part.div_spec(whole).is_finite_spec(),
        !S::zero_spec().greater_than_spec(part.div_spec(whole)),
        !part.div_spec(whole).greater_than_spec(S::one_spec()),
        part.div_spec(whole) == S::zero_spec() <==> part == S::zero_spec(),
{
    let positive = |a: S| a.greater_than_spec(S::zero_spec());
    let zero = S::zero_spec();
    S::zero_is_finite();
    S::one_is_finite();
    S::order_is_total(zero, zero);
    assert(positive(whole));
    let inv = S::one_spec().div_spec(whole);
    S::reciprocal_is_finite(whole);
    assert(positive(inv));
    let share = part.div_spec(whole);
    assert(share == part.mul_spec(inv));
    S::mul_is_finite(part, inv);
    S::mul_commutes(part, inv);
    S::mul_commutes(whole, inv);
    S::mul_zero(inv);
    assert(!inv.mul_spec(zero).greater_than_spec(inv.mul_spec(part)));
    assert(!inv.mul_spec(part).greater_than_spec(inv.mul_spec(whole)));
    // share * whole = part
    S::mul_associates(part, inv, whole);
    S::mul_one(part);
    S::mul_commutes(zero, whole);
    S::mul_zero(whole);
}

/// The spread of positive samples is a percentage of the best: between 0 and
/// 100, and 0 exactly when all samples are equal. It takes that the arithmetic
/// and its order fit together as those of the real numbers do, see
/// [`order_fits`].
pub proof fn spread_is_a_percentage<S: Exact + Measure>(x: Seq<S>)
    requires
        are_samples(x),
        minima_fit::<S>(),
        order_fits::<S>(|a: S| a.greater_than_spec(S::zero_spec())),
        inverses_fit::<S>(),
        invertible(best_of(x)),
        S::from_usize_spec(100).is_finite_spec(),
        S::from_usize_spec(100).greater_than_spec(S::zero_spec()),
        invertible(S::from_usize_spec(100)),
    ensures
        summary_spec(x).0 == best_of(x),
        summary_spec(x).1 == best_of(x).sub_spec(worst_of(x)).div_spec(best_of(x)).mul_spec(
            S::from_usize_spec(100),
        ),
        !S::zero_spec().greater_than_spec(summary_spec(x).1),
        !summary_spec(x).1.greater_than_spec(S::from_usize_spec(100)),
        summary_spec(x).1 == S::zero_spec() <==> forall|i: int, j: int|
            0 <= i < x.len() && 0 <= j < x.len() ==> #[trigger] x[i] == #[trigger] x[j],
{
    let positive = |a: S| a.greater_than_spec(S::zero_spec());
    let zero = S::zero_spec();
    let hundred = S::from_usize_spec(100);
    let n = x.len() as int;
    S::zero_is_finite();
    S::one_is_finite();
    best_is_the_largest(x);
    worst_is_the_smallest(x);
    let (best, worst) = (best_of(x), worst_of(x));
    let a = choose|j: int| 0 <= j < n && x[j] == best;
    let b = choose|j: int| 0 <= j < n && x[j] == worst;
    assert(x[a] == best && x[b] == worst);
    assert(best.greater_than_spec(zero) && worst.greater_than_spec(zero));
    assert(!worst.greater_than_spec(best)) by {
        assert(!x[b].greater_than_spec(best));
    }
    let rest = best.sub_spec(worst);
    lemma_rest(best, worst);
    lemma_share(rest, best);
    let share = rest.div_spec(best);
    let spread = share.mul_spec(hundred);
    assert(percent_spec(rest, best) == spread);
    S::mul_commutes(share, hundred);
    S::mul_commutes(S::one_spec(), hundred);
    S::mul_zero(hundred);
    S::mul_one(hundred);
    assert(positive(hundred));
    assert(!hundred.mul_spec(zero).greater_than_spec(hundred.mul_spec(share)));
    assert(!hundred.mul_spec(share).greater_than_spec(hundred.mul_spec(S::one_spec())));
    // spread * (1 / 100) = share
    S::order_is_total(zero, zero);
    let part = S::one_spec().div_spec(hundred);
    S::reciprocal_is_finite(hundred);
    S::mul_associates(share, hundred, part);
    S::mul_one(share);
    S::mul_commutes(zero, part);
    S::mul_zero(part);
    assert(spread == zero <==> share == zero);
    assert(share == zero <==> best == worst);
    if best == worst {
        assert forall|i: int, j: int| 0 <= i < n && 0 <= j < n implies #[trigger] x[i]
            == #[trigger] x[j] by {
            assert(!x[i].greater_than_spec(best) && !worst.greater_than_spec(x[i]));
            assert(!x[j].greater_than_spec(best) && !worst.greater_than_spec(x[j]));
            S::order_is_total(x[i], best);
            S::order_is_total(x[j], best);
        }
    }
}

} // verus!
