//! The words that the laws about results are stated in.
use crate::laws::model::of;
use crate::mat::Mat;
use crate::scalar::Scalar;
use vstd::prelude::*;

verus! {

/// Element `t` of row `i`, rows one after another.
pub open spec fn entry<S>(m: Mat<S>, i: int, t: int) -> S {
    m.data@[i * m.cols + t]
}

/// `f(0) + f(1) + ... + f(k - 1)`.
pub open spec fn total<S: Scalar>(f: spec_fn(int) -> S, k: nat) -> S
    decreases k,
{
    if k == 0 {
        S::zero_spec()
    } else {
        total(f, (k - 1) as nat).add_spec(f(k - 1))
    }
}

/// The largest of the first `k` numbers, taken in their order; of none, minus
/// infinity.
pub open spec fn largest<S: Scalar>(x: Seq<S>, k: nat) -> S
    decreases k,
{
    if k == 0 {
        S::neg_infinity_spec()
    } else {
        largest(x, (k - 1) as nat).max_spec(x[k - 1])
    }
}

/// The keys that a query may attend to: itself and those before it under a causal
/// mask, all `n` of them without one.
pub open spec fn seen(n: int, causal: bool, i: int) -> int {
    if causal {
        i + 1
    } else {
        n
    }
}

/// How many pairs of a query and a key the mask leaves: a triangle or a square.
pub open spec fn unmasked(n: int, causal: bool) -> int {
    if causal {
        n * (n + 1) / 2
    } else {
        n * n
    }
}

/// Dividing `a` by `b` and multiplying with `b` gives `a` back.
pub open spec fn splits<S: Scalar>(a: S, b: S) -> bool {
    a.div_spec(b).mul_spec(b) == a
}

/// Ten to the ninth.
pub open spec fn billion<S: Scalar>() -> S {
    of(1000000000)
}

/// The shape that every kernel's output has: that of the queries.
pub open spec fn shaped_like<S>(out: Mat<S>, q: Mat<S>) -> bool {
    &&& out.rows == q.rows
    &&& out.cols == q.cols
    &&& out.data@.len() == q.rows * q.cols
}

/// Two matrices of one shape that agree in every place hold the same data.
pub(crate) proof fn lemma_same_data<S>(a: Mat<S>, b: Mat<S>)
    requires
        a.rows == b.rows,
        a.cols == b.cols,
        a.data@.len() == a.rows * a.cols,
        b.data@.len() == b.rows * b.cols,
        forall|i: int, t: int|
            0 <= i < a.rows && 0 <= t < a.cols ==> #[trigger] entry(a, i, t) == entry(b, i, t),
    ensures
        a.data@ == b.data@,
{
    let (n, d) = (a.rows as int, a.cols as int);
    assert forall|x: int| 0 <= x < n * d implies a.data@[x] == b.data@[x] by {
        assert(d > 0) by {
            if d == 0 {
                assert(n * d == 0) by (nonlinear_arith)
                    requires
                        d == 0,
                ;
            }
        }
        let i = x / d;
        let t = x % d;
        vstd::arithmetic::div_mod::lemma_fundamental_div_mod(x, d);
        vstd::arithmetic::mul::lemma_mul_is_commutative(d, i);
        vstd::arithmetic::div_mod::lemma_div_pos_is_pos(x, d);
        assert(i < n) by {
            if i >= n {
                assert(i * d >= n * d) by (nonlinear_arith)
                    requires
                        i >= n,
                        d > 0,
                ;
            }
        }
        assert(entry(a, i, t) == entry(b, i, t));
    }
    assert(a.data@ =~= b.data@);
}

} // verus!
