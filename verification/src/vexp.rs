//! Fast vectorized exp. Softmax needs one `exp` per score, and in a SIMD kernel
//! with a scalar exponential that call is the single biggest thing capping the
//! vector speedup. Here we approximate `exp(x)` a whole vector at a time.
//!
//! Method: range-reduce x = k*ln2 + r with |r| <= ln2/2, compute 2^k by
//! directly assembling the IEEE-754 exponent field, and approximate exp(r) on
//! the reduced range with a degree-5 minimax-style polynomial. Accuracy is
//! ~1e-6 relative over the softmax input range, far tighter than the 1e-3
//! tolerance the kernels are tested to.
//!
//! This is only ever called on the post-max-subtraction values (x <= 0 in
//! softmax), but it's correct for the general small-to-moderate range too.
use crate::scalar::{Lanes, Scalar};
use vstd::prelude::*;

verus! {

/// The smaller of `x` and `bound`; `bound` where they do not compare.
pub open spec fn capped<S: Scalar>(x: S, bound: S) -> S {
    if bound.greater_than_spec(x) {
        x
    } else {
        bound
    }
}

/// The larger of `x` and `bound`; `bound` where they do not compare.
pub open spec fn floored<S: Scalar>(x: S, bound: S) -> S {
    if x.greater_than_spec(bound) {
        x
    } else {
        bound
    }
}

/// `x` clamped to [-88, 88], so that assembling the exponent cannot overflow.
pub open spec fn clamped<S: Lanes>(x: S) -> S {
    floored(capped(x, S::from_usize_spec(88)), S::from_usize_spec(88).neg_spec())
}

/// The coefficient `1 / k`.
pub open spec fn reciprocal_spec<S: Scalar>(k: usize) -> S {
    S::one_spec().div_spec(S::from_usize_spec(k))
}

/// `1 + r + r^2/2 + r^3/6 + r^4/24 + r^5/120`, by Horner's rule with one
/// rounding per step.
pub open spec fn horner<S: Scalar>(r: S) -> S {
    reciprocal_spec::<S>(120).mul_add_spec(r, reciprocal_spec(24)).mul_add_spec(
        r,
        reciprocal_spec(6),
    ).mul_add_spec(r, reciprocal_spec(2)).mul_add_spec(r, S::one_spec()).mul_add_spec(
        r,
        S::one_spec(),
    )
}

/// The representation of `2^k` as a 32-bit float: `k` plus the exponent bias,
/// shifted into the exponent field.
pub open spec fn exponent_field(k: i32) -> u32 {
    (vstd::wrapping::i32_specs::wrapping_add(k, 127) as u32) << 23
}

/// How many whole `ln 2` fit the argument, to the nearest.
pub open spec fn octaves<S: Lanes>(x: S) -> S {
    x.mul_spec(S::log2_e_spec()).round_spec()
}

/// One lane of the approximation: `exp(r) * 2^k` with `k = round(x / ln 2)` and
/// `r = x - k * ln 2`.
pub open spec fn exp_lane_spec<S: Lanes>(x: S) -> S {
    let x = clamped(x);
    let k = octaves(x);
    let r = k.neg_spec().mul_add_spec(S::ln_2_spec(), x);
    horner(r).mul_spec(S::from_bits_spec(exponent_field(k.to_i32_spec())))
}

/// One lane of the approximation.
fn exp_lane<S: Lanes>(x: S) -> (r: S)
    ensures
        r == exp_lane_spec(x),
{
    let hi = S::from_usize(88);
    let lo = S::from_usize(88).neg();
    let x = if hi.greater_than(x) {
        x
    } else {
        hi
    };
    let x = if x.greater_than(lo) {
        x
    } else {
        lo
    };

    // k = round(x / ln2), r = x - k*ln2
    let kf = x.mul(S::log2_e()).round();
    let r = kf.neg().mul_add(S::ln_2(), x);

    // exp(r) via Horner on a degree-5 polynomial.
    let one = S::one();
    let mut p = one.div(S::from_usize(120));
    p = p.mul_add(r, one.div(S::from_usize(24)));
    p = p.mul_add(r, one.div(S::from_usize(6)));
    p = p.mul_add(r, one.div(S::from_usize(2)));
    p = p.mul_add(r, one);
    p = p.mul_add(r, one);

    // 2^k: build the float by adding k to the exponent bias (127) and shifting
    // into the exponent field.
    let field: u32 = (kf.to_i32().wrapping_add(127) as u32) << 23;
    p.mul(S::from_bits(field))
}

/// The approximation on a vector of any width.
pub(crate) fn exp_lanes<S: Lanes, const W: usize>(x: [S; W]) -> (r: [S; W])
    ensures
        forall|i: int| 0 <= i < W ==> #[trigger] r@[i] == exp_lane_spec(x@[i]),
{
    let mut r = x;
    let mut i: usize = 0;
    while i < W
        invariant
            i <= W,
            forall|j: int| 0 <= j < i ==> #[trigger] r@[j] == exp_lane_spec(x@[j]),
        decreases W - i,
    {
        r[i] = exp_lane(x[i]);
        i += 1;
    }
    r
}

/// `exp` of eight lanes at once.
pub fn exp8<S: Lanes>(x: [S; 8]) -> (r: [S; 8])
    ensures
        forall|i: int| 0 <= i < 8 ==> #[trigger] r@[i] == exp_lane_spec(x@[i]),
{
    exp_lanes(x)
}

/// `exp` of sixteen lanes at once.
pub fn exp16<S: Lanes>(x: [S; 16]) -> (r: [S; 16])
    ensures
        forall|i: int| 0 <= i < 16 ==> #[trigger] r@[i] == exp_lane_spec(x@[i]),
{
    exp_lanes(x)
}

} // verus!
