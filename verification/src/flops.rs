//! What one attention pass costs in arithmetic.
use crate::scalar::Scalar;
use vstd::prelude::*;

verus! {

/// Cells of a square of side `count`: `count * (count + 1) / 2` under a causal mask, `count^2` without one.
pub open spec fn pairs_spec<S: Scalar>(count: S, causal: bool) -> S {
    if causal {
        count.mul_spec(count.add_spec(S::one_spec())).div_spec(S::from_usize_spec(2))
    } else {
        count.mul_spec(count)
    }
}

/// Two FLOPs per multiply-add, in each of the two products.
pub open spec fn flops_spec<S: Scalar>(n: usize, d: usize, causal: bool) -> S {
    S::from_usize_spec(4).mul_spec(pairs_spec(S::from_usize_spec(n), causal)).mul_spec(
        S::from_usize_spec(d),
    )
}

pub(crate) fn pairs<S: Scalar>(count: S, causal: bool) -> (r: S)
    ensures
        r == pairs_spec(count, causal),
{
    if causal {
        // Lower triangle incl. diagonal.
        count.mul(count.add(S::one())).div(S::from_usize(2))
    } else {
        count.mul(count)
    }
}

/// FLOPs for one attention pass, for turning wall-clock time into GFLOP/s.
/// QK^T: 2*n*n*d, softmax: ~3*n*n (cheap), PV: 2*n*n*d. Dominant term ~4*n^2*d.
/// Under a causal mask only the unmasked query-key pairs count.
pub fn attention_flops<S: Scalar>(n: usize, d: usize, causal: bool) -> (r: S)
    ensures
        r == flops_spec::<S>(n, d, causal),
{
    S::from_usize(4).mul(pairs(S::from_usize(n), causal)).mul(S::from_usize(d))
}

/// FLOPs in so many seconds, as GFLOP/s.
pub open spec fn gflops_spec<S: Scalar>(flops: S, secs: S) -> S {
    flops.div_spec(secs).div_spec(S::from_usize_spec(1000000000))
}

/// FLOPs in so many seconds, as GFLOP/s.
pub fn gflops<S: Scalar>(flops: S, secs: S) -> (r: S)
    ensures
        r == gflops_spec(flops, secs),
{
    flops.div(secs).div(S::from_usize(1000000000))
}

} // verus!
