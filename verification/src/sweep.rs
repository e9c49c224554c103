//! The tile size across cache levels.
//!
//! The tile decides the working set of the inner loop: one query row against
//! `BLOCK` rows of K and `BLOCK` rows of V, so the resident bytes are
//! `2 * BLOCK * d * 4`. At `d = 64` that is 8 KB at BLOCK=16, 32 KB at 64,
//! 128 KB at 256 — spanning L1d into L2 on most parts. Too small and the
//! per-block bookkeeping (the online-softmax rescale, the loop setup) is paid
//! too often; too large and K/V stop fitting in the level you wanted.
//!
//! The sizes are const-generic instantiations, so each is compiled with its
//! bounds as literals — the same code the default kernel gets.
use crate::mat::Mat;
use crate::scalar::{Exact, Scalar};
use crate::score::attends;
use crate::tiled::{attention_b, tiled_at, Portable};
use vstd::prelude::*;

verus! {

pub const SIZES: [usize; 5] = [16, 32, 64, 128, 256];

/// The tile that a requested size stands for: the largest, unless the size is
/// one of the smaller ones.
pub open spec fn tile_for(block: usize) -> int {
    if block == 16 || block == 32 || block == 64 || block == 128 {
        block as int
    } else {
        256
    }
}

/// The portable tiled kernel at one of the sizes.
pub fn run_for<S: Scalar>(
    block: usize,
    q: &Mat<S>,
    k: &Mat<S>,
    v: &Mat<S>,
    causal: bool,
) -> (out: Mat<S>)
    requires
        attends(*q, *k, *v),
    ensures
        out.wf(),
        out.rows == q.rows,
        out.cols == q.cols,
        forall|i: int, t: int|
            0 <= i < q.rows && 0 <= t < q.cols ==> #[trigger] out.at(i, t) == tiled_at::<
                S,
                Portable,
            >(*q, *k, *v, causal, tile_for(block), i, t),
{
    match block {
        16 => attention_b::<S, 16>(q, k, v, causal),
        32 => attention_b::<S, 32>(q, k, v, causal),
        64 => attention_b::<S, 64>(q, k, v, causal),
        128 => attention_b::<S, 128>(q, k, v, causal),
        _ => attention_b::<S, 256>(q, k, v, causal),
    }
}

/// Timed runs for a sequence length.
pub fn sweep_iters(n: usize) -> (r: usize)
    ensures
        r == if n <= 256 {
            40int
        } else {
            12
        },
{
    if n <= 256 {
        40
    } else {
        12
    }
}

/// K and V resident per tile, in whole KB.
pub fn resident_kb(block: usize, d: usize) -> (r: usize)
    requires
        2 * block * d * 4 <= usize::MAX,
    ensures
        r == 2 * block * d * 4 / 1024,
{
    proof {
        assert(2 * block <= 2 * block * d * 4 || d == 0) by (nonlinear_arith)
            requires
                d >= 0,
                block >= 0,
        ;
        assert(block <= 2 * block * d * 4 || d == 0);
    }
    if d == 0 {
        return 0;
    }
    2 * block * d * 4 / 1024
}

/// The first `n` figures' largest, the last one where several are: an index.
pub open spec fn best_index_spec<S: Scalar>(figures: Seq<S>, n: nat) -> int
    decreases n,
{
    if n <= 1 {
        0
    } else {
        let held = best_index_spec(figures, (n - 1) as nat);
        if figures[held].greater_than_spec(figures[n - 1]) {
            held
        } else {
            n - 1
        }
    }
}

/// Which figure is the largest; the last one where several are.
pub fn best_index<S: Scalar>(figures: &[S]) -> (r: usize)
    requires
        figures@.len() > 0,
    ensures
        r < figures@.len(),
        r == best_index_spec(figures@, figures@.len()),
{
    let mut held: usize = 0;
    let mut i: usize = 1;
    while i < figures.len()
        invariant
            1 <= i <= figures@.len(),
            held < i,
            held == best_index_spec(figures@, i as nat),
        decreases figures.len() - i,
    {
        if !figures[held].greater_than(figures[i]) {
            held = i;
        }
        i += 1;
    }
    held
}

/// Where the order is total, nothing beats the figure that [`best_index`]
/// names, and nothing after it equals it.
pub proof fn best_index_is_the_last_maximum<S: Exact>(figures: Seq<S>, n: nat)
    requires
        0 < n <= figures.len(),
        forall|i: int| 0 <= i < figures.len() ==> (#[trigger] figures[i]).is_finite_spec(),
    ensures
        0 <= best_index_spec(figures, n) < n,
        forall|i: int|
            0 <= i < n ==> !(#[trigger] figures[i]).greater_than_spec(
                figures[best_index_spec(figures, n)],
            ),
        forall|i: int|
            best_index_spec(figures, n) < i < n ==> figures[best_index_spec(
                figures,
                n,
            )].greater_than_spec(#[trigger] figures[i]),
    decreases n,
{
    if n == 1 {
        S::order_is_total(figures[0], figures[0]);
    } else {
        let m = (n - 1) as nat;
        best_index_is_the_last_maximum(figures, m);
        let held = best_index_spec(figures, m);
        let x = figures[n - 1];
        assert(figures[held].is_finite_spec() && x.is_finite_spec());
        S::order_is_total(figures[held], x);
        S::order_is_total(x, x);
        if !figures[held].greater_than_spec(x) {
            assert forall|i: int| 0 <= i < n implies !(#[trigger] figures[i]).greater_than_spec(
                x,
            ) by {
                if i < m && figures[i].greater_than_spec(x) {
                    S::order_is_total(figures[i], figures[held]);
                    if figures[i] != figures[held] {
                        if x.greater_than_spec(figures[held]) {
                            S::order_is_transitive(figures[i], x, figures[held]);
                        }
                    }
                }
            }
        }
    }
}

} // verus!
