//! Attention kernels, from a naive baseline to a tiled ("flash") kernel to
//! vectorized kernels of eight and sixteen lanes. The point of this crate is not
//! to beat cuDNN; it is to make the *hardware reason* for each speedup measurable
//! and explainable, and to prove what each of them computes: in exact arithmetic
//! tiling changes nothing, and lanes nothing but the `exp` they use.
//!
//! Problem: single-head scaled dot-product attention.
//!   scores = Q @ K^T / sqrt(d)     [n x n]
//!   probs  = softmax(scores)       [n x n]  (row-wise)
//!   out    = probs @ V             [n x d]
//!
//! Q, K, V are row-major [n x d] matrices. `n` = sequence length, `d` = head dim.
//!
//! The kernels are generic over the number type, [`scalar::Scalar`]. Their
//! contracts say which operations produce each output element, in which order;
//! [`laws`] says what follows, above all that the running softmax is exact.
//! Around the kernels stand the roofline model and figure ([`roofline`]), the
//! timing schedule ([`timing`]) and the tables ([`report`]).
pub mod avx512;
pub mod flops;
pub mod lanes;
pub mod laws;
pub mod mat;
pub mod multihead;
pub mod naive;
pub mod report;
pub mod ring;
pub mod roofline;
pub mod scalar;
pub mod score;
pub mod simd;
pub mod sweep;
pub mod text;
pub mod tiled;
pub mod timing;
pub mod vexp;

pub use flops::attention_flops;
pub use mat::{filled, max_abs_diff, Mat};
pub use scalar::Scalar;
