//! Roofline analysis: plot each kernel's measured throughput against the two
//! ceilings that can bound it, so "why is this kernel this fast" becomes a
//! position on a chart instead of an assertion.
//!
//! The roofline model says achievable GFLOP/s is capped by
//!
//! ```text
//! min(peak_compute, bandwidth * arithmetic_intensity)
//! ```
//!
//! where arithmetic intensity is FLOPs performed per byte moved. Below the
//! *ridge point* (intensity = peak_compute / bandwidth) you are memory-bound
//! and the only thing that helps is moving fewer bytes; above it you are
//! compute-bound and the only thing that helps is issuing better instructions.
//!
//! That distinction is the whole argument of this crate. Tiling attacks bytes
//! moved (it moves the operating point right); SIMD attacks instruction
//! throughput (it moves the point up). Each one only pays on its own side of
//! the ridge, which is exactly why tiling buys nothing here at d=64 while AVX2
//! buys ~5x.
//!
//! Both ceilings are measured on the machine that runs the probes, not read off
//! a spec sheet; see [`probe`].
use crate::flops::{attention_flops, flops_spec, gflops, gflops_spec, pairs, pairs_spec};
use crate::mat::Mat;
use crate::naive;
use crate::naive::naive_at;
use crate::scalar::{Lanes, Measure, Scalar};
use crate::score::attends;
use crate::simd;
use crate::simd::{select, select_spec, simd_at, Cpu, Path};
use crate::text::same_text;
use crate::tiled;
use crate::tiled::{tiled_at, Portable, BLOCK};
use crate::timing::TimeStats;
use vstd::prelude::*;

pub mod json;
pub mod probe;
pub mod svg;

pub use json::{from_json, to_json};
pub use svg::to_svg;

verus! {

pub const HEAD_DIM: usize = 64;

pub const SEQ_LENS: [usize; 4] = [128, 256, 512, 1024];

pub const KERNELS: [&'static str; 3] = ["naive", "tiled", "simd"];

/// One kernel at one problem size: where it lands on the chart.
pub struct Point<S> {
    pub kernel: &'static str,
    pub n: usize,
    pub causal: bool,
    pub gflops: S,
    /// FLOPs per byte moved, from the traffic model in `bytes_moved`.
    pub intensity: S,
    /// Median seconds per run. Emitted so the causal-vs-full wall-clock ratio is
    /// a division of two committed measurements rather than something inferred
    /// from GFLOP/s and a FLOP count.
    pub median_secs: S,
    /// Interquartile spread of the timing, as a percentage of the median.
    pub spread_pct: S,
}

/// The machine's two ceilings, plus enough identity to make the figure
/// reproducible and to stop anyone reading it as a claim about other hardware.
pub struct Machine<S> {
    pub arch: String,
    pub isa: String,
    pub peak_gflops: S,
    pub bandwidth_gbs: S,
    /// Sample spread for each ceiling, as a percentage of the best sample. On a
    /// quiet dedicated core this is a couple of percent. A large spread means
    /// the host was contended — a shared vCPU losing time to a neighbour, or
    /// thermal throttling — and the ceiling is not worth plotting against.
    pub peak_spread_pct: S,
    pub bandwidth_spread_pct: S,
}

impl<S: Measure> Machine<S> {
    /// Where the bandwidth ceiling meets the compute ceiling.
    pub open spec fn ridge_spec(self) -> S {
        self.peak_gflops.div_spec(self.bandwidth_gbs)
    }

    /// The lower of the compute ceiling and what the bandwidth lets through.
    pub open spec fn ceiling_spec(self, intensity: S) -> S {
        self.peak_gflops.min_spec(self.bandwidth_gbs.mul_spec(intensity))
    }

    /// Arithmetic intensity at which the two ceilings cross. Left of it the
    /// workload is memory-bound, right of it compute-bound.
    pub fn ridge(&self) -> (r: S)
        ensures
            r == self.ridge_spec(),
    {
        self.peak_gflops.div(self.bandwidth_gbs)
    }

    /// The roofline itself: the best throughput this machine can offer a
    /// workload of the given intensity.
    pub fn ceiling_at(&self, intensity: S) -> (r: S)
        ensures
            r == self.ceiling_spec(intensity),
    {
        self.peak_gflops.min(self.bandwidth_gbs.mul(intensity))
    }
}

/// `count` rows of `d` elements of four bytes, streamed `times` times.
pub open spec fn stream_spec<S: Scalar>(times: usize, count: S, d: S) -> S {
    S::from_usize_spec(times).mul_spec(count).mul_spec(d).mul_spec(S::from_usize_spec(4))
}

/// Bytes moved by a kernel that materializes the score matrix: Q, K, V read once
/// and O written once, and four streams over the unmasked scores.
pub open spec fn naive_bytes_spec<S: Scalar>(n: usize, d: usize, causal: bool) -> S {
    stream_spec(4, S::from_usize_spec(n), S::from_usize_spec(d)).add_spec(
        S::from_usize_spec(4).mul_spec(pairs_spec(S::from_usize_spec(n), causal)).mul_spec(
            S::from_usize_spec(4),
        ),
    )
}

/// How many blocks of keys cover `n`.
pub open spec fn blocks_spec<S: Measure>(n: usize) -> S {
    S::from_usize_spec(n).div_spec(S::from_usize_spec(BLOCK)).ceil_spec()
}

/// Bytes moved by a tiled kernel: Q read once and O written once, and a block of
/// K and of V for every query block that visits it.
pub open spec fn tiled_bytes_spec<S: Measure>(n: usize, d: usize, causal: bool) -> S {
    stream_spec(2, S::from_usize_spec(n), S::from_usize_spec(d)).add_spec(
        S::from_usize_spec(2).mul_spec(pairs_spec(blocks_spec::<S>(n), causal)).mul_spec(
            S::from_usize_spec(BLOCK),
        ).mul_spec(S::from_usize_spec(d)).mul_spec(S::from_usize_spec(4)),
    )
}

/// Bytes moved by the named kernel.
pub open spec fn bytes_spec<S: Measure>(
    kernel: Seq<char>,
    n: usize,
    d: usize,
    causal: bool,
) -> S {
    if kernel == "naive"@ {
        naive_bytes_spec(n, d, causal)
    } else {
        tiled_bytes_spec(n, d, causal)
    }
}

/// Bytes of memory traffic for one attention pass.
///
/// This is a model, not a measurement. It counts the traffic each algorithm is
/// *obliged* to generate, at the one place where the kernels actually differ:
/// whether the `[n x n]` score matrix exists in memory at all. It deliberately
/// ignores cache hits, so for small `n` it overstates real DRAM traffic for
/// every kernel equally. That is the honest limitation — the figure is about
/// the ratio between the kernels, not an absolute DRAM byte count.
pub fn bytes_moved<S: Measure>(kernel: &str, n: usize, d: usize, causal: bool) -> (r: S)
    ensures
        r == bytes_spec::<S>(kernel@, n, d, causal),
{
    let word = S::from_usize(4);
    let nf = S::from_usize(n);
    let df = S::from_usize(d);
    if same_text(kernel, "naive") {
        // Q, K, V read once; O written once.
        let operands = S::from_usize(4).mul(nf).mul(df).mul(word);
        // The score matrix is written by the QK^T pass, read and rewritten in
        // place by the softmax pass, and read once more by the PV pass: four
        // streams over the unmasked entries.
        operands.add(S::from_usize(4).mul(pairs(nf, causal)).mul(word))
    } else {
        // tiled and simd share a traffic profile — simd changes which
        // instructions run, not which bytes move.
        // Q read once, O written once; the running softmax state (m, l) is O(n)
        // and rounds off against these.
        let operands = S::from_usize(2).mul(nf).mul(df).mul(word);
        // K and V are re-streamed once per query block, since the query block
        // loop is outermost. Under a causal mask, query block b only visits KV
        // blocks 0..=b, so visits are triangular, not square. Rounding up to
        // whole blocks slightly overstates a ragged tail.
        let blocks = nf.div(S::from_usize(BLOCK)).ceil();
        let visits = pairs(blocks, causal);
        operands.add(S::from_usize(2).mul(visits).mul(S::from_usize(BLOCK)).mul(df).mul(word))
    }
}

/// What the figure calls each path.
pub open spec fn isa_spec(cpu: Cpu) -> Seq<char> {
    if !cpu.x86_64 {
        "portable fallback (no x86 SIMD path)"@
    } else {
        match select_spec(cpu) {
            Path::Avx512 => "AVX-512F"@,
            Path::Avx2 => "AVX2 + FMA"@,
            Path::Portable => "x86-64 baseline (scalar fallback)"@,
        }
    }
}

/// Which vector path `simd::attention` will actually take on `cpu`. Recorded on
/// the figure so a plot made on a machine without AVX2 can't be mistaken for one
/// made with it.
pub fn detected_isa(cpu: Cpu) -> (r: String)
    ensures
        r@ == isa_spec(cpu),
{
    if !cpu.x86_64 {
        "portable fallback (no x86 SIMD path)".to_owned()
    } else {
        match select(cpu) {
            Path::Avx512 => "AVX-512F".to_owned(),
            Path::Avx2 => "AVX2 + FMA".to_owned(),
            Path::Portable => "x86-64 baseline (scalar fallback)".to_owned(),
        }
    }
}

/// Masks per kernel, and so jobs that are timed together at each length.
pub const JOBS: usize = 6;

/// Operating points on the figure.
pub const POINTS: usize = 24;

/// The kernel that job `j` runs.
pub open spec fn job_kernel(j: int) -> &'static str {
    KERNELS@[j % 3]
}

/// Whether job `j` runs under the causal mask.
pub open spec fn job_causal(j: int) -> bool {
    j >= 3
}

/// One of the six combinations of kernel and mask that are timed together.
pub fn job(j: usize) -> (r: (&'static str, bool))
    requires
        j < JOBS,
    ensures
        r.0 == job_kernel(j as int),
        r.1 == job_causal(j as int),
{
    (KERNELS[j % 3], j >= 3)
}

/// `out` is what the named kernel computes.
pub open spec fn is_kernel_output<S: Lanes>(
    out: Mat<S>,
    kernel: Seq<char>,
    path: Path,
    q: Mat<S>,
    k: Mat<S>,
    v: Mat<S>,
    causal: bool,
) -> bool {
    &&& out.wf()
    &&& out.rows == q.rows
    &&& out.cols == q.cols
    &&& forall|i: int, t: int|
        0 <= i < q.rows && 0 <= t < q.cols ==> #[trigger] out.at(i, t) == if kernel == "naive"@ {
            naive_at(q, k, v, causal, i, t)
        } else if kernel == "tiled"@ {
            tiled_at::<S, Portable>(q, k, v, causal, BLOCK as int, i, t)
        } else {
            simd_at(path, q, k, v, causal, i, t)
        }
}

/// Runs the named kernel.
pub fn run_kernel<S: Lanes>(
    kernel: &str,
    q: &Mat<S>,
    k: &Mat<S>,
    v: &Mat<S>,
    causal: bool,
    cpu: Cpu,
) -> (out: Mat<S>)
    requires
        attends(*q, *k, *v),
        kernel@ == "naive"@ ==> q.rows * q.rows <= usize::MAX,
    ensures
        is_kernel_output(out, kernel@, select_spec(cpu), *q, *k, *v, causal),
{
    if same_text(kernel, "naive") {
        naive::attention(q, k, v, causal)
    } else if same_text(kernel, "tiled") {
        tiled::attention(q, k, v, causal)
    } else {
        simd::attention(q, k, v, causal, cpu)
    }
}

/// Where a kernel lands, given the statistics of its timing. Throughput comes
/// from the fastest run, which also keeps the points consistent with the
/// ceilings: those take the best of several probes too.
pub open spec fn point_spec<S: Measure>(
    kernel: &'static str,
    n: usize,
    causal: bool,
    t: TimeStats<S>,
) -> Point<S> {
    let flops = flops_spec::<S>(n, HEAD_DIM, causal);
    Point {
        kernel,
        n,
        causal,
        gflops: gflops_spec(flops, t.best),
        intensity: flops.div_spec(bytes_spec(kernel@, n, HEAD_DIM, causal)),
        median_secs: t.median,
        spread_pct: t.spread_pct,
    }
}

/// Where a kernel lands, given the statistics of its timing.
pub fn point<S: Measure>(kernel: &'static str, n: usize, causal: bool, t: &TimeStats<S>) -> (r:
    Point<S>)
    ensures
        r == point_spec(kernel, n, causal, *t),
{
    let flops = attention_flops::<S>(n, HEAD_DIM, causal);
    Point {
        kernel,
        n,
        causal,
        gflops: gflops(flops, t.best),
        intensity: flops.div(bytes_moved(kernel, n, HEAD_DIM, causal)),
        median_secs: t.median,
        spread_pct: t.spread_pct,
    }
}

/// The point at position `p`, given the statistics of every job at every length:
/// mask outermost, then sequence length, then kernel.
pub open spec fn point_at<S: Measure>(stats: Seq<Vec<TimeStats<S>>>, p: int) -> Point<S> {
    let j = 3 * (p / 12) + p % 3;
    let l = p / 3 % 4;
    point_spec(job_kernel(j), SEQ_LENS@[l], job_causal(j), stats[l]@[j])
}

/// Every kernel at every sequence length under both masks.
pub fn points<S: Measure>(stats: &Vec<Vec<TimeStats<S>>>) -> (r: Vec<Point<S>>)
    requires
        stats@.len() == 4,
        forall|l: int| 0 <= l < 4 ==> (#[trigger] stats@[l])@.len() == JOBS,
    ensures
        r@.len() == POINTS,
        forall|p: int| 0 <= p < POINTS ==> #[trigger] r@[p] == point_at(stats@, p),
{
    let mut pts: Vec<Point<S>> = Vec::new();
    let mut p: usize = 0;
    while p < POINTS
        invariant
            p <= POINTS,
            stats@.len() == 4,
            forall|l: int| 0 <= l < 4 ==> (#[trigger] stats@[l])@.len() == JOBS,
            pts@.len() == p,
            forall|i: int| 0 <= i < p ==> #[trigger] pts@[i] == point_at(stats@, i),
        decreases POINTS - p,
    {
        let j: usize = 3 * (p / 12) + p % 3;
        let l: usize = p / 3 % 4;
        let (kernel, causal) = job(j);
        assert(stats@[l as int]@.len() == JOBS);
        pts.push(point(kernel, SEQ_LENS[l], causal, &stats[l][j]));
        p += 1;
    }
    pts
}

} // verus!
