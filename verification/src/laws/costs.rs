//! What the cost figures of a pass stand for.
use crate::flops::{attention_flops, gflops};
use crate::laws::masks::{causal_mask_leaves_half_the_pairs, live_pairs};
use crate::laws::model::{
    causal_visits_are_triangular, counts_to, flops_count_live_pairs, min_is_smaller,
    naive_traffic_is_exact, of, tiled_traffic_is_exact, visits,
};
use crate::laws::terms::{billion, splits, unmasked};
use crate::roofline::{bytes_moved, detected_isa, job, point, point_at, points, Machine, Point};
use crate::scalar::{Measure, Scalar};
use crate::simd::{select, Cpu, Path};
use crate::tiled::tiles;
use crate::timing::TimeStats;
use vstd::prelude::*;

verus! {

/// Blocks of 64 that cover `n`.
pub open spec fn blocks_of(n: int) -> int {
    (n + 63) / 64
}

/// Four FLOPs for every dimension of every pair of a query and a key that the mask
/// leaves.
pub open spec fn flop_count(n: int, d: int, causal: bool) -> int {
    4 * unmasked(n, causal) * d
}

/// Bytes that a pass moves, at four bytes a number. A kernel that materializes the
/// scores streams four operands and the scores four times; one that does not
/// streams two operands, and two blocks of 64 rows for every pair of blocks.
pub open spec fn byte_count(materializes: bool, n: int, d: int, causal: bool) -> int {
    if materializes {
        4 * (4 * n * d + 4 * unmasked(n, causal))
    } else {
        4 * (2 * n * d + 2 * unmasked(blocks_of(n), causal) * 64 * d)
    }
}

/// A triangle is half a rectangle.
pub(crate) proof fn lemma_unmasked(n: nat, causal: bool)
    ensures
        live_pairs(n as int, causal, n) == unmasked(n as int, causal),
        0 <= unmasked(n as int, causal) <= n * n,
        causal ==> 2 * unmasked(n as int, causal) == n * (n + 1),
{
    causal_mask_leaves_half_the_pairs(n);
    assert(0 <= n * n && n * (n + 1) == n * n + n && n <= n * n) by (nonlinear_arith);
}

/// The FLOP count of a pass counts the pairs that its own mask leaves.
pub proof fn flops_count_unmasked_pairs<S: Scalar>(
    n: usize,
    d: usize,
    causal: bool,
    flops: S,
    limit: int,
)
    requires
        call_ensures(attention_flops::<S>, (n, d, causal), flops),
        counts_to::<S>(limit),
        (n + 1) * (n + 1) <= limit,
        4 * unmasked(n as int, causal) <= limit,
        flop_count(n as int, d as int, causal) <= limit,
    ensures
        flops == of::<S>(flop_count(n as int, d as int, causal)),
{
    lemma_unmasked(n as nat, causal);
    flops_count_live_pairs::<S>(n, d, causal, limit);
}

/// A throughput times its time, in billions, is the work that was done.
pub proof fn throughput_times_time_is_work<S: Scalar>(flops: S, secs: S, figure: S)
    requires
        call_ensures(gflops::<S>, (flops, secs), figure),
        splits(flops, secs),
        splits(flops.div_spec(secs), billion()),
    ensures
        figure.mul_spec(billion()).mul_spec(secs) == flops,
{
}

/// The modelled traffic of the named kernel is its byte count.
pub proof fn traffic_counts_bytes<S: Measure>(
    kernel: &str,
    n: usize,
    d: usize,
    causal: bool,
    bytes: S,
    limit: int,
)
    requires
        call_ensures(bytes_moved::<S>, (kernel, n, d, causal), bytes),
        counts_to::<S>(limit),
        S::from_usize_spec(n).div_spec(S::from_usize_spec(64)).ceil_spec() == of::<S>(
            blocks_of(n as int),
        ),
        (n + 1) * (n + 1) <= limit,
        4 * n <= limit,
        (blocks_of(n as int) + 1) * (blocks_of(n as int) + 1) <= limit,
        2 * unmasked(blocks_of(n as int), causal) * 64 <= limit,
        byte_count(kernel@ == "naive"@, n as int, d as int, causal) <= limit,
    ensures
        bytes == of::<S>(byte_count(kernel@ == "naive"@, n as int, d as int, causal)),
{
    let (c, e) = (n as int, d as int);
    if kernel@ == "naive"@ {
        lemma_unmasked(n as nat, causal);
        assert(4 * c * e == 4 * (c * e)) by (nonlinear_arith);
        naive_traffic_is_exact::<S>(n, d, causal, limit);
    } else {
        let b = tiles(c, 64);
        assert(b == blocks_of(c));
        lemma_unmasked(b, causal);
        causal_visits_are_triangular(c, 64);
        let seen = visits(c, causal, 64, b);
        assert(seen == unmasked(blocks_of(c), causal));
        assert(2 * c * e == 2 * (c * e)) by (nonlinear_arith);
        assert(2 * seen * 64 * e == 2 * (seen * 64 * e)) by (nonlinear_arith);
        tiled_traffic_is_exact::<S>(n, d, causal, limit);
    }
}

/// An operating point: its throughput times the time of the fastest run is the
/// FLOP count of a pass of 64 dimensions under its own mask, and so is its
/// intensity times the bytes that the kernel moves under that mask.
pub proof fn points_relate_work_time_and_traffic<S: Measure>(
    kernel: &'static str,
    n: usize,
    causal: bool,
    t: &TimeStats<S>,
    p: Point<S>,
    flops: S,
    bytes: S,
)
    requires
        call_ensures(point::<S>, (kernel, n, causal, t), p),
        call_ensures(attention_flops::<S>, (n, 64usize, causal), flops),
        call_ensures(bytes_moved::<S>, (kernel, n, 64usize, causal), bytes),
        splits(flops, bytes),
        splits(flops, t.best),
        splits(flops.div_spec(t.best), billion()),
    ensures
        p.intensity.mul_spec(bytes) == flops,
        p.gflops.mul_spec(billion()).mul_spec(t.best) == flops,
        p.kernel == kernel,
        p.n == n,
        p.causal == causal,
        p.median_secs == t.median,
        p.spread_pct == t.spread_pct,
{
}

/// The points come mask by mask, length by length and kernel by kernel, each from
/// the timing of the job that runs its kernel under its mask at its length.
pub proof fn points_come_from_their_jobs<S: Measure>(
    stats: &Vec<Vec<TimeStats<S>>>,
    pts: Vec<Point<S>>,
    l: int,
    j: usize,
    pair: (&'static str, bool),
    p: Point<S>,
)
    requires
        stats@.len() == 4,
        forall|i: int| 0 <= i < 4 ==> (#[trigger] stats@[i])@.len() == 6,
        call_ensures(points::<S>, (stats,), pts),
        0 <= l < 4,
        j < 6,
        call_ensures(job, (j,), pair),
        call_ensures(
            point::<S>,
            (pair.0, [128usize, 256, 512, 1024]@[l], pair.1, &stats@[l]@[j as int]),
            p,
        ),
    ensures
        pts@.len() == 24,
        pts@[12 * (j as int / 3) + 3 * l + j as int % 3] == p,
        pair.1 == (j >= 3),
        pair.0@ == (if j as int % 3 == 0 {
            "naive"@
        } else if j as int % 3 == 1 {
            "tiled"@
        } else {
            "simd"@
        }),
{
    let at = 12 * (j as int / 3) + 3 * l + j as int % 3;
    assert(at / 12 == j as int / 3 && at % 3 == j as int % 3 && at / 3 % 4 == l);
    assert(pts@[at] == point_at(stats@, at));
}

/// The ridge times the bandwidth is the compute ceiling.
pub proof fn the_ridge_balances_the_ceilings<S: Measure>(m: &Machine<S>, ridge: S)
    requires
        call_ensures(Machine::<S>::ridge, (m,), ridge),
        splits(m.peak_gflops, m.bandwidth_gbs),
    ensures
        ridge.mul_spec(m.bandwidth_gbs) == m.peak_gflops,
{
}

/// The roofline at an intensity is what the bandwidth lets through, unless that is
/// above the compute ceiling: then it is the compute ceiling.
pub proof fn the_roofline_caps_the_bandwidth<S: Measure>(m: &Machine<S>, x: S, y: S)
    requires
        call_ensures(Machine::<S>::ceiling_at, (m, x), y),
        min_is_smaller(m.peak_gflops, m.bandwidth_gbs.mul_spec(x)),
    ensures
        m.peak_gflops.greater_than_spec(m.bandwidth_gbs.mul_spec(x)) ==> y
            == m.bandwidth_gbs.mul_spec(x),
        !m.peak_gflops.greater_than_spec(m.bandwidth_gbs.mul_spec(x)) ==> y == m.peak_gflops,
{
}

/// The figure's stamp says which path the vector kernel takes.
pub proof fn stamps_name_paths(cpu: Cpu, stamp: String, path: Path)
    requires
        call_ensures(detected_isa, (cpu,), stamp),
        call_ensures(select, (cpu,), path),
    ensures
        path == Path::Avx512 ==> stamp@ == "AVX-512F"@,
        path == Path::Avx2 ==> stamp@ == "AVX2 + FMA"@,
        path == Path::Portable && cpu.x86_64 ==> stamp@ == "x86-64 baseline (scalar fallback)"@,
        !cpu.x86_64 ==> stamp@ == "portable fallback (no x86 SIMD path)"@,
{
}

} // verus!
