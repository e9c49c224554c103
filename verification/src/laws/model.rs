//! What the cost model and the roofline say, where the arithmetic is exact.
use crate::flops::{flops_spec, pairs_spec};
use crate::laws::masks::{causal_mask_leaves_half_the_pairs, live_pairs};
use crate::roofline::{
    blocks_spec, bytes_spec, isa_spec, naive_bytes_spec, tiled_bytes_spec, Machine,
};
use crate::roofline::probe::{
    peak_sample_spec, probe_after, summary_spec, PEAK_VECTORS, PEAK_WIDTH,
};
use crate::ring::{wrap, Ring64};
use crate::scalar::{Exact, Measure, Scalar};
use crate::simd::{select_spec, Cpu, Path};
use crate::tiled::{tiles, BLOCK};
use vstd::arithmetic::div_mod::lemma_fundamental_div_mod_converse;
use vstd::prelude::*;

verus! {

/// A whole number.
pub open spec fn of<S: Scalar>(n: int) -> S {
    S::from_usize_spec(n as usize)
}

/// Whole numbers up to `limit` add, multiply and halve exactly, as those below
/// 2^53 do in double precision and all that fit do on the ring, see
/// [`the_ring_counts`].
pub open spec fn counts_to<S: Scalar>(limit: int) -> bool {
    &&& limit <= usize::MAX
    &&& S::one_spec() == of::<S>(1)
    &&& forall|a: int, b: int|
        0 <= a && 0 <= b && a + b <= limit ==> #[trigger] of::<S>(a).add_spec(of(b)) == of::<S>(
            a + b,
        )
    &&& forall|a: int, b: int|
        0 <= a && 0 <= b && a * b <= limit ==> #[trigger] of::<S>(a).mul_spec(of(b)) == of::<S>(
            a * b,
        )
    &&& forall|a: int|
        0 <= a && 2 * a <= limit ==> #[trigger] of::<S>(2 * a).div_spec(of(2)) == of::<S>(a)
}

/// On the ring whole numbers count exactly as far as they go, and compare as they
/// should. Lengths made of whole blocks are divided into blocks exactly too.
pub proof fn the_ring_counts(limit: int)
    requires
        limit <= usize::MAX,
    ensures
        counts_to::<Ring64>(limit),
        orders_to::<Ring64>(limit),
        forall|n: usize|
            n % BLOCK == 0 ==> #[trigger] blocks_spec::<Ring64>(n) == of::<Ring64>(
                tiles(n as int, BLOCK as int) as int,
            ),
{
    assert forall|a: int, b: int| 0 <= a && 0 <= b && a + b <= limit implies #[trigger] of::<
        Ring64,
    >(a).add_spec(of(b)) == of::<Ring64>(a + b) by {
        assert(wrap(a + b) == a + b);
    }
    assert forall|a: int, b: int| 0 <= a && 0 <= b && a * b <= limit implies #[trigger] of::<
        Ring64,
    >(a).mul_spec(of(b)) == of::<Ring64>(a * b) by {
        if a == 0 || b == 0 {
            assert(a * b == 0) by (nonlinear_arith)
                requires
                    a == 0 || b == 0,
            ;
            let (x, y) = (a as usize as u64, b as usize as u64);
            assert(x * y == 0) by (nonlinear_arith)
                requires
                    x == 0 || y == 0,
            ;
        } else {
            assert(a <= a * b && b <= a * b) by (nonlinear_arith)
                requires
                    a > 0,
                    b > 0,
            ;
        }
    }
    assert forall|n: usize| n % BLOCK == 0 implies #[trigger] blocks_spec::<Ring64>(n) == of::<
        Ring64,
    >(tiles(n as int, BLOCK as int) as int) by {}
}

proof fn lemma_pairs<S: Scalar>(n: nat, causal: bool, limit: int)
    requires
        counts_to::<S>(limit),
        (n + 1) * (n + 1) <= limit,
    ensures
        pairs_spec(of::<S>(n as int), causal) == of::<S>(live_pairs(n as int, causal, n)),
        0 <= live_pairs(n as int, causal, n) <= n * (n + 1),
{
    causal_mask_leaves_half_the_pairs(n);
    assert((n + 1) * (n + 1) == n * n + 2 * n + 1 && n * (n + 1) == n * n + n && 0 <= n * n)
        by (nonlinear_arith);
    let c = n as int;
    let count = of::<S>(c);
    if causal {
        let half = live_pairs(n as int, true, n);
        assert(count.add_spec(of(1)) == of::<S>(c + 1));
        assert(count.mul_spec(of(c + 1)) == of::<S>(c * (c + 1)));
        assert(of::<S>(2 * half).div_spec(of(2)) == of::<S>(half));
    } else {
        assert(count.mul_spec(count) == of::<S>(c * c));
    }
}

/// The FLOP count is four per unmasked query-key pair and dimension, so the two
/// masks are directly comparable.
pub proof fn flops_count_live_pairs<S: Scalar>(n: usize, d: usize, causal: bool, limit: int)
    requires
        counts_to::<S>(limit),
        (n + 1) * (n + 1) <= limit,
        4 * live_pairs(n as int, causal, n as nat) <= limit,
        4 * live_pairs(n as int, causal, n as nat) * d <= limit,
    ensures
        flops_spec::<S>(n, d, causal) == of::<S>(
            4 * live_pairs(n as int, causal, n as nat) * d,
        ),
{
    lemma_pairs::<S>(n as nat, causal, limit);
    let live = live_pairs(n as int, causal, n as nat);
    assert(of::<S>(4).mul_spec(of(live)) == of::<S>(4 * live));
    assert(of::<S>(4 * live).mul_spec(of(d as int)) == of::<S>(4 * live * d));
}

/// Without a mask a pass takes `4 n^2 d` FLOPs, and `2 n (n + 1) d` with one: the
/// causal count has the diagonal in it, so at one query the two agree, and they
/// always stand to each other as `n + 1` to `2 n`.
pub proof fn causal_flops_keep_the_diagonal<S: Scalar>(n: usize, d: usize, limit: int)
    requires
        counts_to::<S>(limit),
        (n + 1) * (n + 1) <= limit,
        4 * n * n <= limit,
        4 * n * n * d <= limit,
        (n + 1) * (4 * n * n * d) <= limit,
    ensures
        flops_spec::<S>(n, d, false) == of::<S>(4 * n * n * d),
        flops_spec::<S>(n, d, true) == of::<S>(2 * n * (n + 1) * d),
        n == 1 ==> flops_spec::<S>(n, d, true) == flops_spec::<S>(n, d, false),
        of::<S>(2 * n).mul_spec(flops_spec(n, d, true)) == of::<S>(n + 1).mul_spec(
            flops_spec(n, d, false),
        ),
{
    let (c, e) = (n as int, d as int);
    causal_mask_leaves_half_the_pairs(n as nat);
    lemma_triangle_in_square(n as nat);
    let (full, half) = (live_pairs(c, false, n as nat), live_pairs(c, true, n as nat));
    assert(4 * full * e == 4 * c * c * e && 4 * full == 4 * c * c) by (nonlinear_arith)
        requires
            full == c * c,
    ;
    assert(4 * half * e == 2 * c * (c + 1) * e && 4 * half == 2 * c * (c + 1)) by (nonlinear_arith)
        requires
            2 * half == c * (c + 1),
    ;
    assert(4 * half * e <= 4 * full * e) by (nonlinear_arith)
        requires
            half <= full,
            0 <= e,
    ;
    flops_count_live_pairs::<S>(n, d, false, limit);
    flops_count_live_pairs::<S>(n, d, true, limit);
    let (a, b) = (2 * c * (c + 1) * e, 4 * c * c * e);
    assert((2 * c) * a == (c + 1) * b && 0 <= a && 0 <= b) by (nonlinear_arith)
        requires
            a == 2 * c * (c + 1) * e,
            b == 4 * c * c * e,
            0 <= c,
            0 <= e,
    ;
    assert(of::<S>(2 * c).mul_spec(of(a)) == of::<S>((2 * c) * a));
    assert(of::<S>(c + 1).mul_spec(of(b)) == of::<S>((c + 1) * b));
}

/// What a kernel that materializes the scores moves: four streams of four bytes
/// over the operands and over the live pairs.
pub open spec fn naive_bytes(n: int, d: int, causal: bool) -> int {
    16 * (n * d) + 16 * live_pairs(n, causal, n as nat)
}

/// KV blocks that query block `b` visits: those that begin before its last query
/// under a causal mask, all of them without one.
pub open spec fn blocks_visited(n: int, causal: bool, block: int, b: int) -> int {
    let end = if causal && (b + 1) * block < n {
        (b + 1) * block
    } else {
        n
    };
    tiles(end, block) as int
}

/// The same over the first `count` query blocks.
pub open spec fn visits(n: int, causal: bool, block: int, count: nat) -> int
    decreases count,
{
    if count == 0 {
        0
    } else {
        visits(n, causal, block, (count - 1) as nat) + blocks_visited(
            n,
            causal,
            block,
            count - 1,
        )
    }
}

/// What a tiled kernel moves: two streams over the operands, and a block of K
/// and of V for every visit.
pub open spec fn tiled_bytes(n: int, d: int, causal: bool, block: int) -> int {
    8 * (n * d) + 8 * (visits(n, causal, block, tiles(n, block)) * block * d)
}

proof fn lemma_blocks_visited(n: int, causal: bool, block: int, b: int)
    requires
        0 < block,
        0 <= b < tiles(n, block),
        0 <= n,
    ensures
        blocks_visited(n, causal, block, b) == if causal {
            b + 1
        } else {
            tiles(n, block) as int
        },
{
    let last = tiles(n, block) as int;
    if causal {
        if (b + 1) * block < n {
            assert((b + 1) * block + block - 1 == (b + 1) * block + (block - 1));
            lemma_fundamental_div_mod_converse(
                (b + 1) * block + block - 1,
                block,
                b + 1,
                block - 1,
            );
        } else {
            // The last query block: n reaches no further than it does.
            assert(last <= b + 1) by {
                if last > b + 1 {
                    let q = (n + block - 1) / block;
                    assert(q * block <= n + block - 1) by (nonlinear_arith)
                        requires
                            q == (n + block - 1) / block,
                            block > 0,
                    ;
                    assert((b + 2) * block <= q * block) by (nonlinear_arith)
                        requires
                            b + 2 <= q,
                            block > 0,
                    ;
                    assert((b + 2) * block == (b + 1) * block + block) by (nonlinear_arith);
                }
            }
        }
    }
}

/// Without a mask every query block visits every KV block; under a causal mask
/// query block `b` visits blocks `0..=b`, so visits are triangular, not square.
pub proof fn causal_visits_are_triangular(n: int, block: int)
    requires
        0 < block,
        0 <= n,
    ensures
        visits(n, false, block, tiles(n, block)) == tiles(n, block) * tiles(n, block),
        2 * visits(n, true, block, tiles(n, block)) == tiles(n, block) * (tiles(n, block) + 1),
{
    lemma_visits(n, block, tiles(n, block));
}

proof fn lemma_visits(n: int, block: int, count: nat)
    requires
        0 < block,
        0 <= n,
        count <= tiles(n, block),
    ensures
        visits(n, false, block, count) == count * tiles(n, block),
        2 * visits(n, true, block, count) == count * (count + 1),
    decreases count,
{
    let all = tiles(n, block);
    if count == 0 {
        assert(count * all == 0 && count * (count + 1) == 0) by (nonlinear_arith)
            requires
                count == 0,
        ;
    } else {
        let a = (count - 1) as nat;
        lemma_visits(n, block, a);
        lemma_blocks_visited(n, false, block, a as int);
        lemma_blocks_visited(n, true, block, a as int);
        assert((a + 1) * all == a * all + all) by (nonlinear_arith);
        assert((a + 1) * (a + 2) == a * (a + 1) + 2 * (a + 1)) by (nonlinear_arith);
    }
}

/// The modelled traffic of the baseline.
pub proof fn naive_traffic_is_exact<S: Measure>(n: usize, d: usize, causal: bool, limit: int)
    requires
        counts_to::<S>(limit),
        (n + 1) * (n + 1) <= limit,
        4 * n <= limit,
        naive_bytes(n as int, d as int, causal) <= limit,
    ensures
        naive_bytes_spec::<S>(n, d, causal) == of::<S>(naive_bytes(n as int, d as int, causal)),
{
    lemma_pairs::<S>(n as nat, causal, limit);
    let live = live_pairs(n as int, causal, n as nat);
    assert(0 <= n * d) by (nonlinear_arith);
    assert(4 * n * d == 4 * (n * d)) by (nonlinear_arith);
    assert(of::<S>(4).mul_spec(of(n as int)) == of::<S>(4 * n));
    assert(of::<S>(4 * n).mul_spec(of(d as int)) == of::<S>(4 * n * d));
    assert(of::<S>(4 * n * d).mul_spec(of(4)) == of::<S>(4 * n * d * 4));
    assert(of::<S>(4).mul_spec(of(live)) == of::<S>(4 * live));
    assert(of::<S>(4 * live).mul_spec(of(4)) == of::<S>(4 * live * 4));
    assert(of::<S>(4 * n * d * 4).add_spec(of(4 * live * 4)) == of::<S>(
        4 * n * d * 4 + 4 * live * 4,
    ));
}

/// The modelled traffic of a tiled kernel, where dividing the length into blocks
/// and rounding up is exact too.
pub proof fn tiled_traffic_is_exact<S: Measure>(n: usize, d: usize, causal: bool, limit: int)
    requires
        counts_to::<S>(limit),
        blocks_spec::<S>(n) == of::<S>(tiles(n as int, BLOCK as int) as int),
        (tiles(n as int, BLOCK as int) + 1) * (tiles(n as int, BLOCK as int) + 1) <= limit,
        2 * n <= limit,
        2 * visits(n as int, causal, BLOCK as int, tiles(n as int, BLOCK as int)) * BLOCK
            <= limit,
        tiled_bytes(n as int, d as int, causal, BLOCK as int) <= limit,
    ensures
        tiled_bytes_spec::<S>(n, d, causal) == of::<S>(
            tiled_bytes(n as int, d as int, causal, BLOCK as int),
        ),
{
    let blocks = tiles(n as int, BLOCK as int);
    lemma_pairs::<S>(blocks, causal, limit);
    causal_mask_leaves_half_the_pairs(blocks);
    causal_visits_are_triangular(n as int, BLOCK as int);
    let seen = visits(n as int, causal, BLOCK as int, blocks);
    assert(live_pairs(blocks as int, causal, blocks) == seen);
    assert(0 <= n * d && 0 <= seen * BLOCK * d) by (nonlinear_arith)
        requires
            seen >= 0,
    ;
    assert(2 * n * d == 2 * (n * d)) by (nonlinear_arith);
    assert(2 * seen * BLOCK * d == 2 * (seen * BLOCK * d)) by (nonlinear_arith);
    assert(of::<S>(2).mul_spec(of(n as int)) == of::<S>(2 * n));
    assert(of::<S>(2 * n).mul_spec(of(d as int)) == of::<S>(2 * n * d));
    assert(of::<S>(2 * n * d).mul_spec(of(4)) == of::<S>(2 * n * d * 4));
    assert(of::<S>(2).mul_spec(of(seen)) == of::<S>(2 * seen));
    assert(of::<S>(2 * seen).mul_spec(of(BLOCK as int)) == of::<S>(2 * seen * BLOCK));
    assert(of::<S>(2 * seen * BLOCK).mul_spec(of(d as int)) == of::<S>(2 * seen * BLOCK * d));
    assert(of::<S>(2 * seen * BLOCK * d).mul_spec(of(4)) == of::<S>(2 * seen * BLOCK * d * 4));
    assert(of::<S>(2 * n * d * 4).add_spec(of(2 * seen * BLOCK * d * 4)) == of::<S>(
        2 * n * d * 4 + 2 * seen * BLOCK * d * 4,
    ));
}

/// Without a mask, at a head dimension equal to the block and a length made of
/// whole blocks, tiling moves half the bytes of the baseline.
pub proof fn tiling_halves_the_traffic(blocks: nat, block: int)
    requires
        0 < block,
    ensures
        2 * tiled_bytes(blocks * block, block, false, block) == naive_bytes(
            blocks * block,
            block,
            false,
        ),
{
    let n = blocks * block;
    assert(0 <= n) by (nonlinear_arith)
        requires
            n == blocks * block,
            block > 0,
    ;
    lemma_fundamental_div_mod_converse(n + block - 1, block, blocks as int, block - 1);
    assert(tiles(n, block) == blocks);
    causal_visits_are_triangular(n, block);
    causal_mask_leaves_half_the_pairs(n as nat);
    assert(blocks * blocks * block * block == n * n) by (nonlinear_arith)
        requires
            n == blocks * block,
    ;
}

/// Tiled and simd share a traffic profile: simd changes which instructions run,
/// not which bytes move.
pub proof fn simd_moves_the_bytes_of_tiled<S: Measure>(n: usize, d: usize, causal: bool)
    ensures
        bytes_spec::<S>("simd"@, n, d, causal) == bytes_spec::<S>("tiled"@, n, d, causal),
        bytes_spec::<S>("tiled"@, n, d, causal) == tiled_bytes_spec::<S>(n, d, causal),
{
    reveal_strlit("naive");
    reveal_strlit("tiled");
    reveal_strlit("simd");
    assert("simd"@[0] != "naive"@[0] && "tiled"@[0] != "naive"@[0]);
}

/// The figure's stamp names the path that the vector kernel takes.
pub proof fn the_stamp_names_the_path(cpu: Cpu)
    ensures
        isa_spec(cpu) == "AVX-512F"@ <==> select_spec(cpu) == Path::Avx512,
        isa_spec(cpu) == "AVX2 + FMA"@ <==> select_spec(cpu) == Path::Avx2,
{
    reveal_strlit("AVX-512F");
    reveal_strlit("AVX2 + FMA");
    reveal_strlit("x86-64 baseline (scalar fallback)");
    reveal_strlit("portable fallback (no x86 SIMD path)");
    assert("AVX-512F"@.len() == 8 && "AVX2 + FMA"@.len() == 10);
    assert("x86-64 baseline (scalar fallback)"@.len() == 33);
    assert("portable fallback (no x86 SIMD path)"@.len() == 36);
}

/// The smaller of two values is one of them: the first, unless it is greater.
pub open spec fn min_is_smaller<S: Measure>(a: S, b: S) -> bool {
    a.min_spec(b) == if a.greater_than_spec(b) {
        b
    } else {
        a
    }
}

/// The two ceilings cross at the ridge: there the roofline is the compute
/// ceiling, and what the bandwidth lets through is exactly as much. It takes
/// that dividing by the bandwidth undoes multiplying with it.
pub proof fn ceilings_cross_at_the_ridge<S: Measure>(m: Machine<S>)
    requires
        m.bandwidth_gbs.mul_spec(m.ridge_spec()) == m.peak_gflops,
        min_is_smaller(m.peak_gflops, m.peak_gflops),
    ensures
        m.ceiling_spec(m.ridge_spec()) == m.peak_gflops,
        m.ceiling_spec(m.ridge_spec()) == m.bandwidth_gbs.mul_spec(m.ridge_spec()),
{
}

/// Left of the ridge a workload is memory-bound, right of it compute-bound. It
/// takes that multiplying with the bandwidth keeps the order.
pub proof fn the_ridge_separates_the_bounds<S: Measure>(m: Machine<S>, intensity: S)
    requires
        m.bandwidth_gbs.mul_spec(m.ridge_spec()) == m.peak_gflops,
        min_is_smaller(m.peak_gflops, m.bandwidth_gbs.mul_spec(intensity)),
        m.bandwidth_gbs.mul_spec(intensity).greater_than_spec(m.peak_gflops)
            == intensity.greater_than_spec(m.ridge_spec()),
        m.peak_gflops.greater_than_spec(m.bandwidth_gbs.mul_spec(intensity))
            == m.ridge_spec().greater_than_spec(intensity),
        !(intensity.greater_than_spec(m.ridge_spec()) && m.ridge_spec().greater_than_spec(
            intensity,
        )),
    ensures
        m.ridge_spec().greater_than_spec(intensity) ==> m.ceiling_spec(intensity)
            == m.bandwidth_gbs.mul_spec(intensity),
        intensity.greater_than_spec(m.ridge_spec()) ==> m.ceiling_spec(intensity)
            == m.peak_gflops,
{
}

/// The roofline is one of the two ceilings, and above neither.
pub proof fn the_roofline_is_the_lower_ceiling<S: Exact + Measure>(m: Machine<S>, intensity: S)
    requires
        m.peak_gflops.is_finite_spec(),
        m.bandwidth_gbs.is_finite_spec(),
        intensity.is_finite_spec(),
        min_is_smaller(m.peak_gflops, m.bandwidth_gbs.mul_spec(intensity)),
    ensures
        m.ceiling_spec(intensity) == m.peak_gflops || m.ceiling_spec(intensity)
            == m.bandwidth_gbs.mul_spec(intensity),
        !m.ceiling_spec(intensity).greater_than_spec(m.peak_gflops),
        !m.ceiling_spec(intensity).greater_than_spec(m.bandwidth_gbs.mul_spec(intensity)),
{
    let slope = m.bandwidth_gbs.mul_spec(intensity);
    S::mul_is_finite(m.bandwidth_gbs, intensity);
    S::order_is_total(m.peak_gflops, slope);
    S::order_is_total(m.peak_gflops, m.peak_gflops);
    S::order_is_total(slope, slope);
}

/// Nothing that is not greater than `b` is greater than what `b` is not greater
/// than.
proof fn lemma_order_chains<S: Exact>(a: S, b: S, c: S)
    requires
        a.is_finite_spec(),
        b.is_finite_spec(),
        c.is_finite_spec(),
        !a.greater_than_spec(b),
        !b.greater_than_spec(c),
    ensures
        !a.greater_than_spec(c),
{
    S::order_is_total(a, b);
    S::order_is_total(b, c);
    if a.greater_than_spec(c) && a != b && b != c {
        S::order_is_transitive(a, c, b);
    }
}

/// Multiplying with `f` keeps the order, as multiplying with a positive number
/// does. On the ring, where products wrap around, no number but one does.
pub open spec fn keeps_order<S: Scalar>(f: S) -> bool {
    forall|a: S, b: S|
        a.is_finite_spec() && b.is_finite_spec() ==> a.greater_than_spec(b) == (
        #[trigger] f.mul_spec(a)).greater_than_spec(#[trigger] f.mul_spec(b))
}

/// Multiplying with one keeps the order.
pub proof fn one_keeps_the_order<S: Exact>()
    ensures
        keeps_order(S::one_spec()),
{
    S::one_is_finite();
    assert forall|a: S, b: S|
        a.is_finite_spec() && b.is_finite_spec() implies a.greater_than_spec(b) == (
    #[trigger] S::one_spec().mul_spec(a)).greater_than_spec(
        #[trigger] S::one_spec().mul_spec(b),
    ) by {
        S::mul_commutes(S::one_spec(), a);
        S::mul_commutes(S::one_spec(), b);
        S::mul_one(a);
        S::mul_one(b);
    }
}

/// The roofline never falls as intensity grows. It takes that multiplying with
/// the bandwidth keeps the order.
pub proof fn the_roofline_never_falls<S: Exact + Measure>(m: Machine<S>, x: S, y: S)
    requires
        m.peak_gflops.is_finite_spec(),
        m.bandwidth_gbs.is_finite_spec(),
        x.is_finite_spec(),
        y.is_finite_spec(),
        min_is_smaller(m.peak_gflops, m.bandwidth_gbs.mul_spec(x)),
        min_is_smaller(m.peak_gflops, m.bandwidth_gbs.mul_spec(y)),
        keeps_order(m.bandwidth_gbs),
        !x.greater_than_spec(y),
    ensures
        !m.ceiling_spec(x).greater_than_spec(m.ceiling_spec(y)),
{
    let (a, b) = (m.bandwidth_gbs.mul_spec(x), m.bandwidth_gbs.mul_spec(y));
    S::mul_is_finite(m.bandwidth_gbs, x);
    S::mul_is_finite(m.bandwidth_gbs, y);
    the_roofline_is_the_lower_ceiling(m, x);
    the_roofline_is_the_lower_ceiling(m, y);
    if m.ceiling_spec(y) == b {
        lemma_order_chains(m.ceiling_spec(x), a, b);
    }
}

/// The roofline is the compute ceiling exactly from the ridge on. It takes that
/// dividing by the bandwidth undoes multiplying with it, and that multiplying
/// with it keeps the order.
pub proof fn the_roofline_is_flat_from_the_ridge_on<S: Exact + Measure>(
    m: Machine<S>,
    intensity: S,
)
    requires
        m.peak_gflops.is_finite_spec(),
        m.bandwidth_gbs.is_finite_spec(),
        intensity.is_finite_spec(),
        m.bandwidth_gbs.mul_spec(m.ridge_spec()) == m.peak_gflops,
        min_is_smaller(m.peak_gflops, m.bandwidth_gbs.mul_spec(intensity)),
        m.ridge_spec().is_finite_spec(),
        keeps_order(m.bandwidth_gbs),
    ensures
        m.ceiling_spec(intensity) == m.peak_gflops <==> !m.ridge_spec().greater_than_spec(
            intensity,
        ),
{
    let slope = m.bandwidth_gbs.mul_spec(intensity);
    S::mul_is_finite(m.bandwidth_gbs, intensity);
    S::order_is_total(m.peak_gflops, slope);
}

/// The causal mask never adds traffic to the baseline, and saves some as soon as
/// there are two queries.
pub proof fn causal_naive_traffic_is_smaller(n: nat, d: int)
    ensures
        naive_bytes(n as int, d, true) <= naive_bytes(n as int, d, false),
        naive_bytes(n as int, d, true) == naive_bytes(n as int, d, false) <==> n <= 1,
{
    causal_mask_leaves_half_the_pairs(n);
    lemma_triangle_in_square(n);
}

/// The causal mask never adds traffic to a tiled kernel, and saves some as soon
/// as there are two blocks.
pub proof fn causal_tiled_traffic_is_smaller(n: nat, d: int, block: int)
    requires
        0 < block,
        0 < d,
    ensures
        tiled_bytes(n as int, d, true, block) <= tiled_bytes(n as int, d, false, block),
        tiled_bytes(n as int, d, true, block) == tiled_bytes(n as int, d, false, block) <==> n
            <= block,
{
    let blocks = tiles(n as int, block);
    causal_visits_are_triangular(n as int, block);
    lemma_triangle_in_square(blocks);
    let some = visits(n as int, true, block, blocks);
    let all = visits(n as int, false, block, blocks);
    assert(0 < block * d) by (nonlinear_arith)
        requires
            0 < block,
            0 < d,
    ;
    assert(some * block * d == some * (block * d) && all * block * d == all * (block * d))
        by (nonlinear_arith);
    assert(some <= all ==> some * (block * d) <= all * (block * d)) by (nonlinear_arith)
        requires
            0 < block * d,
    ;
    assert(some < all ==> some * (block * d) < all * (block * d)) by (nonlinear_arith)
        requires
            0 < block * d,
    ;
    // One block is enough exactly up to its own length.
    assert(blocks <= 1 <==> n <= block) by {
        if n <= block {
            if n == 0 {
                lemma_fundamental_div_mod_converse(n + block - 1, block, 0, block - 1);
            } else {
                lemma_fundamental_div_mod_converse(n + block - 1, block, 1, n - 1);
            }
        } else {
            let s = n + block - 1;
            assert(s / block >= 2) by (nonlinear_arith)
                requires
                    s >= 2 * block,
                    block > 0,
            ;
        }
    }
}

/// Whole numbers up to `limit` compare as they should. On the ring all that fit do.
pub open spec fn orders_to<S: Scalar>(limit: int) -> bool {
    forall|a: int, b: int|
        0 <= a <= limit && 0 <= b <= limit ==> (#[trigger] of::<S>(a)).greater_than_spec(
            #[trigger] of::<S>(b),
        ) == (a > b)
}

/// So no kernel's modelled bytes grow under the causal mask: the baseline's stay
/// the same only for a single query, those of the other two only for a single
/// block. It takes that the bytes can be counted and compared exactly.
pub proof fn causal_bytes_are_fewer<S: Measure>(n: usize, d: usize, limit: int)
    requires
        0 < n,
        0 < d,
        counts_to::<S>(limit),
        orders_to::<S>(limit),
        blocks_spec::<S>(n) == of::<S>(tiles(n as int, BLOCK as int) as int),
        naive_bytes(n as int, d as int, false) <= limit,
        tiled_bytes(n as int, d as int, false, BLOCK as int) <= limit,
    ensures
        forall|kernel: Seq<char>|
            !(#[trigger] bytes_spec::<S>(kernel, n, d, true)).greater_than_spec(
                bytes_spec(kernel, n, d, false),
            ),
        bytes_spec::<S>("naive"@, n, d, true) == bytes_spec::<S>("naive"@, n, d, false) <==> n
            == 1,
        bytes_spec::<S>("tiled"@, n, d, true) == bytes_spec::<S>("tiled"@, n, d, false) <==> n
            <= BLOCK,
        bytes_spec::<S>("simd"@, n, d, true) == bytes_spec::<S>("simd"@, n, d, false) <==> n
            <= BLOCK,
{
    reveal_strlit("naive");
    reveal_strlit("tiled");
    reveal_strlit("simd");
    assert("tiled"@[0] != "naive"@[0] && "simd"@[0] != "naive"@[0]);
    let (c, e, b) = (n as int, d as int, BLOCK as int);
    causal_naive_traffic_is_smaller(n as nat, e);
    causal_tiled_traffic_is_smaller(n as nat, e, b);
    causal_visits_are_triangular(c, b);
    causal_mask_leaves_half_the_pairs(n as nat);
    let all = tiles(c, b) as int;
    lemma_triangle_in_square(all as nat);
    // The bytes are the largest of the numbers that are counted on the way.
    assert(4 * c <= (c + 1) * (c + 1) <= 16 * (c * e) + 16 * (c * c)) by (nonlinear_arith)
        requires
            0 < c,
            0 < e,
    ;
    assert(all <= c) by (nonlinear_arith)
        requires
            all == (c + b - 1) / b,
            0 < c,
            0 < b,
    ;
    assert(0 <= all * (all + 1) && (all + 1) * (all + 1) <= (c + 1) * (c + 1))
        by (nonlinear_arith)
        requires
            0 <= all <= c,
    ;
    let (some, seen) = (visits(c, true, b, all as nat), visits(c, false, b, all as nat));
    assert(0 <= c * e && 0 <= some * b * e && some * b <= seen * b && seen * b <= seen * b * e)
        by (nonlinear_arith)
        requires
            0 < c,
            0 < e,
            0 < b,
            0 <= some <= seen,
    ;
    assert(0 <= some * b && 2 * some * b == 2 * (some * b) && 2 * seen * b == 2 * (seen * b))
        by (nonlinear_arith)
        requires
            0 < b,
            0 <= some,
    ;
    naive_traffic_is_exact::<S>(n, d, false, limit);
    naive_traffic_is_exact::<S>(n, d, true, limit);
    tiled_traffic_is_exact::<S>(n, d, false, limit);
    tiled_traffic_is_exact::<S>(n, d, true, limit);
}

/// A triangle fits in its square, and fills it only up to side one.
proof fn lemma_triangle_in_square(n: nat)
    ensures
        n * (n + 1) <= 2 * (n * n),
        n * (n + 1) == 2 * (n * n) <==> n <= 1,
{
    assert(n * (n + 1) == n * n + n) by (nonlinear_arith);
    if n == 0 {
        assert(n * n == 0) by (nonlinear_arith)
            requires
                n == 0,
        ;
    } else if n == 1 {
        assert(n * n == 1) by (nonlinear_arith)
            requires
                n == 1,
        ;
    } else {
        assert(n * n > n) by (nonlinear_arith)
            requires
                n >= 2,
        ;
    }
}

/// The work of a batch is the same in both compute probes.
proof fn lemma_probe_sample<S: Scalar>(batches: usize, secs: S, limit: int)
    requires
        counts_to::<S>(limit),
        128 * batches <= limit,
    ensures
        peak_sample_spec(batches, PEAK_WIDTH, 2, secs) == peak_sample_spec(
            batches,
            PEAK_VECTORS,
            16,
            secs,
        ),
{
    let b = batches as int;
    assert(of::<S>(b).mul_spec(of(64)) == of::<S>(b * 64));
    assert(of::<S>(b * 64).mul_spec(of(2)) == of::<S>(b * 64 * 2));
    assert(of::<S>(b).mul_spec(of(8)) == of::<S>(b * 8));
    assert(of::<S>(b * 8).mul_spec(of(16)) == of::<S>(b * 8 * 16));
}

/// Given the same times, both compute probes run the same batches, take the same
/// samples, and so report the same ceiling and spread: each counts 64 lanes and
/// two FLOPs a lane. It takes that the work can be counted exactly.
pub proof fn both_probes_agree<S: Measure>(times: Seq<S>, limit: int)
    requires
        counts_to::<S>(limit),
        128 * probe_after(PEAK_WIDTH, 2, times).0 <= limit,
    ensures
        probe_after(PEAK_VECTORS, 16, times) == probe_after(PEAK_WIDTH, 2, times),
        summary_spec(probe_after(PEAK_VECTORS, 16, times).1) == summary_spec(
            probe_after(PEAK_WIDTH, 2, times).1,
        ),
    decreases times.len(),
{
    if times.len() > 0 {
        both_probes_agree(times.drop_last(), limit);
        let before = probe_after(PEAK_WIDTH, 2, times.drop_last());
        lemma_probe_sample(before.0 as usize, times.last(), limit);
    }
}

} // verus!
