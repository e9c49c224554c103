use flash_attn::avx512;
use flash_attn::multihead;
use flash_attn::naive;
use flash_attn::scalar::{Lanes, Scalar};
use flash_attn::simd::{
    self, accumulate_avx2, attention_avx2, axpy_avx2, dot4_avx2, dot_avx2, scale_avx2, select, Cpu,
    Path,
};
use flash_attn::sweep::{best_index, resident_kb, run_for, sweep_iters, SIZES};
use flash_attn::tiled::{self, attention_b};
use flash_attn::vexp::{exp16, exp8};
use flash_attn::{filled, max_abs_diff, Mat};

/// Single precision.
#[derive(Clone, Copy, Debug, PartialEq)]
struct F32(f32);

impl Scalar for F32 {
    fn zero() -> Self {
        F32(0.0)
    }
    fn one() -> Self {
        F32(1.0)
    }
    fn neg_infinity() -> Self {
        F32(f32::NEG_INFINITY)
    }
    fn from_usize(n: usize) -> Self {
        F32(n as f32)
    }
    fn add(self, other: Self) -> Self {
        F32(self.0 + other.0)
    }
    fn sub(self, other: Self) -> Self {
        F32(self.0 - other.0)
    }
    fn mul(self, other: Self) -> Self {
        F32(self.0 * other.0)
    }
    fn div(self, other: Self) -> Self {
        F32(self.0 / other.0)
    }
    fn mul_add(self, factor: Self, addend: Self) -> Self {
        F32(self.0.mul_add(factor.0, addend.0))
    }
    fn sqrt(self) -> Self {
        F32(self.0.sqrt())
    }
    fn exp(self) -> Self {
        F32(self.0.exp())
    }
    fn abs(self) -> Self {
        F32(self.0.abs())
    }
    fn max(self, other: Self) -> Self {
        F32(self.0.max(other.0))
    }
    fn greater_than(self, other: Self) -> bool {
        self.0 > other.0
    }
    fn equals(self, other: Self) -> bool {
        self.0 == other.0
    }
    fn is_finite(self) -> bool {
        self.0.is_finite()
    }
}

impl Lanes for F32 {
    fn ln_2() -> Self {
        F32(std::f32::consts::LN_2)
    }
    fn log2_e() -> Self {
        F32(std::f32::consts::LOG2_E)
    }
    fn neg(self) -> Self {
        F32(-self.0)
    }
    fn round(self) -> Self {
        F32(self.0.round_ties_even())
    }
    fn to_i32(self) -> i32 {
        self.0.round_ties_even() as i32
    }
    fn from_bits(bits: u32) -> Self {
        F32(f32::from_bits(bits))
    }
}

const AVX2: Cpu = Cpu {
    x86_64: true,
    avx512_built: false,
    avx512f: false,
    avx2: true,
    fma: true,
};

const AVX512: Cpu = Cpu {
    x86_64: true,
    avx512_built: true,
    avx512f: true,
    avx2: true,
    fma: true,
};

const PORTABLE: Cpu = Cpu {
    x86_64: false,
    avx512_built: false,
    avx512f: false,
    avx2: false,
    fma: false,
};

fn words(values: &[f32]) -> Vec<F32> {
    values.iter().map(|&x| F32(x)).collect()
}

/// `dot4_avx2` folds four accumulators through a nest of `hadd`s that relies
/// on which lanes each one leaves its partial sums in. That is easy to get
/// subtly wrong — a transposed pair would still produce plausible-looking
/// attention output — so check it against the one-at-a-time version directly
/// rather than trusting the end-to-end test to notice.
#[test]
fn dot4_matches_dot() {
    // Lengths either side of the 8-wide body: exact multiples, a short
    // vector, and ragged tails.
    for &len in &[1usize, 7, 8, 9, 15, 16, 63, 64, 65, 128] {
        let a = filled::<F32>(1, len, 1);
        let b = filled::<F32>(4, len, 2);
        let got = dot4_avx2(a.row(0), b.row(0), b.row(1), b.row(2), b.row(3));
        for (lane, g) in got.iter().enumerate() {
            let g = g.0;
            let want = dot_avx2(a.row(0), b.row(lane)).0;
            let diff = (g - want).abs();
            let tol = 1e-4 * want.abs().max(1.0);
            assert!(
                diff < tol,
                "len={len} lane={lane}: dot4 {g} vs dot {want} (diff {diff:e})"
            );
        }
    }
}

/// The four lanes must stay in key order. A test that used the same data for
/// every row would pass even if the fold shuffled them.
#[test]
fn dot4_preserves_lane_order() {
    let a = Mat {
        rows: 1,
        cols: 8,
        data: vec![F32(1.0); 8],
    };
    // Each row sums to a distinct value, so a permuted fold is visible.
    let mut b = Mat::<F32>::zeros(4, 8);
    for r in 0..4 {
        for t in 0..8 {
            b.row_mut(r)[t] = if t == 0 { F32((r + 1) as f32) } else { F32(0.0) };
        }
    }
    let got = dot4_avx2(a.row(0), b.row(0), b.row(1), b.row(2), b.row(3));
    assert_eq!(
        got,
        [F32(1.0), F32(2.0), F32(3.0), F32(4.0)],
        "lanes came back out of order"
    );
}

/// `accumulate_avx2` interchanges the loops and keeps the output row in
/// registers, which changes both the traversal order and the summation
/// order. Check it against the obvious per-key form.
#[test]
fn accumulate_matches_per_key_axpy() {
    // d values chosen to hit every path: below one 32-float chunk, exactly
    // one, one plus a ragged tail, and two whole chunks.
    for &d in &[8usize, 17, 32, 49, 64, 96] {
        for &(kv0, jhi) in &[(0usize, 1usize), (0, 7), (0, 64), (3, 20), (11, 12)] {
            let v = filled::<F32>(jhi.max(1), d, 5);
            let probs: Vec<F32> = (0..64).map(|i| F32(0.25 + (i as f32) * 0.01)).collect();
            let start = filled::<F32>(1, d, 9);

            let mut got = start.row(0).to_vec();
            accumulate_avx2(&mut got, &v, kv0, jhi, &probs);

            let mut want = start.row(0).to_vec();
            for (bj, j) in (kv0..jhi).enumerate() {
                axpy_avx2(&mut want, v.row(j), probs[bj]);
            }

            for (t, (g, w)) in got.iter().zip(&want).enumerate() {
                let (g, w) = (g.0, w.0);
                let diff = (g - w).abs();
                let tol = 1e-4 * w.abs().max(1.0);
                assert!(
                    diff < tol,
                    "d={d} kv0={kv0} jhi={jhi} t={t}: {g} vs {w} (diff {diff:e})"
                );
            }
        }
    }
}

#[test]
fn tiled_matches_naive() {
    for &causal in &[false, true] {
        for &(n, d) in &[(1, 8), (7, 16), (64, 32), (130, 64), (200, 48)] {
            let q = filled::<F32>(n, d, 1);
            let k = filled::<F32>(n, d, 2);
            let v = filled::<F32>(n, d, 3);
            let a = naive::attention(&q, &k, &v, causal);
            let b = tiled::attention(&q, &k, &v, causal);
            let diff = max_abs_diff(&a, &b).0;
            assert!(diff < 1e-4, "tiled causal={causal} n={n} d={d} diff={diff}");
        }
    }
}

#[test]
fn simd_matches_naive() {
    for &causal in &[false, true] {
        for &(n, d) in &[(1, 8), (7, 15), (64, 32), (130, 64), (200, 49)] {
            let q = filled::<F32>(n, d, 4);
            let k = filled::<F32>(n, d, 5);
            let v = filled::<F32>(n, d, 6);
            let a = naive::attention(&q, &k, &v, causal);
            for cpu in [AVX2, AVX512, PORTABLE] {
                let b = simd::attention(&q, &k, &v, causal, cpu);
                let diff = max_abs_diff(&a, &b).0;
                assert!(diff < 2e-3, "simd causal={causal} n={n} d={d} diff={diff}");
            }
        }
    }
}

#[test]
fn avx512_matches_naive() {
    for &causal in &[false, true] {
        for &(n, d) in &[(1, 8), (7, 15), (64, 32), (130, 64), (200, 49)] {
            let q = filled::<F32>(n, d, 7);
            let k = filled::<F32>(n, d, 8);
            let v = filled::<F32>(n, d, 9);
            let a = naive::attention(&q, &k, &v, causal);
            let b = avx512::attention(&q, &k, &v, causal);
            let diff = max_abs_diff(&a, &b).0;
            assert!(
                diff < 2e-3,
                "avx512 causal={causal} n={n} d={d} diff={diff}"
            );
        }
    }
}

/// Every tile size, including ones that do not divide the length and one that
/// covers it whole.
#[test]
fn every_tile_size_matches_naive() {
    for &causal in &[false, true] {
        let (n, d) = (70, 24);
        let q = filled::<F32>(n, d, 21);
        let k = filled::<F32>(n, d, 22);
        let v = filled::<F32>(n, d, 23);
        let a = naive::attention(&q, &k, &v, causal);
        for block in SIZES {
            let diff = max_abs_diff(&a, &run_for(block, &q, &k, &v, causal)).0;
            assert!(diff < 1e-4, "block={block} causal={causal} diff={diff}");
        }
        for b in [
            attention_b::<F32, 1>(&q, &k, &v, causal),
            attention_b::<F32, 7>(&q, &k, &v, causal),
            attention_b::<F32, 1000>(&q, &k, &v, causal),
        ] {
            assert!(max_abs_diff(&a, &b).0 < 1e-4);
        }
    }
}

/// A size that is not on offer means the largest one.
#[test]
fn unknown_tile_sizes_fall_back_to_the_largest() {
    let q = filled::<F32>(300, 8, 1);
    let k = filled::<F32>(300, 8, 2);
    let v = filled::<F32>(300, 8, 3);
    let largest = attention_b::<F32, 256>(&q, &k, &v, false);
    assert_eq!(run_for(5, &q, &k, &v, false).data, largest.data);
    assert_ne!(run_for(16, &q, &k, &v, false).data, largest.data);
}

#[test]
fn one_key_gets_all_the_weight() {
    let q = filled::<F32>(1, 5, 1);
    let k = filled::<F32>(1, 5, 2);
    let v = filled::<F32>(1, 5, 3);
    for causal in [false, true] {
        assert_eq!(naive::attention(&q, &k, &v, causal).data, v.data);
        assert_eq!(tiled::attention(&q, &k, &v, causal).data, v.data);
    }
}

#[test]
fn an_empty_sequence_attends_to_nothing() {
    let none = Mat::<F32>::zeros(0, 8);
    for causal in [false, true] {
        assert_eq!(naive::attention(&none, &none, &none, causal).data.len(), 0);
        assert_eq!(tiled::attention(&none, &none, &none, causal).data.len(), 0);
        assert_eq!(attention_avx2(&none, &none, &none, causal).data.len(), 0);
    }
}

/// Two keys with scores 0 and ln 3: weights 1/4 and 3/4.
#[test]
fn weights_follow_the_softmax() {
    let q = Mat {
        rows: 2,
        cols: 1,
        data: words(&[0.0, 3.0f32.ln()]),
    };
    let k = Mat {
        rows: 2,
        cols: 1,
        data: words(&[0.0, 1.0]),
    };
    let v = Mat {
        rows: 2,
        cols: 1,
        data: words(&[8.0, 16.0]),
    };
    let full = naive::attention(&q, &k, &v, false);
    assert!((full.data[0].0 - 12.0).abs() < 1e-5);
    assert!((full.data[1].0 - 14.0).abs() < 1e-5);
    let causal = naive::attention(&q, &k, &v, true);
    assert_eq!(causal.data[0], F32(8.0));
    assert!((causal.data[1].0 - 14.0).abs() < 1e-5);
}

/// Under the causal mask a query does not see later keys or values.
#[test]
fn later_keys_do_not_matter_under_the_mask() {
    let (n, d) = (90, 16);
    let q = filled::<F32>(n, d, 1);
    let k = filled::<F32>(n, d, 2);
    let v = filled::<F32>(n, d, 3);
    let (mut k2, mut v2) = (k.clone(), v.clone());
    for r in 60..n {
        for t in 0..d {
            k2.row_mut(r)[t] = F32(5.0);
            v2.row_mut(r)[t] = F32(-5.0);
        }
    }
    for cpu in [AVX2, AVX512, PORTABLE] {
        let a = simd::attention(&q, &k, &v, true, cpu);
        let b = simd::attention(&q, &k2, &v2, true, cpu);
        for r in 0..60 {
            assert_eq!(a.row(r), b.row(r));
        }
        assert_ne!(a.row(60), b.row(60));
    }
}

/// The last query sees every key under either mask.
#[test]
fn the_last_row_is_the_same_under_both_masks() {
    let (n, d) = (77, 9);
    let q = filled::<F32>(n, d, 1);
    let k = filled::<F32>(n, d, 2);
    let v = filled::<F32>(n, d, 3);
    let full = tiled::attention(&q, &k, &v, false);
    let causal = tiled::attention(&q, &k, &v, true);
    assert_eq!(full.row(n - 1), causal.row(n - 1));
    assert_ne!(full.row(0), causal.row(0));
}

/// Scores far beyond what `exp` can take: subtracting the maximum keeps them in
/// range.
#[test]
fn large_scores_do_not_overflow() {
    let q = Mat {
        rows: 3,
        cols: 1,
        data: words(&[100.0, 100.0, 100.0]),
    };
    let k = Mat {
        rows: 3,
        cols: 1,
        data: words(&[1.0, 50.0, 2.0]),
    };
    let v = Mat {
        rows: 3,
        cols: 1,
        data: words(&[1.0, 2.0, 3.0]),
    };
    for out in [
        naive::attention(&q, &k, &v, false),
        tiled::attention(&q, &k, &v, false),
        attention_avx2(&q, &k, &v, false),
    ] {
        for x in &out.data {
            assert!((x.0 - 2.0).abs() < 1e-5, "{}", x.0);
        }
    }
}

#[test]
fn the_widest_available_path_is_taken() {
    assert_eq!(select(AVX512), Path::Avx512);
    assert_eq!(select(AVX2), Path::Avx2);
    assert_eq!(select(PORTABLE), Path::Portable);
    // Built with the 16-wide path, but the CPU lacks it.
    assert_eq!(
        select(Cpu {
            avx512f: false,
            ..AVX512
        }),
        Path::Avx2
    );
    // The CPU has it, but the build does not.
    assert_eq!(
        select(Cpu {
            avx512_built: false,
            ..AVX512
        }),
        Path::Avx2
    );
    // Both AVX2 and FMA are needed.
    assert_eq!(select(Cpu { fma: false, ..AVX2 }), Path::Portable);
    assert_eq!(
        select(Cpu {
            x86_64: false,
            ..AVX512
        }),
        Path::Portable
    );
}

#[test]
fn the_portable_path_is_the_tiled_kernel() {
    let q = filled::<F32>(40, 12, 1);
    let k = filled::<F32>(40, 12, 2);
    let v = filled::<F32>(40, 12, 3);
    let a = simd::attention(&q, &k, &v, true, PORTABLE);
    assert_eq!(a.data, tiled::attention(&q, &k, &v, true).data);
    let b = simd::attention(&q, &k, &v, true, AVX2);
    assert_eq!(b.data, attention_avx2(&q, &k, &v, true).data);
}

#[test]
fn vector_exp_is_close_to_exp() {
    let mut x = -87.0f32;
    while x < 88.0 {
        let want = x.exp();
        for got in exp8([F32(x); 8]) {
            assert!((got.0 - want).abs() <= 2e-5 * want, "exp({x}) = {}", got.0);
        }
        for got in exp16([F32(x); 16]) {
            assert!((got.0 - want).abs() <= 2e-5 * want, "exp({x}) = {}", got.0);
        }
        x += 0.37;
    }
    assert_eq!(exp8([F32(0.0); 8]), [F32(1.0); 8]);
}

/// Lanes are independent, and out-of-range ones are clamped rather than wrapped
/// into garbage exponents.
#[test]
fn vector_exp_clamps_its_lanes() {
    let x = words(&[-1000.0, -88.0, -1.0, 0.0, 1.0, 88.0, 1000.0, 2.0]);
    let got = exp8([x[0], x[1], x[2], x[3], x[4], x[5], x[6], x[7]]);
    assert!(got[0].0 >= 0.0 && got[0].0 < 1e-37);
    assert!((got[2].0 - (-1.0f32).exp()).abs() < 1e-5);
    assert_eq!(got[3], F32(1.0));
    assert!(got[6].0.is_finite() && got[6].0 > 1e37);
    assert!((got[7].0 - 2.0f32.exp()).abs() < 1e-4);
}

#[test]
fn vector_dots_and_scales_have_the_plain_result() {
    for len in [1usize, 8, 15, 16, 17, 33, 64] {
        let a = filled::<F32>(1, len, 3);
        let b = filled::<F32>(1, len, 4);
        let want: f64 = a
            .data
            .iter()
            .zip(&b.data)
            .map(|(x, y)| x.0 as f64 * y.0 as f64)
            .sum();
        assert!((dot_avx2(a.row(0), b.row(0)).0 as f64 - want).abs() < 1e-5);
        assert!((avx512::dot_avx512(a.row(0), b.row(0)).0 as f64 - want).abs() < 1e-5);

        let doubled: Vec<F32> = a.data.iter().map(|x| F32(x.0 * 2.0)).collect();
        let (mut x, mut y) = (a.data.clone(), a.data.clone());
        scale_avx2(&mut x, F32(2.0));
        avx512::scale_avx512(&mut y, F32(2.0));
        assert_eq!(x, doubled);
        assert_eq!(y, doubled);

        let mut sum = a.data.clone();
        avx512::axpy_avx512(&mut sum, b.row(0), F32(0.0));
        assert_eq!(sum, a.data);
    }
}

#[test]
fn sixteen_wide_accumulate_matches_per_key_axpy() {
    for d in [8usize, 16, 64, 70, 130] {
        for (kv0, jhi) in [(0usize, 1usize), (0, 9), (5, 30)] {
            let v = filled::<F32>(jhi, d, 5);
            let probs: Vec<F32> = (0..64).map(|i| F32(0.25 + (i as f32) * 0.01)).collect();
            let start = filled::<F32>(1, d, 9);
            let mut got = start.data.clone();
            avx512::accumulate_avx512(&mut got, &v, kv0, jhi, &probs);
            let mut want = start.data.clone();
            for (bj, j) in (kv0..jhi).enumerate() {
                avx512::axpy_avx512(&mut want, v.row(j), probs[bj]);
            }
            for (g, w) in got.iter().zip(&want) {
                assert!((g.0 - w.0).abs() < 1e-4 * w.0.abs().max(1.0));
            }
        }
    }
}

#[test]
fn the_fill_is_reproducible() {
    let m = filled::<F32>(1, 4, 1);
    let again = filled::<F32>(2, 2, 1);
    assert_eq!(m.data, again.data);
    assert_ne!(m.data, filled::<F32>(1, 4, 2).data);
    // xorshift* draws of 24 bits, spread over [-1, 1).
    let draws = [8413490u32, 397076, 12582676, 7155434];
    let want: Vec<F32> = draws
        .iter()
        .map(|&x| F32(x as f32 / (1u32 << 24) as f32 * 2.0 - 1.0))
        .collect();
    assert_eq!(m.data, want);
    for x in &filled::<F32>(50, 50, 77).data {
        assert!(x.0 >= -1.0 && x.0 < 1.0);
    }
}

#[test]
fn the_difference_is_the_largest_one() {
    let a = Mat {
        rows: 1,
        cols: 3,
        data: words(&[1.0, -2.0, 3.0]),
    };
    let b = Mat {
        rows: 1,
        cols: 3,
        data: words(&[1.5, 1.0, 3.0]),
    };
    assert_eq!(max_abs_diff(&a, &b), F32(3.0));
    assert_eq!(max_abs_diff(&a, &a), F32(0.0));
    // Only the elements that both have are compared.
    let short = Mat {
        rows: 1,
        cols: 1,
        data: words(&[1.5]),
    };
    assert_eq!(max_abs_diff(&a, &short), F32(0.5));
}

#[test]
fn rows_are_slices_of_the_data() {
    let mut m = Mat::<F32>::zeros(3, 2);
    m.row_mut(1)[0] = F32(4.0);
    m.row_mut(1)[1] = F32(5.0);
    assert_eq!(m.data, words(&[0.0, 0.0, 4.0, 5.0, 0.0, 0.0]));
    assert_eq!(m.row(1), &words(&[4.0, 5.0])[..]);
    assert_eq!(m.row(2), &words(&[0.0, 0.0])[..]);
}

/// An empty range of keys adds nothing, and asks nothing of the values.
#[test]
fn no_keys_add_nothing() {
    let v = filled::<F32>(3, 2, 1);
    for len in [0usize, 1, 40, 70] {
        let start = filled::<F32>(1, len, 2).data;
        for (kv0, jhi) in [(0, 0), (2, 2), (900, 900), (5, 1)] {
            let mut got = start.clone();
            accumulate_avx2(&mut got, &v, kv0, jhi, &[]);
            assert_eq!(got, start);
            avx512::accumulate_avx512(&mut got, &v, kv0, jhi, &[]);
            assert_eq!(got, start);
        }
    }
    // Nor does an empty row ask for anything.
    accumulate_avx2::<F32>(&mut [], &v, 0, 900, &[]);
    avx512::accumulate_avx512::<F32>(&mut [], &v, 0, 900, &[]);
}

/// The first `rows` rows of a matrix.
fn top(m: &Mat<F32>, rows: usize) -> Mat<F32> {
    Mat {
        rows,
        cols: m.cols,
        data: m.data[..rows * m.cols].to_vec(),
    }
}

/// Row `i` under a causal mask is row `i` of the problem cut off after it, to
/// the last bit.
#[test]
fn causal_rows_are_cut_rows_bit_for_bit() {
    let n = 70;
    let q = filled::<F32>(n, 8, 1);
    let k = filled::<F32>(n, 8, 2);
    let v = filled::<F32>(n, 8, 3);
    let masked = tiled::attention(&q, &k, &v, true);
    let wide = simd::attention(&q, &k, &v, true, AVX2);
    let wider = simd::attention(&q, &k, &v, true, AVX512);
    for i in [0usize, 1, 7, 31, 32, 63, 64, 69] {
        let (cq, ck, cv) = (top(&q, i + 1), top(&k, i + 1), top(&v, i + 1));
        assert_eq!(masked.row(i), tiled::attention(&cq, &ck, &cv, false).row(i));
        assert_eq!(wide.row(i), simd::attention(&cq, &ck, &cv, false, AVX2).row(i));
        assert_eq!(wider.row(i), simd::attention(&cq, &ck, &cv, false, AVX512).row(i));
    }
}

/// Permuting the queries permutes the outputs, to the last bit.
#[test]
fn permuted_queries_give_permuted_rows() {
    let n = 40;
    let q = filled::<F32>(n, 8, 1);
    let k = filled::<F32>(n, 8, 2);
    let v = filled::<F32>(n, 8, 3);
    let mut moved = Mat::<F32>::zeros(n, 8);
    for i in 0..n {
        moved.row_mut(i).copy_from_slice(q.row((i * 7 + 3) % n));
    }
    for (a, b) in [
        (naive::attention(&moved, &k, &v, false), naive::attention(&q, &k, &v, false)),
        (tiled::attention(&moved, &k, &v, false), tiled::attention(&q, &k, &v, false)),
        (
            simd::attention(&moved, &k, &v, false, AVX2),
            simd::attention(&q, &k, &v, false, AVX2),
        ),
    ] {
        for i in 0..n {
            assert_eq!(a.row(i), b.row((i * 7 + 3) % n));
        }
    }
}

/// Tiles of at least the whole length are all one tile.
#[test]
fn tiles_past_the_end_change_no_bit() {
    let n = 33;
    let q = filled::<F32>(n, 8, 1);
    let k = filled::<F32>(n, 8, 2);
    let v = filled::<F32>(n, 8, 3);
    for causal in [false, true] {
        let want = attention_b::<F32, 33>(&q, &k, &v, causal).data;
        assert_eq!(attention_b::<F32, 34>(&q, &k, &v, causal).data, want);
        assert_eq!(attention_b::<F32, 4096>(&q, &k, &v, causal).data, want);
    }
}

/// Every output lies between the least and the largest value it averages, up to
/// rounding, however large the scores.
#[test]
fn outputs_stay_in_the_range_of_the_values() {
    let n = 50;
    let mut q = filled::<F32>(n, 4, 1);
    for x in q.data.iter_mut() {
        x.0 *= 1000.0;
    }
    let k = filled::<F32>(n, 4, 2);
    let v = filled::<F32>(n, 4, 3);
    for causal in [false, true] {
        for out in [
            naive::attention(&q, &k, &v, causal),
            tiled::attention(&q, &k, &v, causal),
            simd::attention(&q, &k, &v, causal, AVX2),
            simd::attention(&q, &k, &v, causal, AVX512),
        ] {
            for i in 0..n {
                let keys = if causal { i + 1 } else { n };
                for t in 0..4 {
                    let seen = (0..keys).map(|j| v.row(j)[t].0);
                    let lo = seen.clone().fold(f32::INFINITY, f32::min);
                    let hi = seen.fold(f32::NEG_INFINITY, f32::max);
                    let got = out.row(i)[t].0;
                    assert!(lo - 1e-5 <= got && got <= hi + 1e-5, "{lo} {got} {hi}");
                }
            }
        }
    }
}

#[test]
fn heads_that_do_not_fit_are_noticed() {
    let q = multihead::filled_heads::<F32>(2, 6, 4, 11);
    assert!(multihead::heads_fit(&q, &q, &q));
    assert!(multihead::heads_fit::<F32>(&[], &[], &[]));
    // Too few heads, too few columns, too little data.
    assert!(!multihead::heads_fit(&q, &q[..1], &q));
    assert!(!multihead::heads_fit(&q, &q, &q[..1]));
    let narrow = multihead::filled_heads::<F32>(2, 6, 3, 11);
    assert!(!multihead::heads_fit(&q, &narrow, &q));
    assert!(multihead::heads_fit(&narrow, &q, &q));
    let short = multihead::filled_heads::<F32>(2, 5, 4, 11);
    assert!(!multihead::heads_fit(&q, &q, &short));
    // Nothing is asked of the keys where there is no query.
    let none = multihead::filled_heads::<F32>(2, 0, 4, 11);
    assert!(multihead::heads_fit(&none, &narrow, &short));
}

/// More heads only add to fewer heads.
#[test]
fn fewer_heads_come_first() {
    let few = multihead::filled_heads::<F32>(2, 5, 3, 9);
    let more = multihead::filled_heads::<F32>(4, 5, 3, 9);
    assert_eq!(few[0].data, more[0].data);
    assert_eq!(few[1].data, more[1].data);
}

#[test]
fn heads_are_independent() {
    let q = multihead::filled_heads::<F32>(3, 20, 8, 11);
    let k = multihead::filled_heads::<F32>(3, 20, 8, 22);
    let v = multihead::filled_heads::<F32>(3, 20, 8, 33);
    let out = multihead::attention(&q, &k, &v, true, AVX2);
    assert_eq!(out.len(), 3);
    for h in 0..3 {
        let alone = simd::attention(&q[h], &k[h], &v[h], true, AVX2);
        assert_eq!(out[h].data, alone.data);
    }
}

/// However the heads are split, the result is that of the serial loop.
#[test]
fn chunked_heads_are_the_serial_heads() {
    let heads = 7;
    let q = multihead::filled_heads::<F32>(heads, 12, 8, 11);
    let k = multihead::filled_heads::<F32>(heads, 12, 8, 22);
    let v = multihead::filled_heads::<F32>(heads, 12, 8, 33);
    let serial = multihead::attention(&q, &k, &v, false, AVX2);
    for threads in 0..10 {
        let mut parts = Vec::new();
        for (lo, hi) in multihead::head_chunks(heads, threads) {
            parts.push(multihead::attention_chunk(&q, &k, &v, false, AVX2, lo, hi));
        }
        let joined = multihead::join_chunks(parts);
        assert_eq!(joined.len(), heads);
        for (a, b) in joined.iter().zip(&serial) {
            assert_eq!(a.data, b.data);
        }
    }
}

#[test]
fn chunks_are_contiguous_and_even() {
    assert_eq!(multihead::head_chunks(8, 3), vec![(0, 3), (3, 6), (6, 8)]);
    // Four workers of two heads each would leave the last one nothing to do.
    assert_eq!(multihead::head_chunks(5, 4), vec![(0, 2), (2, 4), (4, 5)]);
    assert_eq!(multihead::head_chunks(2, 9), vec![(0, 1), (1, 2)]);
    assert_eq!(multihead::head_chunks(6, 1), vec![(0, 6)]);
    assert_eq!(multihead::head_chunks(1, 4), vec![(0, 1)]);
    assert_eq!(multihead::head_chunks(0, 4), vec![]);
}

#[test]
fn heads_are_filled_differently() {
    let heads = multihead::filled_heads::<F32>(3, 4, 4, 7);
    assert_eq!(heads[0].data, filled::<F32>(4, 4, 7).data);
    assert_eq!(heads[2].data, filled::<F32>(4, 4, 7 + 2 * 0x9E37).data);
    assert_ne!(heads[0].data, heads[1].data);
}

#[test]
fn resident_bytes_of_a_tile() {
    assert_eq!(resident_kb(16, 64), 8);
    assert_eq!(resident_kb(64, 64), 32);
    assert_eq!(resident_kb(256, 64), 128);
    assert_eq!(sweep_iters(256), 40);
    assert_eq!(sweep_iters(257), 12);
}

#[test]
fn the_last_of_equal_figures_is_best() {
    assert_eq!(best_index(&words(&[1.0, 3.0, 2.0])), 1);
    assert_eq!(best_index(&words(&[3.0, 1.0, 3.0, 2.0])), 2);
    assert_eq!(best_index(&words(&[4.0])), 0);
}
