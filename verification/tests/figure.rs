use flash_attn::attention_flops;
use flash_attn::flops::gflops;
use flash_attn::report::{
    causal_row, heads_row, kernels_agree, one_core_note, point_row, sweep_header, sweep_row,
    throughput_heading, throughput_row, within, CAUSAL_HEADER, HEADS_HEADER, HEADS_ITERS,
    HEADS_SEQ_LEN, HEAD_COUNTS, POINTS_HEADER, SKIPPING_KERNELS, THROUGHPUT_HEADER,
};
use flash_attn::roofline::probe::{
    bandwidth, fma_chain, fma_chain8, summarize, triad, Probe, FIRST_BATCHES, PEAK_VECTORS,
    PEAK_WIDTH, REPEATS, TRIAD_LEN,
};
use flash_attn::roofline::svg::{can_plot, ends_within, fmt_tick, marker, ticks, Axes};
use flash_attn::roofline::{
    bytes_moved, detected_isa, from_json, job, point, points, run_kernel, to_json, to_svg, Machine,
    Point, HEAD_DIM, KERNELS, SEQ_LENS,
};
use flash_attn::scalar::{Lanes, Measure, Scalar};
use flash_attn::simd::Cpu;
use flash_attn::timing::{seconds, time_stats, TimeStats};
use flash_attn::{filled, naive, tiled};

/// Double precision.
#[derive(Clone, Copy, Debug, PartialEq)]
struct F64(f64);

impl Scalar for F64 {
    fn zero() -> Self {
        F64(0.0)
    }
    fn one() -> Self {
        F64(1.0)
    }
    fn neg_infinity() -> Self {
        F64(f64::NEG_INFINITY)
    }
    fn from_usize(n: usize) -> Self {
        F64(n as f64)
    }
    fn add(self, other: Self) -> Self {
        F64(self.0 + other.0)
    }
    fn sub(self, other: Self) -> Self {
        F64(self.0 - other.0)
    }
    fn mul(self, other: Self) -> Self {
        F64(self.0 * other.0)
    }
    fn div(self, other: Self) -> Self {
        F64(self.0 / other.0)
    }
    fn mul_add(self, factor: Self, addend: Self) -> Self {
        F64(self.0.mul_add(factor.0, addend.0))
    }
    fn sqrt(self) -> Self {
        F64(self.0.sqrt())
    }
    fn exp(self) -> Self {
        F64(self.0.exp())
    }
    fn abs(self) -> Self {
        F64(self.0.abs())
    }
    fn max(self, other: Self) -> Self {
        F64(self.0.max(other.0))
    }
    fn greater_than(self, other: Self) -> bool {
        self.0 > other.0
    }
    fn equals(self, other: Self) -> bool {
        self.0 == other.0
    }
    fn is_finite(self) -> bool {
        self.0.is_finite()
    }
}

impl Lanes for F64 {
    fn ln_2() -> Self {
        F64(std::f64::consts::LN_2)
    }
    fn log2_e() -> Self {
        F64(std::f64::consts::LOG2_E)
    }
    fn neg(self) -> Self {
        F64(-self.0)
    }
    fn round(self) -> Self {
        F64(self.0.round_ties_even())
    }
    fn to_i32(self) -> i32 {
        self.0.round_ties_even() as i32
    }
    fn from_bits(bits: u32) -> Self {
        F64(f32::from_bits(bits) as f64)
    }
}

impl Measure for F64 {
    fn max_value() -> Self {
        F64(f64::MAX)
    }
    fn min(self, other: Self) -> Self {
        F64(self.0.min(other.0))
    }
    fn at_most(self, other: Self) -> bool {
        self.0 <= other.0
    }
    fn floor(self) -> Self {
        F64(self.0.floor())
    }
    fn ceil(self) -> Self {
        F64(self.0.ceil())
    }
    fn log10(self) -> Self {
        F64(self.0.log10())
    }
    fn pow10(self) -> Self {
        F64(10f64.powf(self.0))
    }
    fn fixed(self, digits: usize) -> String {
        format!("{:.*}", digits, self.0)
    }
    fn parse(text: &str) -> Option<Self> {
        text.parse().ok().map(F64)
    }
}

const NO_VECTORS: Cpu = Cpu {
    x86_64: true,
    avx512_built: false,
    avx512f: false,
    avx2: false,
    fma: false,
};

fn machine() -> Machine<F64> {
    Machine {
        arch: "x86_64".to_string(),
        isa: "AVX2 + FMA".to_string(),
        peak_gflops: F64(76.6),
        bandwidth_gbs: F64(15.0),
        peak_spread_pct: F64(2.7),
        bandwidth_spread_pct: F64(12.25),
    }
}

fn stats(best: f64, median: f64, spread_pct: f64) -> TimeStats<F64> {
    TimeStats {
        best: F64(best),
        median: F64(median),
        spread_pct: F64(spread_pct),
    }
}

fn some_points() -> Vec<Point<F64>> {
    let mut pts = Vec::new();
    let mut secs = 0.0004;
    for causal in [false, true] {
        for n in SEQ_LENS {
            for kernel in KERNELS {
                pts.push(point(kernel, n, causal, &stats(secs, secs * 1.1, secs * 1e4)));
                secs *= 1.13;
            }
        }
    }
    pts
}

/// 4 n^2 d without a mask, 2 n (n+1) d with one.
#[test]
fn flops_count_the_unmasked_pairs() {
    assert_eq!(attention_flops::<F64>(128, 64, false), F64(4.0 * 128.0 * 128.0 * 64.0));
    assert_eq!(attention_flops::<F64>(128, 64, true), F64(2.0 * 128.0 * 129.0 * 64.0));
    assert_eq!(attention_flops::<F64>(1, 8, true), attention_flops::<F64>(1, 8, false));
    assert_eq!(attention_flops::<F64>(0, 8, true), F64(0.0));
    assert_eq!(gflops(F64(3e9), F64(2.0)), F64(1.5));
}

#[test]
fn bytes_follow_the_traffic_model() {
    // Four streams over the operands and over the score matrix.
    assert_eq!(bytes_moved::<F64>("naive", 128, 64, false), F64(131072.0 + 262144.0));
    assert_eq!(
        bytes_moved::<F64>("naive", 128, 64, true),
        F64(131072.0 + 16.0 * 128.0 * 129.0 / 2.0)
    );
    // Two blocks of queries: four visits without a mask, three with one.
    assert_eq!(bytes_moved::<F64>("tiled", 128, 64, false), F64(65536.0 + 4.0 * 32768.0));
    assert_eq!(bytes_moved::<F64>("tiled", 128, 64, true), F64(65536.0 + 3.0 * 32768.0));
    // A ragged tail counts as a whole block.
    assert_eq!(bytes_moved::<F64>("tiled", 65, 64, false), F64(33280.0 + 4.0 * 32768.0));
    for n in SEQ_LENS {
        for causal in [false, true] {
            assert_eq!(
                bytes_moved::<F64>("tiled", n, 64, causal),
                bytes_moved::<F64>("simd", n, 64, causal)
            );
        }
        // At d = 64 tiling moves half the bytes of the baseline.
        let naive = bytes_moved::<F64>("naive", n, 64, false);
        assert_eq!(bytes_moved::<F64>("tiled", n, 64, false), F64(naive.0 / 2.0));
    }
}

#[test]
fn the_ceilings_cross_at_the_ridge() {
    let m = Machine {
        peak_gflops: F64(80.0),
        bandwidth_gbs: F64(16.0),
        ..machine()
    };
    assert_eq!(m.ridge(), F64(5.0));
    assert_eq!(m.ceiling_at(F64(5.0)), F64(80.0));
    assert_eq!(m.ceiling_at(F64(2.0)), F64(32.0));
    assert_eq!(m.ceiling_at(F64(50.0)), F64(80.0));
}

#[test]
fn the_stamp_names_the_vector_path() {
    let all = Cpu {
        x86_64: true,
        avx512_built: true,
        avx512f: true,
        avx2: true,
        fma: true,
    };
    assert_eq!(detected_isa(all), "AVX-512F");
    assert_eq!(detected_isa(Cpu { avx512_built: false, ..all }), "AVX2 + FMA");
    assert_eq!(detected_isa(NO_VECTORS), "x86-64 baseline (scalar fallback)");
    assert_eq!(
        detected_isa(Cpu { x86_64: false, ..all }),
        "portable fallback (no x86 SIMD path)"
    );
}

#[test]
fn samples_reduce_to_best_and_spread() {
    assert_eq!(summarize(&[F64(8.0), F64(10.0), F64(9.0)]), (F64(10.0), F64(20.0)));
    assert_eq!(summarize(&[F64(4.0)]), (F64(4.0), F64(0.0)));
    assert_eq!(summarize::<F64>(&[]), (F64(0.0), F64(0.0)));
}

/// Too short a run grows the batch; the fifth long enough one ends the probe.
#[test]
fn the_probe_grows_until_runs_are_long_enough() {
    let mut probe = Probe::<F64>::portable();
    assert_eq!((probe.width(), probe.flops()), (PEAK_WIDTH, 2));
    assert_eq!(probe.record(F64(0.1)), None);
    assert_eq!(probe.record(F64(0.2499)), None);
    assert_eq!(probe.batches(), FIRST_BATCHES * 16);
    assert!(probe.samples().is_empty());
    let work = (FIRST_BATCHES * 16 * PEAK_WIDTH * 2) as f64;
    for secs in [0.25, 0.5, 1.0, 0.25] {
        assert_eq!(probe.record(F64(secs)), None);
    }
    let (best, spread) = probe.record(F64(0.5)).unwrap();
    assert_eq!(best, F64(work / 0.25 / 1e9));
    assert!((spread.0 - 75.0).abs() < 1e-9);
    assert_eq!(probe.samples().len(), REPEATS);

    let wide = Probe::<F64>::avx2();
    assert_eq!((wide.width(), wide.flops()), (PEAK_VECTORS, 16));
}

/// Given the same times, both probes report the same ceiling and spread.
#[test]
fn both_probes_report_the_same_ceiling() {
    let mut lane = Probe::<F64>::portable();
    let mut wide = Probe::<F64>::avx2();
    for secs in [0.01, 0.2, 0.3, 0.7, 0.26, 0.1, 0.31, 0.29] {
        assert_eq!(lane.record(F64(secs)), wide.record(F64(secs)));
        assert_eq!(lane.batches(), wide.batches());
        assert_eq!(lane.samples(), wide.samples());
    }
    assert_eq!(lane.samples().len(), REPEATS);
}

/// Only a run that is too short needs room for a longer one, and a finished probe
/// takes no more.
#[test]
fn a_probe_says_what_it_accepts() {
    let mut probe = Probe::<F64>::portable();
    while probe.batches() <= usize::MAX / 4 {
        assert!(probe.accepts(F64(0.1)));
        assert_eq!(probe.record(F64(0.1)), None);
    }
    assert!(!probe.accepts(F64(0.1)));
    for _ in 0..REPEATS {
        assert!(probe.accepts(F64(0.3)));
        probe.record(F64(0.3));
    }
    assert!(!probe.accepts(F64(0.3)));
}

#[test]
fn the_probe_goes_by_the_cpu() {
    let vectors = Cpu {
        avx2: true,
        fma: true,
        ..NO_VECTORS
    };
    let width = |cpu: Cpu| {
        let probe = Probe::<F64>::for_cpu(cpu);
        assert_eq!(probe.batches(), FIRST_BATCHES);
        assert!(probe.samples().is_empty());
        (probe.width(), probe.flops())
    };
    assert_eq!(width(vectors), (PEAK_VECTORS, 16));
    assert_eq!(width(NO_VECTORS), (PEAK_WIDTH, 2));
    assert_eq!(width(Cpu { avx2: false, ..vectors }), (PEAK_WIDTH, 2));
    assert_eq!(width(Cpu { fma: false, ..vectors }), (PEAK_WIDTH, 2));
    assert_eq!(width(Cpu { x86_64: false, ..vectors }), (PEAK_WIDTH, 2));
}

/// Best and spread do not depend on the order of the samples, and the spread is
/// a percentage.
#[test]
fn samples_come_in_any_order() {
    let want = (F64(40.0), F64(75.0));
    for samples in [[10.0, 25.0, 40.0], [40.0, 10.0, 25.0], [25.0, 40.0, 10.0]] {
        assert_eq!(summarize(&samples.map(F64)), want);
    }
    let (_, spread) = summarize(&[F64(1e-9), F64(1e9)]);
    assert!(0.0 <= spread.0 && spread.0 <= 100.0);
    assert_eq!(summarize(&[F64(7.5); 4]).1, F64(0.0));
}

/// The roofline never falls, and is flat from the ridge on.
#[test]
fn the_roofline_rises_to_the_ridge() {
    let m = machine();
    let mut last = F64(0.0);
    for step in 1..200 {
        let x = F64(step as f64 / 10.0);
        let y = m.ceiling_at(x);
        assert!(y.0 >= last.0);
        assert!(y.0 <= m.peak_gflops.0 && y.0 <= m.bandwidth_gbs.0 * x.0);
        if x.0 > m.ridge().0 {
            assert_eq!(y, m.peak_gflops);
        }
        last = y;
    }
}

/// The causal mask never adds traffic, and saves some from the second query, or
/// block, on.
#[test]
fn the_causal_mask_adds_no_traffic() {
    for n in [1usize, 2, 32, 33, 63, 64, 65, 128, 512] {
        for kernel in KERNELS {
            let full = bytes_moved::<F64>(kernel, n, 64, false).0;
            let causal = bytes_moved::<F64>(kernel, n, 64, true).0;
            assert!(causal <= full);
        }
    }
    let both = |kernel: &str, n: usize| {
        (
            bytes_moved::<F64>(kernel, n, 64, true).0,
            bytes_moved::<F64>(kernel, n, 64, false).0,
        )
    };
    let (causal, full) = both("naive", 1);
    assert_eq!(causal, full);
    let (causal, full) = both("naive", 2);
    assert!(causal < full);
    let (causal, full) = both("tiled", 64);
    assert_eq!(causal, full);
    let (causal, full) = both("tiled", 65);
    assert!(causal < full);
}

#[test]
fn one_core_gets_a_note() {
    assert_eq!(one_core_note(2), None);
    assert_eq!(one_core_note(16), None);
    assert_eq!(one_core_note(0), one_core_note(1));
    assert_eq!(
        one_core_note(1),
        Some(
            "\nOnly one core is available to this process, so there is nothing to\n\
             parallelize across and the two columns below run identical code.\n\
             If you pinned with `taskset -c 0`, re-run this benchmark unpinned\n\
             (or pin to a range, e.g. `taskset -c 0-7`) to measure head scaling.\n\
             The gap between the columns is then a useful read on the noise floor."
        )
    );
}

#[test]
fn the_tables_cover_what_they_compare() {
    assert_eq!(SKIPPING_KERNELS, ["tiled", "simd"]);
    assert_eq!((HEADS_SEQ_LEN, HEADS_ITERS), (512, 10));
    assert_eq!(HEAD_COUNTS, [1, 2, 4, 8]);
}

#[test]
fn probe_workloads_compute() {
    let (a, b) = (1.000_000_1f64, 0.999_999_9f64);
    let mut want = 2.0f64;
    for _ in 0..3 {
        want = want.mul_add(a, b);
    }
    let mut acc = [F64(2.0); 5];
    fma_chain(&mut acc, 3);
    assert_eq!(acc, [F64(want); 5]);
    let mut lanes = [[F64(2.0); 8]; 2];
    fma_chain8(&mut lanes, 3);
    assert_eq!(lanes, [[F64(want); 8]; 2]);

    let mut out = vec![F64(0.0); 3];
    triad(&mut out, &[F64(1.0); 3], &[F64(2.0); 3], F64(3.0));
    assert_eq!(out, vec![F64(7.0); 3]);

    assert_eq!(TRIAD_LEN, 16 << 20);
    let (best, spread) = bandwidth(1_000_000, &[F64(0.002), F64(0.001)]);
    assert_eq!(best, F64(12.0));
    assert_eq!(spread, F64(50.0));
}

#[test]
fn noisy_hosts_are_noticed() {
    let quiet = machine();
    assert!(!quiet.peak_is_noisy() && !quiet.bandwidth_is_noisy());
    let edge = Machine {
        peak_spread_pct: F64(10.0),
        bandwidth_spread_pct: F64(25.0),
        ..machine()
    };
    assert!(!edge.peak_is_noisy() && !edge.bandwidth_is_noisy());
    let noisy = Machine {
        peak_spread_pct: F64(10.1),
        bandwidth_spread_pct: F64(25.1),
        ..machine()
    };
    assert!(noisy.peak_is_noisy() && noisy.bandwidth_is_noisy());
    let m = Machine {
        peak_gflops: F64(50.0),
        ..machine()
    };
    assert_eq!(m.drift_pct(F64(49.0)), F64(2.0));
    assert_eq!(m.drift_pct(F64(51.0)), F64(2.0));
}

#[test]
fn a_machine_is_what_its_probes_gave() {
    let m = Machine::measured(
        "x86_64".to_string(),
        NO_VECTORS,
        (F64(70.0), F64(1.0)),
        (F64(14.0), F64(9.0)),
    );
    assert_eq!(m.isa, "x86-64 baseline (scalar fallback)");
    assert_eq!((m.peak_gflops, m.peak_spread_pct), (F64(70.0), F64(1.0)));
    assert_eq!((m.bandwidth_gbs, m.bandwidth_spread_pct), (F64(14.0), F64(9.0)));
}

#[test]
fn statistics_of_a_timing() {
    let t = time_stats::<F64>(vec![4_000_000, 1_000_000, 3_000_000, 2_000_000, 5_000_000]);
    assert_eq!(t.best, F64(0.001));
    assert_eq!(t.median, F64(0.003));
    assert!((t.spread_pct.0 - (0.004 - 0.002) / 0.003 * 100.0).abs() < 1e-9);
    assert_eq!(seconds::<F64>(1_500_000_000), F64(1.5));
}

/// Throughput comes from the fastest run.
#[test]
fn a_point_lands_where_its_timing_says() {
    let p = point("tiled", 128, false, &stats(0.001, 0.002, 8.0));
    let flops = 4.0 * 128.0 * 128.0 * 64.0;
    assert_eq!(p.gflops, F64(flops / 0.001 / 1e9));
    assert_eq!(p.intensity, F64(flops / 196608.0));
    assert_eq!(p.median_secs, F64(0.002));
    assert_eq!(p.spread_pct, F64(8.0));
}

/// Mask outermost, then sequence length, then kernel.
#[test]
fn points_come_in_order() {
    let mut all = Vec::new();
    for l in 0..4 {
        let mut row = Vec::new();
        for j in 0..6 {
            row.push(stats(1.0, (10 * l + j) as f64, 0.0));
        }
        all.push(row);
    }
    let pts = points(&all);
    assert_eq!(pts.len(), 24);
    assert_eq!((pts[0].kernel, pts[0].n, pts[0].causal), ("naive", 128, false));
    assert_eq!((pts[5].kernel, pts[5].n, pts[5].causal), ("simd", 256, false));
    assert_eq!((pts[13].kernel, pts[13].n, pts[13].causal), ("tiled", 128, true));
    assert_eq!((pts[23].kernel, pts[23].n, pts[23].causal), ("simd", 1024, true));
    assert_eq!(pts[5].median_secs, F64(12.0));
    assert_eq!(pts[13].median_secs, F64(4.0));
    assert_eq!(job(4), ("tiled", true));
}

#[test]
fn kernels_run_by_name() {
    let q = filled::<F64>(20, 8, 1);
    let k = filled::<F64>(20, 8, 2);
    let v = filled::<F64>(20, 8, 3);
    assert_eq!(
        run_kernel("naive", &q, &k, &v, true, NO_VECTORS).data,
        naive::attention(&q, &k, &v, true).data
    );
    for name in ["tiled", "simd"] {
        assert_eq!(
            run_kernel(name, &q, &k, &v, true, NO_VECTORS).data,
            tiled::attention(&q, &k, &v, true).data
        );
    }
    assert!(kernels_agree(&q, &k, &v, true, NO_VECTORS));
    assert!(within(F64(0.00009), 1, 10000));
    assert!(!within(F64(0.0001), 1, 10000));
}

#[test]
fn json_is_written_line_by_line() {
    let pts = vec![
        Point {
            kernel: "naive",
            n: 128,
            causal: false,
            gflops: F64(2.73),
            intensity: F64(10.66666),
            median_secs: F64(0.00153642),
            spread_pct: F64(8.125),
        },
        Point {
            kernel: "simd",
            n: 1024,
            causal: true,
            gflops: F64(18.58),
            intensity: F64(25.6),
            median_secs: F64(0.0072),
            spread_pct: F64(3.0),
        },
    ];
    let want = "{
  \"machine\": { \"arch\": \"x86_64\", \"isa\": \"AVX2 + FMA\", \"peak_gflops\": 76.600, \"bandwidth_gbs\": 15.000, \"ridge_flop_per_byte\": 5.1067, \"peak_spread_pct\": 2.70, \"bandwidth_spread_pct\": 12.25 },
  \"head_dim\": 64,
  \"points\": [
    { \"kernel\": \"naive\", \"n\": 128, \"mask\": \"full\", \"gflops\": 2.7300, \"intensity_flop_per_byte\": 10.6667, \"median_secs\": 0.001536420, \"spread_pct\": 8.12 },
    { \"kernel\": \"simd\", \"n\": 1024, \"mask\": \"causal\", \"gflops\": 18.5800, \"intensity_flop_per_byte\": 25.6000, \"median_secs\": 0.007200000, \"spread_pct\": 3.00 }
  ]
}
";
    assert_eq!(to_json(&machine(), &pts), want);

    let (m, read) = from_json::<F64>(want).unwrap();
    assert_eq!(m.arch, "x86_64");
    assert_eq!(m.isa, "AVX2 + FMA");
    assert_eq!(m.peak_gflops, F64(76.6));
    assert_eq!(m.bandwidth_spread_pct, F64(12.25));
    assert_eq!(read.len(), 2);
    assert_eq!((read[1].kernel, read[1].n, read[1].causal), ("simd", 1024, true));
    assert_eq!(read[0].gflops, F64(2.73));
    assert_eq!(read[0].median_secs, F64(0.00153642));
    assert_eq!(to_json(&m, &read), want);
}

/// A comma between each two points and none after the last.
#[test]
fn points_are_a_json_list() {
    let m = machine();
    let none = to_json(&m, &[]);
    assert!(none.starts_with("{\n  \"machine\": { \"arch\": \"x86_64\", "));
    assert!(none.ends_with(",\n  \"head_dim\": 64,\n  \"points\": [\n  ]\n}\n"));
    let pts = some_points();
    for count in [1usize, 2, 7] {
        let text = to_json(&m, &pts[..count]);
        assert_eq!(text.matches("},\n    {").count(), count - 1);
        assert_eq!(text.matches("{ \"kernel\"").count(), count);
        assert!(text.ends_with(" }\n  ]\n}\n"));
        assert!(!text.contains(",\n  ]"));
    }
}

/// One `svg` element, with a marker per point and five in the legend.
#[test]
fn every_point_is_drawn() {
    let pts = some_points();
    for count in [0usize, 1, 5, pts.len()] {
        let svg = to_svg(&machine(), &pts[..count]);
        assert!(svg.starts_with("<svg ") && svg.ends_with("</svg>\n"));
        let marks = svg.matches("<circle ").count()
            + svg.matches("width=\"9.6\" height=\"9.6\"").count()
            + svg.matches("<polygon ").count();
        assert_eq!(marks, count + 5);
        let hollow = pts[..count].iter().filter(|p| p.causal).count();
        assert_eq!(svg.matches("fill=\"#ffffff\" stroke=").count(), hollow + 1);
    }
}

#[test]
fn a_measured_dataset_is_drawn_again() {
    let text = to_json(&machine(), &some_points());
    let (m, pts) = from_json::<F64>(&text).unwrap();
    assert_eq!(pts.len(), 24);
    assert_eq!(to_json(&m, &pts), text);
    assert!(can_plot(&m, &pts, 700));
    assert!(to_svg(&m, &pts).starts_with("<svg "));
}

#[test]
fn other_texts_are_refused() {
    let text = to_json(&machine(), &some_points()[..2]);
    assert!(from_json::<F64>(&text).is_some());
    assert!(from_json::<F64>("").is_none());
    assert!(from_json::<F64>("{}").is_none());
    assert!(from_json::<F64>(&text[..text.len() - 1]).is_none());
    assert!(from_json::<F64>(&text.replace("naive", "cuda")).is_none());
    assert!(from_json::<F64>(&text.replace("full", "half")).is_none());
    assert!(from_json::<F64>(&text.replace(": 128,", ": 12x,")).is_none());
    assert!(from_json::<F64>(&text.replace("76.600", "fast")).is_none());
    assert!(from_json::<F64>(&text.replace("\"head_dim\": 64", "\"head_dim\": 32")).is_none());
    assert!(from_json::<F64>(&text.replace(" },\n    {", " }\n    {")).is_none());
}

#[test]
fn ticks_are_anchored_to_decades() {
    let got = ticks(F64(0.3), F64(40.0));
    assert_eq!(
        got,
        vec![F64(0.5), F64(1.0), F64(2.0), F64(5.0), F64(10.0), F64(20.0)]
    );
    assert_eq!(fmt_tick(F64(20.0)), "20");
    assert_eq!(fmt_tick(F64(1.0)), "1");
    assert_eq!(fmt_tick(F64(0.5)), "0.5");
    assert_eq!(fmt_tick(F64(0.1)), "0.1");
    assert_eq!(fmt_tick(F64(0.05)), "0.05");
    assert!(ends_within(F64(0.3), F64(40.0), 10));
    assert!(!ends_within(F64(0.3), F64(40.0), 3));
    // From zero there is no first decade.
    assert!(!ends_within(F64(0.0), F64(40.0), 700));
}

#[test]
fn axes_are_logarithmic() {
    let ax = Axes {
        x0: F64(1.0),
        x1: F64(100.0),
        y0: F64(1.0),
        y1: F64(10000.0),
    };
    assert_eq!(ax.px(F64(1.0)), F64(78.0));
    assert_eq!(ax.px(F64(10.0)), F64(384.0));
    assert_eq!(ax.px(F64(100.0)), F64(690.0));
    assert_eq!(ax.py(F64(1.0)), F64(494.0));
    assert_eq!(ax.py(F64(100.0)), F64(291.0));
    assert_eq!(ax.py(F64(10000.0)), F64(88.0));
}

#[test]
fn each_kernel_has_its_marker() {
    assert_eq!(
        marker("naive", F64(10.0), F64(20.0), "#123456", false),
        "<circle cx=\"10.0\" cy=\"20.0\" r=\"5.2\" fill=\"#123456\" stroke=\"#123456\" stroke-width=\"1.2\"/>"
    );
    assert_eq!(
        marker("tiled", F64(10.0), F64(20.0), "#123456", true),
        "<rect x=\"5.2\" y=\"15.2\" width=\"9.6\" height=\"9.6\" fill=\"#ffffff\" stroke=\"#123456\" stroke-width=\"2\"/>"
    );
    assert_eq!(
        marker("simd", F64(10.0), F64(20.0), "#123456", false),
        "<polygon points=\"10.0,14.0 15.5,24.0 4.5,24.0\" fill=\"#123456\" stroke=\"#123456\" stroke-width=\"1.2\" stroke-linejoin=\"round\"/>"
    );
}

/// The figure, put together once more with plain formatting.
fn drawn(m: &Machine<F64>, pts: &[Point<F64>]) -> String {
    let (w, h, l, r, t, b) = (900.0, 560.0, 78.0, 210.0, 88.0, 66.0);
    let colors = ["#c2410c", "#0369a1", "#15803d"];
    let (peak, bw) = (m.peak_gflops.0, m.bandwidth_gbs.0);
    let ridge = peak / bw;
    let min_i = pts.iter().map(|p| p.intensity.0).fold(f64::MAX, f64::min);
    let max_i = pts.iter().map(|p| p.intensity.0).fold(0.0, f64::max);
    let min_g = pts.iter().map(|p| p.gflops.0).fold(f64::MAX, f64::min);
    let x0 = (min_i * 0.45).min(ridge * 0.3);
    let x1 = (max_i * 2.2).max(ridge * 3.0);
    let y0 = min_g * 0.45;
    let y1 = peak * 1.8;
    let px = |x: f64| l + (x.log10() - x0.log10()) / (x1.log10() - x0.log10()) * (w - l - r);
    let py = |y: f64| h - b - (y.log10() - y0.log10()) / (y1.log10() - y0.log10()) * (h - t - b);
    let tick_values = |lo: f64, hi: f64| {
        let mut out = Vec::new();
        let mut decade = 10f64.powf(lo.log10().floor());
        while decade <= hi * 10.0 {
            for m in [1.0, 2.0, 5.0] {
                let v = decade * m;
                if v >= lo && v <= hi {
                    out.push(v);
                }
            }
            decade *= 10.0;
        }
        out
    };
    let label = |v: f64| {
        if v >= 1.0 {
            format!("{v:.0}")
        } else if v >= 0.1 {
            format!("{v:.1}")
        } else {
            format!("{v:.2}")
        }
    };
    let mark = |kernel: &str, x: f64, y: f64, fill: &str, hollow: bool| {
        marker(kernel, F64(x), F64(y), fill, hollow)
    };
    let mut s = String::new();
    s.push_str(&format!(
        "<svg xmlns=\"http://www.w3.org/2000/svg\" viewBox=\"0 0 {w:.0} {h:.0}\" width=\"{w:.0}\" height=\"{h:.0}\" font-family=\"-apple-system, BlinkMacSystemFont, 'Segoe UI', Helvetica, Arial, sans-serif\">\n"
    ));
    s.push_str(&format!("<rect width=\"{w:.0}\" height=\"{h:.0}\" fill=\"#ffffff\"/>\n"));
    s.push_str(&format!(
        "<text x=\"{l:.0}\" y=\"30\" font-size=\"17\" font-weight=\"600\" fill=\"#0f172a\">Attention kernels vs the roofline (d = {HEAD_DIM})</text>\n"
    ));
    s.push_str(&format!(
        "<text x=\"{l:.0}\" y=\"50\" font-size=\"12\" fill=\"#475569\">measured on {} — {}</text>\n",
        m.arch, m.isa
    ));
    let worst_spread = pts.iter().map(|p| p.spread_pct.0).fold(0.0, f64::max);
    s.push_str(&format!(
        "<text x=\"{l:.0}\" y=\"68\" font-size=\"11.5\" fill=\"#64748b\">compute ceiling {peak:.0} GFLOP/s  ·  bandwidth {bw:.1} GB/s  ·  ridge {ridge:.2} FLOP/byte  ·  worst point spread {worst_spread:.0}%</text>\n"
    ));
    for v in tick_values(x0, x1) {
        let x = px(v);
        s.push_str(&format!(
            "<line x1=\"{x:.1}\" y1=\"{t:.1}\" x2=\"{x:.1}\" y2=\"{:.1}\" stroke=\"#e2e8f0\" stroke-width=\"1\"/>\n",
            h - b
        ));
        s.push_str(&format!(
            "<text x=\"{x:.1}\" y=\"{:.1}\" font-size=\"11\" fill=\"#64748b\" text-anchor=\"middle\">{}</text>\n",
            h - b + 18.0,
            label(v)
        ));
    }
    for v in tick_values(y0, y1) {
        let y = py(v);
        s.push_str(&format!(
            "<line x1=\"{l:.1}\" y1=\"{y:.1}\" x2=\"{:.1}\" y2=\"{y:.1}\" stroke=\"#e2e8f0\" stroke-width=\"1\"/>\n",
            w - r
        ));
        s.push_str(&format!(
            "<text x=\"{:.1}\" y=\"{:.1}\" font-size=\"11\" fill=\"#64748b\" text-anchor=\"end\">{}</text>\n",
            l - 8.0,
            y + 3.8,
            label(v)
        ));
    }
    let rx = px(ridge).clamp(l, w - r);
    s.push_str(&format!(
        "<rect x=\"{l:.1}\" y=\"{t:.1}\" width=\"{:.1}\" height=\"{:.1}\" fill=\"#0369a1\" opacity=\"0.04\"/>\n",
        rx - l,
        h - t - b
    ));
    let mut roof = String::new();
    for i in 0..=220 {
        let f = i as f64 / 220.0;
        let x = 10f64.powf(x0.log10() + f * (x1.log10() - x0.log10()));
        roof.push_str(&format!("{:.1},{:.1} ", px(x), py(peak.min(bw * x))));
    }
    s.push_str(&format!(
        "<polyline points=\"{}\" fill=\"none\" stroke=\"#0f172a\" stroke-width=\"2.4\" stroke-linejoin=\"round\"/>\n",
        roof.trim_end()
    ));
    s.push_str(&format!(
        "<line x1=\"{rx:.1}\" y1=\"{t:.1}\" x2=\"{rx:.1}\" y2=\"{:.1}\" stroke=\"#0f172a\" stroke-width=\"1.4\" stroke-dasharray=\"5 4\" opacity=\"0.65\"/>\n",
        h - b
    ));
    s.push_str(&format!(
        "<text x=\"{:.1}\" y=\"{:.1}\" font-size=\"11\" fill=\"#0f172a\" text-anchor=\"end\" opacity=\"0.8\">memory-bound</text>\n",
        rx - 8.0,
        t + 14.0
    ));
    s.push_str(&format!(
        "<text x=\"{:.1}\" y=\"{:.1}\" font-size=\"11\" fill=\"#0f172a\" opacity=\"0.8\">compute-bound</text>\n",
        rx + 8.0,
        t + 14.0
    ));
    s.push_str(&format!(
        "<text x=\"{:.1}\" y=\"{:.1}\" font-size=\"10.5\" fill=\"#0f172a\" text-anchor=\"end\" opacity=\"0.75\">ridge {ridge:.2}</text>\n",
        rx - 7.0,
        h - b - 9.0
    ));
    for p in pts {
        let c = KERNELS.iter().position(|k| *k == p.kernel).unwrap_or(0);
        s.push_str(&mark(p.kernel, px(p.intensity.0), py(p.gflops.0), colors[c], p.causal));
        s.push('\n');
    }
    s.push_str(&format!(
        "<text x=\"{:.1}\" y=\"{:.1}\" font-size=\"12.5\" fill=\"#0f172a\" text-anchor=\"middle\">arithmetic intensity (FLOP / byte)</text>\n",
        l + (w - l - r) / 2.0,
        h - 18.0
    ));
    s.push_str(&format!(
        "<text transform=\"translate(22,{:.1}) rotate(-90)\" font-size=\"12.5\" fill=\"#0f172a\" text-anchor=\"middle\">GFLOP/s</text>\n",
        t + (h - t - b) / 2.0
    ));
    let lx = w - r + 22.0;
    let mut ly = t + 6.0;
    s.push_str(&format!(
        "<text x=\"{lx:.1}\" y=\"{ly:.1}\" font-size=\"12\" font-weight=\"600\" fill=\"#0f172a\">kernel</text>\n"
    ));
    ly += 20.0;
    for (i, k) in KERNELS.iter().enumerate() {
        s.push_str(&mark(k, lx + 7.0, ly - 4.0, colors[i], false));
        s.push_str(&format!(
            "\n<text x=\"{:.1}\" y=\"{ly:.1}\" font-size=\"12\" fill=\"#334155\">{k}</text>\n",
            lx + 22.0
        ));
        ly += 22.0;
    }
    ly += 10.0;
    s.push_str(&format!(
        "<text x=\"{lx:.1}\" y=\"{ly:.1}\" font-size=\"12\" font-weight=\"600\" fill=\"#0f172a\">mask</text>\n"
    ));
    ly += 20.0;
    for (name, hollow) in [("full", false), ("causal", true)] {
        s.push_str(&mark("naive", lx + 7.0, ly - 4.0, "#334155", hollow));
        s.push_str(&format!(
            "\n<text x=\"{:.1}\" y=\"{ly:.1}\" font-size=\"12\" fill=\"#334155\">{name}</text>\n",
            lx + 22.0
        ));
        ly += 22.0;
    }
    s.push_str("</svg>\n");
    s
}

#[test]
fn the_figure_is_drawn_to_the_character() {
    let m = machine();
    let pts = some_points();
    assert!(can_plot(&m, &pts, 700));
    assert_eq!(to_svg(&m, &pts), drawn(&m, &pts));

    // A ridge right of every point, so far that the plot is wider than the points.
    let slow = Machine {
        bandwidth_gbs: F64(0.4),
        ..machine()
    };
    assert_eq!(to_svg(&slow, &pts[..3]), drawn(&slow, &pts[..3]));
}

#[test]
fn a_figure_without_an_end_is_not_drawn() {
    let stuck = Machine {
        peak_gflops: F64(0.0),
        ..machine()
    };
    // Every intensity range starts at the ridge, which is zero.
    assert!(!can_plot(&stuck, &some_points(), 700));
}

#[test]
fn tables_line_up() {
    assert_eq!(
        THROUGHPUT_HEADER,
        format!(
            "{:>6}  {:>14}  {:>14}  {:>14}  {:>13}  {:>12}",
            "n", "naive GF/s", "tiled GF/s", "simd GF/s", "simd vs naive", "simd spread"
        )
    );
    assert_eq!(
        CAUSAL_HEADER,
        format!(
            "{:>6}  {:>8}  {:>13}  {:>15}  {:>10}",
            "n", "kernel", "full (ms)", "causal (ms)", "speedup"
        )
    );
    assert_eq!(
        HEADS_HEADER,
        format!(
            "{:>6}  {:>13}  {:>15}  {:>10}  {:>12}",
            "heads", "serial (ms)", "parallel (ms)", "speedup", "vs ideal"
        )
    );
    assert_eq!(
        POINTS_HEADER,
        format!(
            "{:<8} {:>6} {:>8} {:>12} {:>14}",
            "kernel", "n", "mask", "GFLOP/s", "FLOP/byte"
        )
    );
    assert_eq!(throughput_heading(true), "=== causal mask, head_dim d = 64 ===");

    let (tn, tt, ts) = (stats(0.004, 0.0, 0.0), stats(0.005, 0.0, 0.0), stats(0.0007, 0.0, 8.25));
    let flops = 4.0 * 256.0 * 256.0 * 64.0;
    let g = |t: f64| flops / t / 1e9;
    assert_eq!(
        throughput_row(256, false, &tn, &tt, &ts),
        format!(
            "{:>6}  {:>14.2}  {:>14.2}  {:>14.2}  {:>12.2}x  {:>11.1}%",
            256,
            g(0.004),
            g(0.005),
            g(0.0007),
            0.004 / 0.0007,
            8.25
        )
    );
    assert_eq!(
        causal_row(512, "tiled", &tn, &ts),
        format!(
            "{:>6}  {:>8}  {:>13.3}  {:>15.3}  {:>9.2}x",
            512,
            "tiled",
            0.004 * 1e3,
            0.0007 * 1e3,
            0.004 / 0.0007
        )
    );
    let speedup = 0.004 / 0.0007;
    assert_eq!(
        heads_row(8, 4, &tn, &ts),
        format!(
            "{:>6}  {:>13.2}  {:>15.2}  {:>9.2}x  {:>11.0}%",
            8,
            0.004 * 1e3,
            0.0007 * 1e3,
            speedup,
            speedup / 4.0 * 100.0
        )
    );
    assert_eq!(
        heads_row(2, 4, &tn, &ts),
        format!(
            "{:>6}  {:>13.2}  {:>15.2}  {:>9.2}x  {:>11.0}%",
            2,
            0.004 * 1e3,
            0.0007 * 1e3,
            speedup,
            speedup / 2.0 * 100.0
        )
    );
    let p = point("simd", 128, true, &stats(0.001, 0.002, 8.0));
    assert_eq!(
        point_row(&p),
        format!(
            "{:<8} {:>6} {:>8} {:>12.2} {:>14.2}",
            "simd", 128, "causal", p.gflops.0, p.intensity.0
        )
    );
}

#[test]
fn the_sweep_names_the_fastest_tile() {
    let (sizes, kbs) = sweep_header();
    assert_eq!(
        sizes,
        "     n        B=16        B=32        B=64       B=128       B=256      best"
    );
    assert_eq!(
        kbs,
        "              8 KB       16 KB       32 KB       64 KB      128 KB"
    );
    let times: Vec<TimeStats<F64>> = [0.004, 0.003, 0.002, 0.0025, 0.0021]
        .iter()
        .map(|&t| stats(t, 0.0, 0.0))
        .collect();
    let flops = 4.0 * 512.0 * 512.0 * 64.0;
    let mut want = format!("{:>6}", 512);
    for t in &times {
        want.push_str(&format!("{:>12.2}", flops / t.best.0 / 1e9));
    }
    want.push_str(&format!("{:>10}", "B=64"));
    assert_eq!(sweep_row(512, &times), want);
}
