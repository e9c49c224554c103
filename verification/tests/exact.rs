use flash_attn::naive;
use flash_attn::ring::Ring64;
use flash_attn::roofline::probe::{bandwidth, fma_chain, summarize, triad, Probe, REPEATS};
use flash_attn::roofline::{bytes_moved, from_json, to_json, Machine, Point};
use flash_attn::scalar::{Exact, Lanes, Measure, Scalar};
use flash_attn::simd::{attention_avx2, dot4_avx2, dot_avx2};
use flash_attn::sweep::best_index;
use flash_attn::text::{decimal, left, parse_decimal, right};
use flash_attn::tiled::{self, attention_b};
use flash_attn::timing::{iters_for, median, ranks, seconds, Ranks, Schedule, WARM_UPS};
use flash_attn::{attention_flops, avx512, max_abs_diff, Mat};

fn whole(n: u64) -> Ring64 {
    Ring64::Int(n)
}

fn wholes(values: &[u64]) -> Vec<Ring64> {
    values.iter().map(|&n| whole(n)).collect()
}

/// Small whole numbers in no particular order.
fn scattered(rows: usize, cols: usize, seed: u64) -> Mat<Ring64> {
    let data = (0..rows * cols)
        .map(|i| whole((i as u64 * 7919 + seed * 104729) % 1009))
        .collect();
    Mat { rows, cols, data }
}

/// The running softmax is exact, not approximate: with exact arithmetic the
/// tiled kernel gives the same words as the baseline, whatever the tile size.
#[test]
fn tiling_changes_no_word() {
    for causal in [false, true] {
        for (n, d) in [(1, 1), (2, 3), (5, 4), (33, 8), (65, 4), (130, 2)] {
            let q = scattered(n, d, 1);
            let k = scattered(n, d, 2);
            let v = scattered(n, d, 3);
            let want = naive::attention(&q, &k, &v, causal).data;
            assert_eq!(tiled::attention(&q, &k, &v, causal).data, want);
            assert_eq!(attention_b::<Ring64, 1>(&q, &k, &v, causal).data, want);
            assert_eq!(attention_b::<Ring64, 2>(&q, &k, &v, causal).data, want);
            assert_eq!(attention_b::<Ring64, 17>(&q, &k, &v, causal).data, want);
            assert_eq!(attention_b::<Ring64, 999>(&q, &k, &v, causal).data, want);
        }
    }
}

/// A row with fewer keys than a vector has lanes never meets the vectorized
/// exponential, so there the vector kernels give the baseline's words too.
#[test]
fn short_rows_change_no_word_in_lanes() {
    for causal in [false, true] {
        for n in [1usize, 2, 7, 8, 15] {
            let q = scattered(n, 4, 1);
            let k = scattered(n, 4, 2);
            let v = scattered(n, 4, 3);
            let want = naive::attention(&q, &k, &v, causal);
            let eight = attention_avx2(&q, &k, &v, causal);
            let sixteen = avx512::attention(&q, &k, &v, causal);
            for i in 0..n {
                let keys = if causal { i + 1 } else { n };
                if keys < 8 {
                    assert_eq!(eight.row(i), want.row(i));
                }
                assert_eq!(sixteen.row(i), want.row(i));
            }
        }
    }
}

/// Permuting keys and values together changes nothing without a mask.
#[test]
fn key_order_changes_no_word() {
    let n = 11;
    let q = scattered(n, 3, 1);
    let k = scattered(n, 3, 2);
    let v = scattered(n, 3, 3);
    let mut moved_k = Mat::<Ring64>::zeros(n, 3);
    let mut moved_v = Mat::<Ring64>::zeros(n, 3);
    for j in 0..n {
        let from = (j * 4 + 5) % n;
        moved_k.row_mut(j).copy_from_slice(k.row(from));
        moved_v.row_mut(j).copy_from_slice(v.row(from));
    }
    let want = naive::attention(&q, &k, &v, false).data;
    assert_eq!(naive::attention(&q, &moved_k, &moved_v, false).data, want);
    assert_eq!(attention_b::<Ring64, 4>(&q, &moved_k, &moved_v, false).data, want);
    let want = avx512::attention(&q, &k, &v, false).data;
    assert_eq!(avx512::attention(&q, &moved_k, &moved_v, false).data, want);
}

/// A causal row is a row of the problem cut off after it, in the baseline too.
#[test]
fn causal_rows_are_rows_of_the_cut() {
    let n = 9;
    let q = scattered(n, 3, 1);
    let k = scattered(n, 3, 2);
    let v = scattered(n, 3, 3);
    let masked = naive::attention(&q, &k, &v, true);
    for i in 0..n {
        let cut = |m: &Mat<Ring64>| Mat {
            rows: i + 1,
            cols: 3,
            data: m.data[..(i + 1) * 3].to_vec(),
        };
        let alone = naive::attention(&cut(&q), &cut(&k), &cut(&v), false);
        assert_eq!(masked.row(i), alone.row(i));
    }
}

/// The first causal query has one key: its output is the first value.
#[test]
fn the_first_causal_row_is_the_first_value() {
    let n = 20;
    let q = scattered(n, 5, 1);
    let k = scattered(n, 5, 2);
    let v = scattered(n, 5, 3);
    assert_eq!(naive::attention(&q, &k, &v, true).row(0), v.row(0));
    assert_eq!(tiled::attention(&q, &k, &v, true).row(0), v.row(0));
    assert_eq!(attention_avx2(&q, &k, &v, true).row(0), v.row(0));
    assert_eq!(avx512::attention(&q, &k, &v, true).row(0), v.row(0));
}

/// The largest difference is a distance: nothing between equals, and the same
/// both ways.
#[test]
fn the_largest_difference_is_a_distance() {
    let row = |values: &[u64]| Mat {
        rows: 1,
        cols: values.len(),
        data: wholes(values),
    };
    let a = row(&[10, 2, 30]);
    let b = row(&[7, 8, 30]);
    assert_eq!(max_abs_diff(&a, &b), whole(6));
    assert_eq!(max_abs_diff(&b, &a), whole(6));
    assert_eq!(max_abs_diff(&a, &a), whole(0));
    assert_eq!(max_abs_diff(&row(&[]), &row(&[])), whole(0));
    // Around the end of the ring the shorter way counts.
    assert_eq!(whole(u64::MAX).abs(), whole(1));
    assert_eq!(whole(1).abs(), whole(1));
    assert_eq!(whole(1 << 63).abs(), whole(1 << 63));
}

/// The weights of a row sum to one, so values that are all one stay one. An odd
/// number of keys makes the normalizer odd, and so invertible.
#[test]
fn weights_add_up_to_one() {
    for n in [1usize, 3, 7, 65] {
        let q = scattered(n, 4, 5);
        let k = scattered(n, 4, 6);
        let v = Mat {
            rows: n,
            cols: 4,
            data: wholes(&vec![1; 4 * n]),
        };
        assert_eq!(naive::attention(&q, &k, &v, false).data, v.data);
        assert_eq!(tiled::attention(&q, &k, &v, false).data, v.data);
    }
}

/// Whatever is subtracted from every score, the weights stay the same: shifting
/// all keys along the query moves every score alike.
#[test]
fn shifted_scores_give_the_same_weights() {
    let q = Mat {
        rows: 3,
        cols: 1,
        data: wholes(&[1, 1, 1]),
    };
    let near = Mat {
        rows: 3,
        cols: 1,
        data: wholes(&[4, 9, 2]),
    };
    let far = Mat {
        rows: 3,
        cols: 1,
        data: wholes(&[1004, 1009, 1002]),
    };
    let v = scattered(3, 1, 7);
    assert_eq!(
        naive::attention(&q, &near, &v, false).data,
        naive::attention(&q, &far, &v, false).data
    );
}

/// In exact arithmetic all the dot products agree.
#[test]
fn dots_agree_exactly() {
    for len in [1usize, 7, 8, 9, 16, 33, 64] {
        let m = scattered(5, len, 4);
        let a = m.row(0);
        let four = dot4_avx2(a, m.row(1), m.row(2), m.row(3), m.row(4));
        for (lane, got) in four.iter().enumerate() {
            assert_eq!(*got, dot_avx2(a, m.row(lane + 1)));
            assert_eq!(*got, avx512::dot_avx512(a, m.row(lane + 1)));
        }
    }
}

#[test]
fn the_ring_wraps() {
    assert_eq!(whole(u64::MAX).add(whole(2)), whole(1));
    assert_eq!(whole(1).sub(whole(2)), whole(u64::MAX));
    assert_eq!(whole(1 << 32).mul(whole(1 << 32)), whole(0));
    assert_eq!(whole(5).mul_add(whole(6), whole(7)), whole(37));
    assert_eq!(whole(99).sqrt(), whole(9));
    assert_eq!(whole(100).sqrt(), whole(10));
    assert_eq!(whole(u64::MAX).sqrt(), whole((1 << 32) - 1));
    assert_eq!(Ring64::neg_infinity().add(whole(1)), Ring64::NegInfinity);
    assert!(whole(0).greater_than(Ring64::NegInfinity));
    assert!(!Ring64::NegInfinity.is_finite());
    assert_eq!(whole(3).max(whole(8)), whole(8));
    assert_eq!(whole(3).min(whole(8)), whole(3));
    assert_eq!(Ring64::ln_2().add(Ring64::ln_2().neg()), whole(0));
}

/// `exp(x) * exp(y) = exp(x + y)`.
#[test]
fn the_ring_has_an_exponential() {
    for (x, y) in [(0u64, 0u64), (1, 2), (12345, 678910), (u64::MAX, 5)] {
        let both = whole(x).exp().mul(whole(y).exp());
        assert_eq!(both, whole(x).add(whole(y)).exp());
    }
    assert_eq!(whole(0).exp(), whole(1));
    assert_eq!(whole(3).exp(), whole(1 + (3 << 32)));
}

/// Dividing by an odd number undoes multiplying with it.
#[test]
fn odd_numbers_divide() {
    for b in [1u64, 3, 5, 7, 12345, u64::MAX, (1 << 40) + 1] {
        assert_eq!(whole(1).div(whole(b)).mul(whole(b)), whole(1));
        assert_eq!(whole(42).mul(whole(b)).div(whole(b)), whole(42));
    }
}

/// Whole quotients come out whole, also of even numbers, which have no inverse.
#[test]
fn whole_quotients_are_exact() {
    assert_eq!(whole(90).div(whole(2)), whole(45));
    assert_eq!(whole(1 << 63).div(whole(64)), whole(1 << 57));
    assert_eq!(whole(0).div(whole(6)), whole(0));
    assert_eq!(whole(35).div(whole(7)), whole(5));
    // Not a whole quotient: what seven times it comes to is still 36.
    assert_eq!(whole(36).div(whole(7)).mul(whole(7)), whole(36));
    for n in [1usize, 2, 5, 64] {
        let full = attention_flops::<Ring64>(n, 8, false);
        let causal = attention_flops::<Ring64>(n, 8, true);
        assert_eq!(full, whole((4 * n * n * 8) as u64));
        assert_eq!(causal, whole((2 * n * (n + 1) * 8) as u64));
        assert_eq!(whole(2 * n as u64).mul(causal), whole(n as u64 + 1).mul(full));
        assert_eq!(causal == full, n == 1);
    }
    assert_eq!(bytes_moved::<Ring64>("tiled", 128, 64, false), whole(196608));
    assert_eq!(bytes_moved::<Ring64>("tiled", 128, 64, true), whole(163840));
}

fn finite<S: Exact>(x: S) -> bool {
    x.is_finite()
}

#[test]
fn the_ring_is_exact() {
    assert!(finite(whole(7)));
    assert!(whole(1000).equals(whole(1000)));
    assert_eq!(whole(999).log10(), whole(2));
    assert_eq!(whole(1000).log10(), whole(3));
    assert_eq!(whole(4).pow10(), whole(10000));
    assert_eq!(whole(17).floor(), whole(17));
    assert_eq!(whole(17).ceil(), whole(17));
}

#[test]
fn numbers_are_written_and_read() {
    assert_eq!(decimal(0), "0");
    assert_eq!(decimal(907), "907");
    assert_eq!(decimal(u64::MAX), "18446744073709551615");
    assert_eq!(parse_decimal("907"), Some(907));
    assert_eq!(parse_decimal("18446744073709551615"), Some(u64::MAX));
    assert_eq!(parse_decimal("18446744073709551616"), None);
    assert_eq!(parse_decimal(""), None);
    assert_eq!(parse_decimal("12a"), None);
    assert_eq!(parse_decimal("-1"), None);
    assert_eq!(whole(12).fixed(0), "12");
    assert_eq!(whole(12).fixed(3), "12.000");
    assert_eq!(Ring64::NegInfinity.fixed(2), "-inf");
    for x in [whole(0), whole(12), whole(u64::MAX), Ring64::NegInfinity] {
        assert_eq!(Ring64::parse(&x.fixed(4)), Some(x));
    }
    assert_eq!(Ring64::parse("x"), None);
}

#[test]
fn columns_are_padded() {
    assert_eq!(right("ab", 5), "   ab");
    assert_eq!(left("ab", 5), "ab   ");
    assert_eq!(right("abcdef", 5), "abcdef");
    assert_eq!(left("·", 3), "·  ");
}

#[test]
fn order_statistics_of_timings() {
    let samples = vec![50, 10, 40, 30, 20];
    assert_eq!(
        ranks(samples.clone()),
        Ranks {
            best: 10,
            first_quartile: 20,
            median: 30,
            third_quartile: 40,
        }
    );
    assert_eq!(median(samples), 30);
    // With an even count the upper of the two middle runs.
    assert_eq!(median(vec![4, 1, 3, 2]), 3);
    assert_eq!(median(vec![9]), 9);
    assert_eq!(median(vec![5, 5, 1, 5]), 5);
}

#[test]
fn seconds_and_nanoseconds() {
    assert_eq!(seconds::<Ring64>(3_000_000_000), whole(3));
    assert_eq!(iters_for(128), 50);
    assert_eq!(iters_for(256), 50);
    assert_eq!(iters_for(257), 15);
}

/// Round-robin, with the starting job rotating; warm-up rounds leave no timing.
#[test]
fn jobs_are_interleaved() {
    let (jobs, iters) = (3, 4);
    let mut schedule = Schedule::new(jobs, iters);
    let mut order = Vec::new();
    let mut clock = 0;
    while let Some(job) = schedule.next() {
        order.push(job);
        schedule.record(clock);
        clock += 1;
    }
    assert_eq!(order.len(), jobs * (WARM_UPS + iters));
    assert_eq!(&order[0..9], &[0, 1, 2, 1, 2, 0, 2, 0, 1]);
    for round in order.chunks(jobs) {
        let mut seen = round.to_vec();
        seen.sort();
        assert_eq!(seen, vec![0, 1, 2]);
    }
    let samples = schedule.into_samples();
    // The first timed round is number three and starts with job 0 again.
    assert_eq!(samples[0], vec![9, 14, 16, 18]);
    assert_eq!(samples[1], vec![10, 12, 17, 19]);
    assert_eq!(samples[2], vec![11, 13, 15, 20]);
}

#[test]
fn one_job_runs_alone() {
    let mut schedule = Schedule::new(1, 2);
    for nanos in [1, 2, 3, 40, 50] {
        assert_eq!(schedule.next(), Some(0));
        schedule.record(nanos);
    }
    assert_eq!(schedule.next(), None);
    assert_eq!(schedule.into_samples(), vec![vec![40, 50]]);
}

/// Without a timed round the warm-up rounds still run, and leave nothing.
#[test]
fn warm_ups_run_without_timed_rounds() {
    let mut schedule = Schedule::new(2, 0);
    let mut runs = 0;
    while schedule.next().is_some() {
        schedule.record(1);
        runs += 1;
    }
    assert_eq!(runs, 2 * WARM_UPS);
    assert_eq!(schedule.into_samples(), vec![vec![], vec![]]);
}

#[test]
fn chains_and_triads_compute() {
    let mut acc = wholes(&[1, 2, 3]);
    fma_chain(&mut acc, 0);
    assert_eq!(acc, wholes(&[1, 2, 3]));

    let mut a = wholes(&[7, 7, 7, 7]);
    triad(&mut a, &wholes(&[1, 2, 3]), &wholes(&[10, 20, 30, 40]), whole(2));
    // As far as all three reach.
    assert_eq!(a, wholes(&[21, 42, 63, 7]));
}

#[test]
fn samples_are_summarized() {
    // The best, and nothing for the spread of a best that is not positive.
    assert_eq!(summarize(&wholes(&[])), (whole(0), whole(0)));
    assert_eq!(summarize(&wholes(&[5, 5])), (whole(5), whole(0)));
    assert_eq!(bandwidth::<Ring64>(8, &[]), (whole(0), whole(0)));
    let mut probe = Probe::<Ring64>::portable();
    assert_eq!(probe.batches(), 4096);
    for _ in 1..REPEATS {
        assert_eq!(probe.record(Ring64::max_value()), None);
    }
    assert!(probe.record(Ring64::max_value()).is_some());
}

#[test]
fn the_last_maximum_wins() {
    assert_eq!(best_index(&wholes(&[2, 9, 9, 4])), 2);
}

/// A dataset reads back as it was written.
#[test]
fn datasets_read_back() {
    let m = Machine {
        arch: "x86_64".to_string(),
        isa: "AVX2 + FMA".to_string(),
        peak_gflops: whole(77),
        bandwidth_gbs: whole(15),
        peak_spread_pct: whole(2),
        bandwidth_spread_pct: whole(13),
    };
    for count in 0..3 {
        let mut pts = Vec::new();
        for i in 0..count {
            pts.push(Point {
                kernel: ["naive", "tiled", "simd"][i],
                n: 128 << i,
                causal: i == 1,
                gflops: whole(i as u64 + 3),
                intensity: whole(20),
                median_secs: whole(1),
                spread_pct: whole(8),
            });
        }
        let text = to_json(&m, &pts);
        let (m2, pts2) = from_json::<Ring64>(&text).unwrap();
        assert_eq!(to_json(&m2, &pts2), text);
        assert_eq!(m2.peak_gflops, whole(77));
        assert_eq!(pts2.len(), count);
        for (a, b) in pts.iter().zip(&pts2) {
            assert_eq!((a.kernel, a.n, a.causal), (b.kernel, b.n, b.causal));
            assert_eq!(a.gflops, b.gflops);
        }
    }
}
