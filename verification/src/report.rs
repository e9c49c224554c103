//! The lines of the benchmark tables.
//!
//! Rows are text only; timing the kernels and printing happen outside.
use crate::flops::{attention_flops, flops_spec, gflops, gflops_spec};
use crate::mat::{abs_diff_max, max_abs_diff, Mat};
use crate::naive;
use crate::roofline::{is_kernel_output, Point, HEAD_DIM};
use crate::scalar::{ratio, ratio_spec, Lanes, Measure, Scalar};
use crate::score::attends;
use crate::simd;
use crate::simd::{select_spec, Cpu};
use crate::sweep::{best_index, best_index_spec, resident_kb, SIZES};
use crate::text::{cat, cat_spec, decimal, decimal_spec, left, left_spec, right, right_spec, views};
use crate::tiled;
use crate::timing::TimeStats;
use vstd::prelude::*;

verus! {

pub const THROUGHPUT_HEADER: &'static str =
    "     n      naive GF/s      tiled GF/s       simd GF/s  simd vs naive   simd spread";

pub const CAUSAL_HEADER: &'static str =
    "     n    kernel      full (ms)      causal (ms)     speedup";

pub const HEADS_HEADER: &'static str =
    " heads    serial (ms)    parallel (ms)     speedup      vs ideal";

pub const POINTS_HEADER: &'static str =
    "kernel        n     mask      GFLOP/s      FLOP/byte";

/// The kernels whose two masks the causal table compares: those that skip masked
/// blocks.
pub const SKIPPING_KERNELS: [&'static str; 2] = ["tiled", "simd"];

/// Sequence length of the multi-head table.
pub const HEADS_SEQ_LEN: usize = 512;

/// Head counts of the multi-head table. One head is the control: both columns
/// then run identical code.
pub const HEAD_COUNTS: [usize; 4] = [1, 2, 4, 8];

/// Timed runs of the multi-head table.
pub const HEADS_ITERS: usize = 10;

/// What the multi-head table says of itself where there is only one core: both
/// of its columns then run the serial loop.
pub const ONE_CORE_NOTE: &'static str =
    "\nOnly one core is available to this process, so there is nothing to\nparallelize across and the two columns below run identical code.\nIf you pinned with `taskset -c 0`, re-run this benchmark unpinned\n(or pin to a range, e.g. `taskset -c 0-7`) to measure head scaling.\nThe gap between the columns is then a useful read on the noise floor.";

/// The note above the multi-head table, where one is due.
pub fn one_core_note(cores: usize) -> (r: Option<&'static str>)
    ensures
        r is Some <==> cores < 2,
        r matches Some(note) ==> note@ == ONE_CORE_NOTE@,
{
    if cores < 2 {
        Some(ONE_CORE_NOTE)
    } else {
        None
    }
}

/// What a mask is called.
pub open spec fn mask_spec(causal: bool) -> Seq<char> {
    if causal {
        "causal"@
    } else {
        "full"@
    }
}

/// What a mask is called.
pub fn mask_name(causal: bool) -> (r: &'static str)
    ensures
        r@ == mask_spec(causal),
{
    if causal {
        "causal"
    } else {
        "full"
    }
}

/// A number, right-aligned.
pub open spec fn number_spec<S: Measure>(x: S, digits: nat, width: nat) -> Seq<char> {
    right_spec(x.fixed_spec(digits), width)
}

/// A number, right-aligned.
fn number<S: Measure>(x: S, digits: usize, width: usize) -> (r: String)
    ensures
        r@ == number_spec(x, digits as nat, width as nat),
{
    right(x.fixed(digits).as_str(), width)
}

/// An integer, right-aligned.
pub open spec fn count_spec(n: usize, width: nat) -> Seq<char> {
    right_spec(decimal_spec(n as nat), width)
}

/// An integer, right-aligned.
fn count(n: usize, width: usize) -> (r: String)
    ensures
        r@ == count_spec(n, width as nat),
{
    right(decimal(n as u64).as_str(), width)
}

/// The heading of a throughput table.
pub fn throughput_heading(causal: bool) -> (r: String)
    ensures
        r@ == cat_spec(
            seq![
                "=== "@,
                mask_spec(causal),
                " mask, head_dim d = "@,
                decimal_spec(HEAD_DIM as nat),
                " ==="@,
            ],
        ),
{
    let d = decimal(HEAD_DIM as u64);
    let pieces = vec!["=== ", mask_name(causal), " mask, head_dim d = ", d.as_str(), " ==="];
    assert(views(pieces@) =~= seq![
        "=== "@,
        mask_spec(causal),
        " mask, head_dim d = "@,
        decimal_spec(HEAD_DIM as nat),
        " ==="@,
    ]);
    cat(pieces)
}

/// One sequence length: the throughput of each kernel from its fastest run, how
/// much faster the vector kernel is than the baseline, and how far its timing
/// spread.
pub open spec fn throughput_row_spec<S: Measure>(
    n: usize,
    causal: bool,
    naive: TimeStats<S>,
    tiled: TimeStats<S>,
    simd: TimeStats<S>,
) -> Seq<char> {
    let flops = flops_spec::<S>(n, HEAD_DIM, causal);
    cat_spec(
        seq![
            count_spec(n, 6),
            "  "@,
            number_spec(gflops_spec(flops, naive.best), 2, 14),
            "  "@,
            number_spec(gflops_spec(flops, tiled.best), 2, 14),
            "  "@,
            number_spec(gflops_spec(flops, simd.best), 2, 14),
            "  "@,
            number_spec(naive.best.div_spec(simd.best), 2, 12),
            "x  "@,
            number_spec(simd.spread_pct, 1, 11),
            "%"@,
        ],
    )
}

/// A row of the throughput table.
pub fn throughput_row<S: Measure>(
    n: usize,
    causal: bool,
    naive: &TimeStats<S>,
    tiled: &TimeStats<S>,
    simd: &TimeStats<S>,
) -> (r: String)
    ensures
        r@ == throughput_row_spec(n, causal, *naive, *tiled, *simd),
{
    let flops = attention_flops::<S>(n, HEAD_DIM, causal);
    let len = count(n, 6);
    let a = number(gflops(flops, naive.best), 2, 14);
    let b = number(gflops(flops, tiled.best), 2, 14);
    let c = number(gflops(flops, simd.best), 2, 14);
    let ratio = number(naive.best.div(simd.best), 2, 12);
    let spread = number(simd.spread_pct, 1, 11);
    let pieces = vec![
        len.as_str(),
        "  ",
        a.as_str(),
        "  ",
        b.as_str(),
        "  ",
        c.as_str(),
        "  ",
        ratio.as_str(),
        "x  ",
        spread.as_str(),
        "%",
    ];
    assert(views(pieces@) =~= seq![
        len@,
        "  "@,
        a@,
        "  "@,
        b@,
        "  "@,
        c@,
        "  "@,
        ratio@,
        "x  "@,
        spread@,
        "%"@,
    ]);
    cat(pieces)
}

/// One kernel under both masks, by the stopwatch.
///
/// The throughput tables cannot show what skipping masked blocks is worth: they
/// divide by a causal-aware FLOP count, which normalizes the halved work back
/// out. The only way to see it is to put a stopwatch on the same kernel under
/// both masks and divide.
pub open spec fn causal_row_spec<S: Measure>(
    n: usize,
    kernel: Seq<char>,
    full: TimeStats<S>,
    causal: TimeStats<S>,
) -> Seq<char> {
    cat_spec(
        seq![
            count_spec(n, 6),
            "  "@,
            right_spec(kernel, 8),
            "  "@,
            number_spec(full.best.mul_spec(S::from_usize_spec(1000)), 3, 13),
            "  "@,
            number_spec(causal.best.mul_spec(S::from_usize_spec(1000)), 3, 15),
            "  "@,
            number_spec(full.best.div_spec(causal.best), 2, 9),
            "x"@,
        ],
    )
}

/// A row of the causal table.
pub fn causal_row<S: Measure>(
    n: usize,
    kernel: &str,
    full: &TimeStats<S>,
    causal: &TimeStats<S>,
) -> (r: String)
    ensures
        r@ == causal_row_spec(n, kernel@, *full, *causal),
{
    let len = count(n, 6);
    let name = right(kernel, 8);
    let a = number(full.best.mul(S::from_usize(1000)), 3, 13);
    let b = number(causal.best.mul(S::from_usize(1000)), 3, 15);
    let ratio = number(full.best.div(causal.best), 2, 9);
    let pieces = vec![
        len.as_str(),
        "  ",
        name.as_str(),
        "  ",
        a.as_str(),
        "  ",
        b.as_str(),
        "  ",
        ratio.as_str(),
        "x",
    ];
    assert(views(pieces@) =~= seq![
        len@,
        "  "@,
        name@,
        "  "@,
        a@,
        "  "@,
        b@,
        "  "@,
        ratio@,
        "x"@,
    ]);
    cat(pieces)
}

/// One head count: serial and parallel times, the speedup, and the fraction of
/// `min(heads, cores)` that it achieves.
pub open spec fn heads_row_spec<S: Measure>(
    heads: usize,
    cores: usize,
    serial: TimeStats<S>,
    parallel: TimeStats<S>,
) -> Seq<char> {
    let speedup = serial.best.div_spec(parallel.best);
    let ideal = S::from_usize_spec(
        if heads < cores {
            heads
        } else {
            cores
        },
    );
    cat_spec(
        seq![
            count_spec(heads, 6),
            "  "@,
            number_spec(serial.best.mul_spec(S::from_usize_spec(1000)), 2, 13),
            "  "@,
            number_spec(parallel.best.mul_spec(S::from_usize_spec(1000)), 2, 15),
            "  "@,
            number_spec(speedup, 2, 9),
            "x  "@,
            number_spec(
                speedup.div_spec(ideal).mul_spec(S::from_usize_spec(100)),
                0,
                11,
            ),
            "%"@,
        ],
    )
}

/// A row of the multi-head table.
pub fn heads_row<S: Measure>(
    heads: usize,
    cores: usize,
    serial: &TimeStats<S>,
    parallel: &TimeStats<S>,
) -> (r: String)
    ensures
        r@ == heads_row_spec(heads, cores, *serial, *parallel),
{
    let speedup = serial.best.div(parallel.best);
    let ideal = S::from_usize(
        if heads < cores {
            heads
        } else {
            cores
        },
    );
    let h = count(heads, 6);
    let a = number(serial.best.mul(S::from_usize(1000)), 2, 13);
    let b = number(parallel.best.mul(S::from_usize(1000)), 2, 15);
    let ratio = number(speedup, 2, 9);
    let share = number(speedup.div(ideal).mul(S::from_usize(100)), 0, 11);
    let pieces = vec![
        h.as_str(),
        "  ",
        a.as_str(),
        "  ",
        b.as_str(),
        "  ",
        ratio.as_str(),
        "x  ",
        share.as_str(),
        "%",
    ];
    assert(views(pieces@) =~= seq![
        h@,
        "  "@,
        a@,
        "  "@,
        b@,
        "  "@,
        ratio@,
        "x  "@,
        share@,
        "%"@,
    ]);
    cat(pieces)
}

/// One operating point.
pub open spec fn point_row_spec<S: Measure>(p: Point<S>) -> Seq<char> {
    cat_spec(
        seq![
            left_spec(p.kernel@, 8),
            " "@,
            count_spec(p.n, 6),
            " "@,
            right_spec(mask_spec(p.causal), 8),
            " "@,
            number_spec(p.gflops, 2, 12),
            " "@,
            number_spec(p.intensity, 2, 14),
        ],
    )
}

/// A row of the table of operating points.
pub fn point_row<S: Measure>(p: &Point<S>) -> (r: String)
    ensures
        r@ == point_row_spec(*p),
{
    let name = left(p.kernel, 8);
    let len = count(p.n, 6);
    let mask = right(mask_name(p.causal), 8);
    let a = number(p.gflops, 2, 12);
    let b = number(p.intensity, 2, 14);
    let pieces = vec![
        name.as_str(),
        " ",
        len.as_str(),
        " ",
        mask.as_str(),
        " ",
        a.as_str(),
        " ",
        b.as_str(),
    ];
    assert(views(pieces@) =~= seq![name@, " "@, len@, " "@, mask@, " "@, a@, " "@, b@]);
    cat(pieces)
}

/// The throughput at each tile size, and the size that was fastest.
pub open spec fn sweep_row_spec<S: Measure>(n: usize, figures: Seq<S>, best: int) -> Seq<char> {
    cat_spec(
        seq![
            count_spec(n, 6),
            number_spec(figures[0], 2, 12),
            number_spec(figures[1], 2, 12),
            number_spec(figures[2], 2, 12),
            number_spec(figures[3], 2, 12),
            number_spec(figures[4], 2, 12),
            right_spec("B="@ + decimal_spec(SIZES@[best] as nat), 10),
        ],
    )
}

/// A row of the tile-size table.
pub fn sweep_row<S: Measure>(n: usize, times: &[TimeStats<S>]) -> (r: String)
    requires
        times@.len() == 5,
    ensures
        r@ == sweep_row_spec(
            n,
            figures_spec(n, times@),
            best_index_spec(figures_spec(n, times@), 5),
        ),
{
    let flops = attention_flops::<S>(n, HEAD_DIM, false);
    let mut figures: Vec<S> = Vec::new();
    let mut i: usize = 0;
    while i < 5
        invariant
            i <= 5,
            times@.len() == 5,
            flops == flops_spec::<S>(n, HEAD_DIM, false),
            figures@ == figures_spec(n, times@).take(i as int),
        decreases 5 - i,
    {
        figures.push(gflops(flops, times[i].best));
        assert(figures@ =~= figures_spec(n, times@).take(i + 1));
        i += 1;
    }
    assert(figures@ =~= figures_spec(n, times@));
    let best = best_index(figures.as_slice());
    let len = count(n, 6);
    let f0 = number(figures[0], 2, 12);
    let f1 = number(figures[1], 2, 12);
    let f2 = number(figures[2], 2, 12);
    let f3 = number(figures[3], 2, 12);
    let f4 = number(figures[4], 2, 12);
    let size = decimal(SIZES[best] as u64);
    let label = right("B=".to_owned().concat(size.as_str()).as_str(), 10);
    let pieces = vec![
        len.as_str(),
        f0.as_str(),
        f1.as_str(),
        f2.as_str(),
        f3.as_str(),
        f4.as_str(),
        label.as_str(),
    ];
    assert(views(pieces@) =~= seq![len@, f0@, f1@, f2@, f3@, f4@, label@]);
    cat(pieces)
}

/// The throughput at each tile size.
pub open spec fn figures_spec<S: Measure>(n: usize, times: Seq<TimeStats<S>>) -> Seq<S> {
    Seq::new(
        times.len(),
        |i: int| gflops_spec(flops_spec::<S>(n, HEAD_DIM, false), times[i].best),
    )
}

/// The column headings of the tile-size table: the sizes, and under each the KB
/// of K and V that it keeps resident.
pub fn sweep_header() -> (r: (String, String))
    ensures
        r.0@ == cat_spec(
            seq![
                "     n"@,
                size_label_spec(0),
                size_label_spec(1),
                size_label_spec(2),
                size_label_spec(3),
                size_label_spec(4),
                "      best"@,
            ],
        ),
        r.1@ == cat_spec(
            seq![
                "      "@,
                kb_label_spec(0),
                kb_label_spec(1),
                kb_label_spec(2),
                kb_label_spec(3),
                kb_label_spec(4),
            ],
        ),
{
    let s0 = size_label(0);
    let s1 = size_label(1);
    let s2 = size_label(2);
    let s3 = size_label(3);
    let s4 = size_label(4);
    let sizes = vec![
        "     n",
        s0.as_str(),
        s1.as_str(),
        s2.as_str(),
        s3.as_str(),
        s4.as_str(),
        "      best",
    ];
    assert(views(sizes@) =~= seq!["     n"@, s0@, s1@, s2@, s3@, s4@, "      best"@]);
    let k0 = kb_label(0);
    let k1 = kb_label(1);
    let k2 = kb_label(2);
    let k3 = kb_label(3);
    let k4 = kb_label(4);
    let kbs = vec![
        "      ",
        k0.as_str(),
        k1.as_str(),
        k2.as_str(),
        k3.as_str(),
        k4.as_str(),
    ];
    assert(views(kbs@) =~= seq!["      "@, k0@, k1@, k2@, k3@, k4@]);
    (cat(sizes), cat(kbs))
}

/// The heading of one tile size.
pub open spec fn size_label_spec(i: int) -> Seq<char> {
    right_spec("B="@ + decimal_spec(SIZES@[i] as nat), 12)
}

/// The resident KB of one tile size.
pub open spec fn kb_label_spec(i: int) -> Seq<char> {
    right_spec(
        decimal_spec((2 * SIZES@[i] * HEAD_DIM * 4 / 1024) as nat) + " KB"@,
        12,
    )
}

fn size_label(i: usize) -> (r: String)
    requires
        i < 5,
    ensures
        r@ == size_label_spec(i as int),
{
    let size = decimal(SIZES[i] as u64);
    right("B=".to_owned().concat(size.as_str()).as_str(), 12)
}

fn kb_label(i: usize) -> (r: String)
    requires
        i < 5,
    ensures
        r@ == kb_label_spec(i as int),
{
    assert(SIZES@[i as int] <= 256);
    let kb = decimal(resident_kb(SIZES[i], HEAD_DIM) as u64);
    right(kb.concat(" KB").as_str(), 12)
}

/// Whether the tiled and the vector kernel both stay close to the baseline:
/// within 1e-4 and 2e-3.
pub fn kernels_agree<S: Lanes>(
    q: &Mat<S>,
    k: &Mat<S>,
    v: &Mat<S>,
    causal: bool,
    cpu: Cpu,
) -> (r: bool)
    requires
        attends(*q, *k, *v),
        q.rows * q.rows <= usize::MAX,
    ensures
        exists|a: Mat<S>, b: Mat<S>, c: Mat<S>|
            {
                &&& #[trigger] is_kernel_output(a, "naive"@, select_spec(cpu), *q, *k, *v, causal)
                &&& #[trigger] is_kernel_output(b, "tiled"@, select_spec(cpu), *q, *k, *v, causal)
                &&& #[trigger] is_kernel_output(c, "simd"@, select_spec(cpu), *q, *k, *v, causal)
                &&& r == (ratio_spec::<S>(1, 10000).greater_than_spec(
                    abs_diff_max(a.data@, b.data@, (q.rows * q.cols) as nat),
                ) && ratio_spec::<S>(2, 1000).greater_than_spec(
                    abs_diff_max(a.data@, c.data@, (q.rows * q.cols) as nat),
                ))
            },
{
    proof {
        reveal_strlit("naive");
        reveal_strlit("tiled");
        reveal_strlit("simd");
    }
    let a = naive::attention(q, k, v, causal);
    let b = tiled::attention(q, k, v, causal);
    let c = simd::attention(q, k, v, causal, cpu);
    assert("tiled"@[0] != "naive"@[0]);
    assert("simd"@[0] != "naive"@[0] && "simd"@[0] != "tiled"@[0]);
    assert(is_kernel_output(a, "naive"@, select_spec(cpu), *q, *k, *v, causal));
    assert(is_kernel_output(b, "tiled"@, select_spec(cpu), *q, *k, *v, causal));
    assert(is_kernel_output(c, "simd"@, select_spec(cpu), *q, *k, *v, causal));
    let tiled_off = max_abs_diff(&a, &b);
    let simd_off = max_abs_diff(&a, &c);
    within(tiled_off, 1, 10000) && within(simd_off, 2, 1000)
}

/// Whether a difference is below `num / den`.
pub fn within<S: Scalar>(diff: S, num: usize, den: usize) -> (r: bool)
    ensures
        r == ratio_spec::<S>(num, den).greater_than_spec(diff),
{
    ratio::<S>(num, den).greater_than(diff)
}

} // verus!
