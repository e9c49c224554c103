//! What the figures in the tables stand for.
use crate::laws::costs::{flop_count, lemma_unmasked};
use crate::laws::grammar::lemma_decimal;
use crate::laws::model::{counts_to, flops_count_live_pairs, of};
use crate::laws::softmax::invertible;
use crate::laws::terms::{billion, splits, unmasked};
use crate::multihead::{chunk_len, head_chunks, workers};
use crate::report::{
    causal_row, figures_spec, heads_row, one_core_note, point_row, sweep_header, sweep_row,
    throughput_heading, throughput_row, within,
};
use crate::roofline::Point;
use crate::scalar::{Exact, Measure};
use crate::sweep::{best_index, best_index_is_the_last_maximum, best_index_spec, resident_kb};
use crate::text::{
    cat_spec, decimal, decimal_reads_back, decimal_spec, is_digit, left, left_spec, parse_decimal,
    right, right_spec, value_spec,
};
use crate::timing::TimeStats;
use vstd::prelude::*;

verus! {

/// `s` at the right end of `width` columns, or longer than them: blanks, then `s`.
pub open spec fn at_right(cell: Seq<char>, s: Seq<char>, width: nat) -> bool {
    &&& cell.len() == if s.len() < width {
        width
    } else {
        s.len()
    }
    &&& cell.skip(cell.len() - s.len()) == s
    &&& forall|i: int| 0 <= i < cell.len() - s.len() ==> #[trigger] cell[i] == ' '
}

/// `s` at the left end of `width` columns, or longer than them: `s`, then blanks.
pub open spec fn at_left(cell: Seq<char>, s: Seq<char>, width: nat) -> bool {
    &&& cell.len() == if s.len() < width {
        width
    } else {
        s.len()
    }
    &&& cell.take(s.len() as int) == s
    &&& forall|i: int| s.len() <= i < cell.len() ==> #[trigger] cell[i] == ' '
}

/// Aligning pads with blanks on the other side and changes nothing else.
pub proof fn columns_are_aligned(s: &str, width: usize, a: String, b: String)
    requires
        call_ensures(right, (s, width), a),
        call_ensures(left, (s, width), b),
    ensures
        at_right(a@, s@, width as nat),
        at_left(b@, s@, width as nat),
{
    lemma_right(s@, width as nat);
    assert(b@.take(s@.len() as int) =~= s@);
}

proof fn lemma_right(s: Seq<char>, width: nat)
    ensures
        at_right(right_spec(s, width), s, width),
{
    let cell = right_spec(s, width);
    assert(cell.skip(cell.len() - s.len()) =~= s);
}

proof fn lemma_left(s: Seq<char>, width: nat)
    ensures
        at_left(left_spec(s, width), s, width),
{
    let cell = left_spec(s, width);
    assert(cell.take(s.len() as int) =~= s);
}

/// The cells of a row, as wide as their columns, hold these texts at their right
/// ends.
pub open spec fn cells_hold(
    cells: Seq<Seq<char>>,
    texts: Seq<Seq<char>>,
    widths: Seq<nat>,
) -> bool {
    &&& cells.len() == texts.len() == widths.len()
    &&& forall|i: int| 0 <= i < cells.len() ==> at_right(#[trigger] cells[i], texts[i], widths[i])
}

/// A row of the throughput table that shows these figures.
pub open spec fn shows_throughput<S: Measure>(
    row: Seq<char>,
    cells: Seq<Seq<char>>,
    n: usize,
    a: S,
    b: S,
    c: S,
    ratio: S,
    spread: S,
) -> bool {
    &&& cells_hold(
        cells,
        seq![
            decimal_spec(n as nat),
            a.fixed_spec(2),
            b.fixed_spec(2),
            c.fixed_spec(2),
            ratio.fixed_spec(2),
            spread.fixed_spec(1),
        ],
        seq![6nat, 14, 14, 14, 12, 11],
    )
    &&& row == cat_spec(
        seq![
            cells[0],
            "  "@,
            cells[1],
            "  "@,
            cells[2],
            "  "@,
            cells[3],
            "  "@,
            cells[4],
            "x  "@,
            cells[5],
            "%"@,
        ],
    )
}

/// Each throughput in a row, times the kernel's best time, is four FLOPs for each
/// of 64 dimensions of every pair that the row's own mask leaves. The ratio times
/// the vector kernel's best time is the baseline's.
pub proof fn throughput_rows_count_their_own_mask<S: Measure>(
    n: usize,
    causal: bool,
    naive: &TimeStats<S>,
    tiled: &TimeStats<S>,
    simd: &TimeStats<S>,
    row: String,
    work: S,
    limit: int,
)
    requires
        call_ensures(throughput_row::<S>, (n, causal, naive, tiled, simd), row),
        counts_to::<S>(limit),
        (n + 1) * (n + 1) <= limit,
        4 * unmasked(n as int, causal) <= limit,
        flop_count(n as int, 64, causal) <= limit,
        work == of::<S>(flop_count(n as int, 64, causal)),
        splits(work, naive.best),
        splits(work.div_spec(naive.best), billion()),
        splits(work, tiled.best),
        splits(work.div_spec(tiled.best), billion()),
        splits(work, simd.best),
        splits(work.div_spec(simd.best), billion()),
        splits(naive.best, simd.best),
    ensures
        exists|cells: Seq<Seq<char>>, a: S, b: S, c: S, ratio: S|
            {
                &&& #[trigger] shows_throughput(
                    row@,
                    cells,
                    n,
                    a,
                    b,
                    c,
                    ratio,
                    simd.spread_pct,
                )
                &&& a.mul_spec(billion()).mul_spec(naive.best) == work
                &&& b.mul_spec(billion()).mul_spec(tiled.best) == work
                &&& c.mul_spec(billion()).mul_spec(simd.best) == work
                &&& ratio.mul_spec(simd.best) == naive.best
            },
{
    lemma_unmasked(n as nat, causal);
    flops_count_live_pairs::<S>(n, 64, causal, limit);
    let a = work.div_spec(naive.best).div_spec(billion());
    let b = work.div_spec(tiled.best).div_spec(billion());
    let c = work.div_spec(simd.best).div_spec(billion());
    let ratio = naive.best.div_spec(simd.best);
    let texts = seq![
        decimal_spec(n as nat),
        a.fixed_spec(2),
        b.fixed_spec(2),
        c.fixed_spec(2),
        ratio.fixed_spec(2),
        simd.spread_pct.fixed_spec(1),
    ];
    let widths = seq![6nat, 14, 14, 14, 12, 11];
    let cells = lemma_cells(texts, widths);
    assert(shows_throughput(row@, cells, n, a, b, c, ratio, simd.spread_pct));
}

/// The cells of texts that are aligned at the right.
proof fn lemma_cells(texts: Seq<Seq<char>>, widths: Seq<nat>) -> (cells: Seq<Seq<char>>)
    requires
        texts.len() == widths.len(),
    ensures
        cells_hold(cells, texts, widths),
        forall|i: int|
            0 <= i < texts.len() ==> #[trigger] cells[i] == right_spec(
                texts[i],
                widths[i],
            ),
{
    let cells = Seq::new(texts.len(), |i: int| right_spec(texts[i], widths[i]));
    assert forall|i: int| 0 <= i < cells.len() implies at_right(
        #[trigger] cells[i],
        texts[i],
        widths[i],
    ) by {
        lemma_right(texts[i], widths[i]);
    }
    cells
}

/// A row of the causal table that shows these figures.
pub open spec fn shows_speedup<S: Measure>(
    row: Seq<char>,
    cells: Seq<Seq<char>>,
    n: usize,
    kernel: Seq<char>,
    full_ms: S,
    causal_ms: S,
    ratio: S,
) -> bool {
    &&& cells_hold(
        cells,
        seq![
            decimal_spec(n as nat),
            kernel,
            full_ms.fixed_spec(3),
            causal_ms.fixed_spec(3),
            ratio.fixed_spec(2),
        ],
        seq![6nat, 8, 13, 15, 9],
    )
    &&& row == cat_spec(
        seq![
            cells[0],
            "  "@,
            cells[1],
            "  "@,
            cells[2],
            "  "@,
            cells[3],
            "  "@,
            cells[4],
            "x"@,
        ],
    )
}

/// A row of the causal table shows the best time under each mask in thousandths,
/// and how many times the causal one goes into the full one.
pub proof fn causal_rows_divide_full_by_causal<S: Measure>(
    n: usize,
    kernel: &str,
    full: &TimeStats<S>,
    causal: &TimeStats<S>,
    row: String,
)
    requires
        call_ensures(causal_row::<S>, (n, kernel, full, causal), row),
        splits(full.best, causal.best),
    ensures
        exists|cells: Seq<Seq<char>>, ratio: S|
            {
                &&& #[trigger] shows_speedup(
                    row@,
                    cells,
                    n,
                    kernel@,
                    full.best.mul_spec(of(1000)),
                    causal.best.mul_spec(of(1000)),
                    ratio,
                )
                &&& ratio.mul_spec(causal.best) == full.best
            },
{
    let ratio = full.best.div_spec(causal.best);
    let (a, b) = (full.best.mul_spec(of(1000)), causal.best.mul_spec(of(1000)));
    let texts = seq![
        decimal_spec(n as nat),
        kernel@,
        a.fixed_spec(3),
        b.fixed_spec(3),
        ratio.fixed_spec(2),
    ];
    let widths = seq![6nat, 8, 13, 15, 9];
    let cells = lemma_cells(texts, widths);
    assert(shows_speedup(row@, cells, n, kernel@, a, b, ratio));
}

/// A row of the multi-head table that shows these figures.
pub open spec fn shows_scaling<S: Measure>(
    row: Seq<char>,
    cells: Seq<Seq<char>>,
    heads: usize,
    serial_ms: S,
    parallel_ms: S,
    ratio: S,
    share: S,
) -> bool {
    &&& cells_hold(
        cells,
        seq![
            decimal_spec(heads as nat),
            serial_ms.fixed_spec(2),
            parallel_ms.fixed_spec(2),
            ratio.fixed_spec(2),
            share.fixed_spec(0),
        ],
        seq![6nat, 13, 15, 9, 11],
    )
    &&& row == cat_spec(
        seq![
            cells[0],
            "  "@,
            cells[1],
            "  "@,
            cells[2],
            "  "@,
            cells[3],
            "x  "@,
            cells[4],
            "%"@,
        ],
    )
}

/// A row of the multi-head table shows both best times in thousandths, how many
/// times the parallel one goes into the serial one, and what percentage that is of
/// the most that so many heads on so many cores can gain: the smaller of the two.
pub proof fn heads_rows_compare_with_the_ideal<S: Exact + Measure>(
    heads: usize,
    cores: usize,
    serial: &TimeStats<S>,
    parallel: &TimeStats<S>,
    row: String,
    ideal: S,
)
    requires
        call_ensures(heads_row::<S>, (heads, cores, serial, parallel), row),
        heads <= cores ==> ideal == of::<S>(heads as int),
        cores <= heads ==> ideal == of::<S>(cores as int),
        splits(serial.best, parallel.best),
        splits(serial.best.div_spec(parallel.best), ideal),
        serial.best.div_spec(parallel.best).div_spec(ideal).is_finite_spec(),
        ideal.is_finite_spec(),
        of::<S>(100).is_finite_spec(),
    ensures
        exists|cells: Seq<Seq<char>>, ratio: S, share: S|
            {
                &&& #[trigger] shows_scaling(
                    row@,
                    cells,
                    heads,
                    serial.best.mul_spec(of(1000)),
                    parallel.best.mul_spec(of(1000)),
                    ratio,
                    share,
                )
                &&& ratio.mul_spec(parallel.best) == serial.best
                &&& share.mul_spec(ideal) == ratio.mul_spec(of(100))
            },
{
    let ratio = serial.best.div_spec(parallel.best);
    let part = ratio.div_spec(ideal);
    let share = part.mul_spec(of(100));
    // (part * 100) * ideal = (part * ideal) * 100
    let hundred = of::<S>(100);
    S::mul_associates(part, hundred, ideal);
    S::mul_commutes(hundred, ideal);
    S::mul_associates(part, ideal, hundred);
    let (a, b) = (serial.best.mul_spec(of(1000)), parallel.best.mul_spec(of(1000)));
    let texts = seq![
        decimal_spec(heads as nat),
        a.fixed_spec(2),
        b.fixed_spec(2),
        ratio.fixed_spec(2),
        share.fixed_spec(0),
    ];
    let widths = seq![6nat, 13, 15, 9, 11];
    let cells = lemma_cells(texts, widths);
    assert(shows_scaling(row@, cells, heads, a, b, ratio, share));
}

/// A row of the table of points that shows these figures.
pub open spec fn shows_point<S: Measure>(
    row: Seq<char>,
    name: Seq<char>,
    cells: Seq<Seq<char>>,
    p: Point<S>,
) -> bool {
    &&& at_left(name, p.kernel@, 8)
    &&& cells_hold(
        cells,
        seq![
            decimal_spec(p.n as nat),
            if p.causal {
                "causal"@
            } else {
                "full"@
            },
            p.gflops.fixed_spec(2),
            p.intensity.fixed_spec(2),
        ],
        seq![6nat, 8, 12, 14],
    )
    &&& row == cat_spec(
        seq![name, " "@, cells[0], " "@, cells[1], " "@, cells[2], " "@, cells[3]],
    )
}

/// A row of the table of points shows the point's own fields.
pub proof fn point_rows_show_their_point<S: Measure>(p: &Point<S>, row: String)
    requires
        call_ensures(point_row::<S>, (p,), row),
    ensures
        exists|name: Seq<char>, cells: Seq<Seq<char>>|
            #[trigger] shows_point(row@, name, cells, *p),
{
    let name = left_spec(p.kernel@, 8);
    lemma_left(p.kernel@, 8);
    let texts = seq![
        decimal_spec(p.n as nat),
        if p.causal {
            "causal"@
        } else {
            "full"@
        },
        p.gflops.fixed_spec(2),
        p.intensity.fixed_spec(2),
    ];
    let widths = seq![6nat, 8, 12, 14];
    let cells = lemma_cells(texts, widths);
    assert(shows_point(row@, name, cells, *p));
}

/// A row of the tile-size table that shows these figures and this best size.
pub open spec fn shows_sizes<S: Measure>(
    row: Seq<char>,
    cells: Seq<Seq<char>>,
    n: usize,
    figures: Seq<S>,
    best: usize,
) -> bool {
    &&& cells_hold(
        cells,
        seq![
            decimal_spec(n as nat),
            figures[0].fixed_spec(2),
            figures[1].fixed_spec(2),
            figures[2].fixed_spec(2),
            figures[3].fixed_spec(2),
            figures[4].fixed_spec(2),
            "B="@ + decimal_spec(best as nat),
        ],
        seq![6nat, 12, 12, 12, 12, 12, 10],
    )
    &&& row == cat_spec(
        seq![cells[0], cells[1], cells[2], cells[3], cells[4], cells[5], cells[6]],
    )
}

/// The tile sizes of the sweep.
pub open spec fn size_at(i: int) -> usize {
    if i == 0 {
        16
    } else if i == 1 {
        32
    } else if i == 2 {
        64
    } else if i == 3 {
        128
    } else {
        256
    }
}

/// Each throughput in a row of the tile-size table, times the best time at that
/// size, is the work of a pass without a mask, and no throughput is above that of
/// the size that the row names.
pub proof fn sweep_rows_name_the_fastest_size<S: Exact + Measure>(
    n: usize,
    times: &[TimeStats<S>],
    row: String,
    work: S,
    limit: int,
)
    requires
        times@.len() == 5,
        call_ensures(sweep_row::<S>, (n, times), row),
        counts_to::<S>(limit),
        (n + 1) * (n + 1) <= limit,
        4 * (n * n) <= limit,
        flop_count(n as int, 64, false) <= limit,
        work == of::<S>(flop_count(n as int, 64, false)),
        forall|i: int|
            0 <= i < 5 ==> splits(work, (#[trigger] times@[i]).best) && splits(
                work.div_spec(times@[i].best),
                billion(),
            ) && work.div_spec(times@[i].best).div_spec(billion()).is_finite_spec(),
    ensures
        exists|cells: Seq<Seq<char>>, figures: Seq<S>, best: int|
            {
                &&& 0 <= best < 5
                &&& figures.len() == 5
                &&& #[trigger] shows_sizes(row@, cells, n, figures, #[trigger] size_at(best))
                &&& forall|i: int|
                    0 <= i < 5 ==> (#[trigger] figures[i]).mul_spec(billion()).mul_spec(
                        times@[i].best,
                    ) == work && !figures[i].greater_than_spec(figures[best])
            },
{
    lemma_unmasked(n as nat, false);
    flops_count_live_pairs::<S>(n, 64, false, limit);
    let figures = figures_spec(n, times@);
    let best = best_index_spec(figures, 5);
    assert forall|i: int| 0 <= i < 5 implies (#[trigger] figures[i]).is_finite_spec()
        && figures[i].mul_spec(billion()).mul_spec(times@[i].best) == work by {
        assert(splits(work, times@[i].best));
        assert(figures[i] == work.div_spec(times@[i].best).div_spec(billion()));
    }
    best_index_is_the_last_maximum(figures, 5);
    let texts = seq![
        decimal_spec(n as nat),
        figures[0].fixed_spec(2),
        figures[1].fixed_spec(2),
        figures[2].fixed_spec(2),
        figures[3].fixed_spec(2),
        figures[4].fixed_spec(2),
        "B="@ + decimal_spec(size_at(best) as nat),
    ];
    let widths = seq![6nat, 12, 12, 12, 12, 12, 10];
    let cells = lemma_cells(texts, widths);
    assert(shows_sizes(row@, cells, n, figures, size_at(best)));
}

/// The index of the best figure points at a largest one, the last where several
/// are.
pub proof fn the_best_index_points_at_a_largest<S: Exact>(figures: &[S], best: usize)
    requires
        figures@.len() > 0,
        forall|i: int| 0 <= i < figures@.len() ==> (#[trigger] figures@[i]).is_finite_spec(),
        call_ensures(best_index::<S>, (figures,), best),
    ensures
        best < figures@.len(),
        forall|i: int|
            0 <= i < figures@.len() ==> !(#[trigger] figures@[i]).greater_than_spec(
                figures@[best as int],
            ),
        forall|i: int|
            best < i < figures@.len() ==> figures@[best as int].greater_than_spec(
                #[trigger] figures@[i],
            ),
{
    best_index_is_the_last_maximum(figures@, figures@.len());
}

/// The tile-size table is headed by the sizes, and under each by the KB of keys and
/// values that a tile of 64 dimensions keeps resident.
pub proof fn sweep_headers_name_sizes_and_footprints(header: (String, String))
    requires
        call_ensures(sweep_header, (), header),
    ensures
        exists|a: Seq<Seq<char>>, b: Seq<Seq<char>>|
            {
                &&& #[trigger] cells_hold(a, size_names(), size_widths())
                &&& #[trigger] cells_hold(b, footprints(), size_widths())
                &&& header.0@ == cat_spec(
                    seq!["     n"@, a[0], a[1], a[2], a[3], a[4], "      best"@],
                )
                &&& header.1@ == cat_spec(seq!["      "@, b[0], b[1], b[2], b[3], b[4]])
            },
{
    let widths = size_widths();
    let a = lemma_cells(size_names(), widths);
    let b = lemma_cells(footprints(), widths);
    assert(cells_hold(a, size_names(), widths) && cells_hold(b, footprints(), widths));
}

/// Twelve columns for each tile size.
pub open spec fn size_widths() -> Seq<nat> {
    seq![12nat, 12, 12, 12, 12]
}

/// The names of the tile sizes.
pub open spec fn size_names() -> Seq<Seq<char>> {
    Seq::new(5, |i: int| "B="@ + decimal_spec(size_at(i) as nat))
}

/// Two tiles of 64 dimensions of four bytes each, in KB: half the size.
pub open spec fn footprints() -> Seq<Seq<char>> {
    Seq::new(5, |i: int| decimal_spec(size_at(i) as nat / 2) + " KB"@)
}

/// The resident KB are the whole KB of two tiles of four-byte numbers.
pub proof fn footprints_are_whole_kilobytes(block: usize, d: usize, kb: usize)
    requires
        call_ensures(resident_kb, (block, d), kb),
    ensures
        kb * 1024 <= 8 * block * d < (kb + 1) * 1024,
{
    assert(2 * block * d * 4 == 8 * block * d) by (nonlinear_arith);
}

/// What a row of digits stands for, read from the left.
pub open spec fn reading(s: Seq<char>) -> nat
    decreases s.len(),
{
    if s.len() == 0 {
        0
    } else {
        10 * reading(s.drop_last()) + (s.last() as u32 - 48) as nat
    }
}

proof fn lemma_reading(s: Seq<char>)
    ensures
        reading(s) == value_spec(s),
    decreases s.len(),
{
    if s.len() > 0 {
        lemma_reading(s.drop_last());
    }
}

/// A number is written in digits that read as it, without a leading zero, and digits
/// are read as what they stand for, if it fits. Nothing else is read.
pub proof fn decimals_read_as_their_numbers(n: u64, text: String, s: &str, back: Option<u64>)
    requires
        call_ensures(decimal, (n,), text),
        call_ensures(parse_decimal, (s,), back),
    ensures
        text@.len() > 0,
        forall|i: int| 0 <= i < text@.len() ==> '0' <= #[trigger] text@[i] <= '9',
        reading(text@) == n,
        text@.len() > 1 ==> text@[0] != '0',
        back is Some <==> s@.len() > 0 && (forall|i: int|
            0 <= i < s@.len() ==> '0' <= #[trigger] s@[i] <= '9') && reading(s@) <= u64::MAX,
        back matches Some(v) ==> v == reading(s@),
{
    decimal_reads_back(n);
    lemma_reading(text@);
    lemma_reading(s@);
    lemma_decimal(n as nat);
    assert forall|i: int| 0 <= i < text@.len() implies '0' <= #[trigger] text@[i] <= '9' by {
        assert(is_digit(text@[i]));
    }
    if back is Some {
        assert forall|i: int| 0 <= i < s@.len() implies '0' <= #[trigger] s@[i] <= '9' by {
            assert(is_digit(s@[i]));
        }
    } else if s@.len() > 0 && reading(s@) <= u64::MAX {
        let i = choose|i: int| 0 <= i < s@.len() && !is_digit(#[trigger] s@[i]);
        assert(!('0' <= s@[i] <= '9'));
    }
}

/// The heading of a throughput table names its mask.
pub proof fn headings_name_their_mask(causal: bool, heading: String)
    requires
        call_ensures(throughput_heading, (causal,), heading),
    ensures
        heading@ == (if causal {
            "=== causal mask, head_dim d = 64 ==="@
        } else {
            "=== full mask, head_dim d = 64 ==="@
        }),
{
    reveal_strlit("=== ");
    reveal_strlit("causal");
    reveal_strlit("full");
    reveal_strlit(" mask, head_dim d = ");
    reveal_strlit(" ===");
    reveal_strlit("=== causal mask, head_dim d = 64 ===");
    reveal_strlit("=== full mask, head_dim d = 64 ===");
    reveal_with_fuel(decimal_spec, 3);
    let name = if causal {
        "causal"@
    } else {
        "full"@
    };
    let pieces = seq!["=== "@, name, " mask, head_dim d = "@, decimal_spec(64), " ==="@];
    reveal_with_fuel(cat_spec, 6);
    assert(pieces.drop_last() =~= pieces.take(4));
    assert(pieces.take(4).drop_last() =~= pieces.take(3));
    assert(pieces.take(3).drop_last() =~= pieces.take(2));
    assert(pieces.take(2).drop_last() =~= pieces.take(1));
    assert(pieces.take(1).drop_last() =~= Seq::empty());
    assert(decimal_spec(64) =~= seq!['6', '4']);
    assert(heading@ =~= if causal {
        "=== causal mask, head_dim d = 64 ==="@
    } else {
        "=== full mask, head_dim d = 64 ==="@
    });
}

/// The note above the multi-head table is due exactly where even two heads go to one
/// worker.
pub proof fn notes_are_due_where_one_worker_does_everything(
    cores: usize,
    note: Option<&'static str>,
    shares: Vec<(usize, usize)>,
)
    requires
        call_ensures(one_core_note, (cores,), note),
        call_ensures(head_chunks, (2usize, cores), shares),
    ensures
        note is Some <==> shares@.len() == 1,
        note is None <==> shares@.len() == 2,
{
    let (len, chunk) = (shares@.len() as int, chunk_len(2, cores as int));
    assert(workers(2, cores as int) == if cores < 2 {
        1int
    } else {
        2
    });
    assert(chunk == if cores < 2 {
        2int
    } else {
        1
    });
    assert(len * chunk >= 2);
    if len == 0 {
        assert(len * chunk == 0) by (nonlinear_arith)
            requires
                len == 0,
        ;
    }
}

/// A difference is within a bound where the bound is above it: the number that gives
/// the numerator when it is multiplied with the denominator.
pub proof fn differences_are_within_what_is_above_them<S: Exact>(
    diff: S,
    num: usize,
    den: usize,
    close: bool,
    bound: S,
)
    requires
        call_ensures(within::<S>, (diff, num, den), close),
        bound.is_finite_spec(),
        of::<S>(den as int).is_finite_spec(),
        of::<S>(den as int) != S::zero_spec(),
        invertible(of::<S>(den as int)),
        of::<S>(num as int).div_spec(of(den as int)) == of::<S>(num as int).mul_spec(
            S::one_spec().div_spec(of(den as int)),
        ),
        bound.mul_spec(of(den as int)) == of::<S>(num as int),
    ensures
        close <==> bound.greater_than_spec(diff),
{
    let (n, d) = (of::<S>(num as int), of::<S>(den as int));
    let inv = S::one_spec().div_spec(d);
    S::reciprocal_is_finite(d);
    // (bound * d) * inv = bound * (d * inv) = bound
    S::mul_associates(bound, d, inv);
    S::mul_one(bound);
    assert(n.div_spec(d) == bound);
}

} // verus!
