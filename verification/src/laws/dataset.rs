//! Reading a dataset that was written gives back what was written.
use crate::report::mask_spec;
use crate::roofline::json::{
    dataset_spec, head_means, json_spec, lemma_head_lits, lemma_point_lits, machine_pieces,
    point_pieces, points_spec, reads, row_means, rows_spec, HEAD_LITS, POINT_LITS,
};
use crate::roofline::{Machine, Point, HEAD_DIM, KERNELS};
use crate::scalar::Measure;
use crate::text::{
    cat_spec, decimal_reads_back, decimal_spec, eat_spec, fields_spec, is_digit, lemma_run, views,
};
use vstd::prelude::*;

verus! {

/// `c` stands nowhere in `s`.
pub open spec fn free_of(s: Seq<char>, c: char) -> bool {
    forall|i: int| 0 <= i < s.len() ==> #[trigger] s[i] != c
}

/// The pieces from `i` on, one after another.
pub open spec fn tail_of(pieces: Seq<Seq<char>>, i: int) -> Seq<char>
    decreases pieces.len() - i,
{
    if 0 <= i < pieces.len() {
        pieces[i] + tail_of(pieces, i + 1)
    } else {
        Seq::empty()
    }
}

proof fn lemma_cat_tail(pieces: Seq<Seq<char>>, i: int)
    requires
        0 <= i <= pieces.len(),
    ensures
        cat_spec(pieces.take(i)) + tail_of(pieces, i) == cat_spec(pieces),
    decreases pieces.len() - i,
{
    if i == pieces.len() {
        assert(pieces.take(i) =~= pieces);
        assert(cat_spec(pieces) + Seq::<char>::empty() =~= cat_spec(pieces));
    } else {
        lemma_cat_tail(pieces, i + 1);
        assert(pieces.take(i + 1).drop_last() =~= pieces.take(i));
        assert(cat_spec(pieces.take(i)) + (pieces[i] + tail_of(pieces, i + 1)) =~= cat_spec(
            pieces.take(i + 1),
        ) + tail_of(pieces, i + 1));
    }
}

pub(crate) proof fn lemma_cat(pieces: Seq<Seq<char>>)
    ensures
        cat_spec(pieces) == tail_of(pieces, 0),
{
    lemma_cat_tail(pieces, 0);
    assert(pieces.take(0) =~= Seq::empty());
    assert(Seq::<char>::empty() + tail_of(pieces, 0) =~= tail_of(pieces, 0));
}

/// A line from text `i` on, with the fields between the texts, and `rest` after
/// it.
pub open spec fn line(lits: Seq<Seq<char>>, fs: Seq<Seq<char>>, i: int, rest: Seq<char>) -> Seq<char>
    decreases fs.len() - i,
{
    if 0 <= i < fs.len() {
        lits[i] + (fs[i] + line(lits, fs, i + 1, rest))
    } else {
        lits[i] + rest
    }
}

/// A line whose fields do not contain what ends them reads as its fields.
proof fn lemma_line_reads(
    lits: Seq<Seq<char>>,
    fs: Seq<Seq<char>>,
    i: int,
    rest: Seq<char>,
)
    requires
        lits.len() == fs.len() + 1,
        0 <= i <= fs.len(),
        forall|k: int| 0 < k < lits.len() ==> (#[trigger] lits[k]).len() > 0,
        forall|k: int| 0 <= k < fs.len() ==> free_of(#[trigger] fs[k], lits[k + 1][0]),
    ensures
        fields_spec(line(lits, fs, i, rest), lits.skip(i), fs.take(i)) == Some((fs, rest)),
    decreases fs.len() - i,
{
    let s = line(lits, fs, i, rest);
    let left = lits.skip(i);
    assert(left[0] == lits[i]);
    assert(s.take(lits[i].len() as int) =~= lits[i]);
    if i == fs.len() {
        assert(s.skip(lits[i].len() as int) =~= rest);
        assert(fs.take(i) =~= fs);
    } else {
        let next = line(lits, fs, i + 1, rest);
        let behind = fs[i] + next;
        assert(s.skip(lits[i].len() as int) =~= behind);
        let stop = lits[i + 1][0];
        assert(left[1] == lits[i + 1]);
        assert(lits[i + 1].len() > 0);
        assert(next[0] == stop);
        let k = fs[i].len() as int;
        assert(free_of(fs[i], stop));
        assert forall|j: int| 0 <= j < k implies #[trigger] behind[j] != stop by {
            assert(behind[j] == fs[i][j]);
        }
        assert(behind[k] == next[0]);
        lemma_run(behind, stop, k);
        assert(behind.take(k) =~= fs[i]);
        assert(behind.skip(k) =~= next);
        assert(left.drop_first() =~= lits.skip(i + 1));
        assert(fs.take(i).push(fs[i]) =~= fs.take(i + 1));
        lemma_line_reads(lits, fs, i + 1, rest);
    }
}

/// The fields that a machine is written as.
pub open spec fn head_fields<S: Measure>(m: Machine<S>) -> Seq<Seq<char>> {
    seq![
        m.arch@,
        m.isa@,
        m.peak_gflops.fixed_spec(3),
        m.bandwidth_gbs.fixed_spec(3),
        m.ridge_spec().fixed_spec(4),
        m.peak_spread_pct.fixed_spec(2),
        m.bandwidth_spread_pct.fixed_spec(2),
        decimal_spec(HEAD_DIM as nat),
    ]
}

/// The fields that a point is written as.
pub open spec fn row_fields<S: Measure>(p: Point<S>) -> Seq<Seq<char>> {
    seq![
        p.kernel@,
        decimal_spec(p.n as nat),
        mask_spec(p.causal),
        p.gflops.fixed_spec(4),
        p.intensity.fixed_spec(4),
        p.median_secs.fixed_spec(9),
        p.spread_pct.fixed_spec(2),
    ]
}

/// The names hold no quote, and the numbers neither comma nor space.
pub open spec fn plain_machine<S: Measure>(m: Machine<S>) -> bool {
    &&& free_of(m.arch@, '"')
    &&& free_of(m.isa@, '"')
    &&& free_of(m.peak_gflops.fixed_spec(3), ',')
    &&& free_of(m.bandwidth_gbs.fixed_spec(3), ',')
    &&& free_of(m.ridge_spec().fixed_spec(4), ',')
    &&& free_of(m.peak_spread_pct.fixed_spec(2), ',')
    &&& free_of(m.bandwidth_spread_pct.fixed_spec(2), ' ')
}

/// The same of a point.
pub open spec fn plain_point<S: Measure>(p: Point<S>) -> bool {
    &&& free_of(p.kernel@, '"')
    &&& free_of(p.gflops.fixed_spec(4), ',')
    &&& free_of(p.intensity.fixed_spec(4), ',')
    &&& free_of(p.median_secs.fixed_spec(9), ',')
    &&& free_of(p.spread_pct.fixed_spec(2), ' ')
}

proof fn lemma_decimal_is_plain(n: u64)
    ensures
        free_of(decimal_spec(n as nat), ','),
{
    decimal_reads_back(n);
    let s = decimal_spec(n as nat);
    assert forall|i: int| 0 <= i < s.len() implies #[trigger] s[i] != ',' by {
        assert(is_digit(s[i]));
    }
}

/// The pieces of a line are its texts and fields in turn, and `end` ends the
/// last one.
pub open spec fn woven(
    pieces: Seq<Seq<char>>,
    lits: Seq<Seq<char>>,
    fs: Seq<Seq<char>>,
    end: Seq<char>,
) -> bool {
    &&& pieces.len() == 2 * fs.len() + 1
    &&& lits.len() == fs.len() + 1
    &&& forall|k: int| 0 <= k < fs.len() ==> pieces[2 * k] == lits[k] && #[trigger] fs[k] == pieces[2 * k + 1]
    &&& pieces.last() == lits.last() + end
}

pub(crate) proof fn lemma_woven(
    pieces: Seq<Seq<char>>,
    lits: Seq<Seq<char>>,
    fs: Seq<Seq<char>>,
    end: Seq<char>,
    rest: Seq<char>,
    i: int,
)
    requires
        woven(pieces, lits, fs, end),
        0 <= i <= fs.len(),
    ensures
        tail_of(pieces, 2 * i) + rest == line(lits, fs, i, end + rest),
    decreases fs.len() - i,
{
    if i == fs.len() {
        assert(tail_of(pieces, 2 * i + 1) == Seq::<char>::empty());
        assert((lits[i] + end) + Seq::<char>::empty() + rest =~= lits[i] + (end + rest));
    } else {
        lemma_woven(pieces, lits, fs, end, rest, i + 1);
        let next = tail_of(pieces, 2 * (i + 1));
        assert(fs[i] == pieces[2 * i + 1]);
        assert(tail_of(pieces, 2 * i + 1) == pieces[2 * i + 1] + next);
        assert(tail_of(pieces, 2 * i) == pieces[2 * i] + tail_of(pieces, 2 * i + 1));
        assert((lits[i] + (fs[i] + next)) + rest =~= lits[i] + (fs[i] + (next + rest)));
    }
}

/// One written point, and what follows it, as a line.
pub(crate) proof fn lemma_point_line<S: Measure>(p: Point<S>, last: bool, rest: Seq<char>)
    ensures
        cat_spec(point_pieces(p, last)) + rest == line(
            views(POINT_LITS@),
            row_fields(p),
            0,
            (if last {
                "\n"@
            } else {
                ",\n"@
            }) + rest,
        ),
{
    let end = if last {
        "\n"@
    } else {
        ",\n"@
    };
    reveal_strlit(" }\n");
    reveal_strlit(" },\n");
    reveal_strlit(" }");
    reveal_strlit("\n");
    reveal_strlit(",\n");
    assert(" }\n"@ =~= " }"@ + "\n"@);
    assert(" },\n"@ =~= " }"@ + ",\n"@);
    let pieces = point_pieces(p, last);
    let fs = row_fields(p);
    let lits = views(POINT_LITS@);
    assert forall|k: int| 0 <= k < fs.len() implies pieces[2 * k] == lits[k] && #[trigger] fs[k]
        == pieces[2 * k + 1] by {
        assert(k == 0 || k == 1 || k == 2 || k == 3 || k == 4 || k == 5 || k == 6);
    }
    lemma_cat(pieces);
    lemma_woven(pieces, lits, fs, end, rest, 0);
}

/// The lines of the points from `i` on.
pub open spec fn lines_from<S: Measure>(pts: Seq<Point<S>>, i: int) -> Seq<char>
    decreases pts.len() - i,
{
    if 0 <= i < pts.len() {
        cat_spec(point_pieces(pts[i], i + 1 == pts.len())) + lines_from(pts, i + 1)
    } else {
        Seq::empty()
    }
}

pub(crate) proof fn lemma_lines<S: Measure>(pts: Seq<Point<S>>, i: int)
    requires
        0 <= i <= pts.len(),
    ensures
        points_spec(pts, i as nat) + lines_from(pts, i) == points_spec(pts, pts.len()),
    decreases pts.len() - i,
{
    if i == pts.len() {
        assert(points_spec(pts, i as nat) + Seq::<char>::empty() =~= points_spec(pts, pts.len()));
    } else {
        lemma_lines(pts, i + 1);
        let line = cat_spec(point_pieces(pts[i], i + 1 == pts.len()));
        assert(points_spec(pts, i as nat) + (line + lines_from(pts, i + 1)) =~= points_spec(
            pts,
            (i + 1) as nat,
        ) + lines_from(pts, i + 1));
    }
}

/// The fields that the points are written as.
pub open spec fn rows_of<S: Measure>(pts: Seq<Point<S>>) -> Seq<Seq<Seq<char>>> {
    Seq::new(pts.len(), |i: int| row_fields(pts[i]))
}

proof fn lemma_rows_read<S: Measure>(pts: Seq<Point<S>>, i: int)
    requires
        0 <= i < pts.len(),
        forall|k: int| 0 <= k < pts.len() ==> plain_point(#[trigger] pts[k]),
    ensures
        rows_spec(lines_from(pts, i) + "  ]\n}\n"@, rows_of(pts).take(i)) == Some(rows_of(pts)),
    decreases pts.len() - i,
{
    let p = pts[i];
    let last = i + 1 == pts.len();
    let rest = lines_from(pts, i + 1) + "  ]\n}\n"@;
    let end = if last {
        "\n"@
    } else {
        ",\n"@
    };
    let s = lines_from(pts, i) + "  ]\n}\n"@;
    let lits = views(POINT_LITS@);
    let fs = row_fields(p);
    lemma_point_line(p, last, rest);
    assert(s =~= cat_spec(point_pieces(p, last)) + rest);
    lemma_point_lits();
    lemma_decimal_is_plain(p.n as u64);
    reveal_strlit("causal");
    reveal_strlit("full");
    assert(plain_point(p));
    assert forall|k: int| 0 <= k < fs.len() implies free_of(#[trigger] fs[k], lits[k + 1][0]) by {
        assert(k == 0 || k == 1 || k == 2 || k == 3 || k == 4 || k == 5 || k == 6);
    }
    assert forall|k: int| 0 < k < lits.len() implies (#[trigger] lits[k]).len() > 0 by {
        assert(POINT_LITS@[k]@.len() > 0);
    }
    lemma_line_reads(lits, fs, 0, end + rest);
    assert(lits.skip(0) =~= lits);
    assert(fs.take(0) =~= Seq::empty());
    assert(fields_spec(s, lits, Seq::empty()) == Some((fs, end + rest)));
    reveal_strlit(",\n");
    reveal_strlit("\n");
    reveal_strlit("  ]\n}\n");
    reveal_strlit("\n  ]\n}\n");
    assert(rows_of(pts).take(i).push(fs) =~= rows_of(pts).take(i + 1));
    if last {
        assert(rest =~= "  ]\n}\n"@);
        assert(end + rest =~= "\n  ]\n}\n"@);
        assert((end + rest).take(2)[0] == '\n');
        assert(eat_spec(end + rest, ",\n"@) is None);
        assert(rows_of(pts).take(i + 1) =~= rows_of(pts));
    } else {
        assert((end + rest).take(2) =~= ",\n"@);
        assert((end + rest).skip(2) =~= rest);
        lemma_rows_read(pts, i + 1);
    }
}

/// The start of a dataset, and what follows it, as a line.
proof fn lemma_head_line<S: Measure>(m: Machine<S>, rest: Seq<char>)
    ensures
        cat_spec(
            seq![
                "{\n"@,
                cat_spec(machine_pieces(m)),
                "  \"head_dim\": "@,
                decimal_spec(HEAD_DIM as nat),
                ",\n  \"points\": [\n"@,
            ],
        ) + rest == line(views(HEAD_LITS@), head_fields(m), 0, rest),
{
    let dim = decimal_spec(HEAD_DIM as nat);
    let whole = seq![
        "{\n"@,
        cat_spec(machine_pieces(m)),
        "  \"head_dim\": "@,
        dim,
        ",\n  \"points\": [\n"@,
    ];
    let lits = views(HEAD_LITS@);
    let fs = head_fields(m);
    // The machine's own line: the same fields but the last, between the same
    // texts but for the first and the last.
    let pieces = machine_pieces(m);
    let few = fs.take(7);
    let own = Seq::new(8, |i: int| pieces[2 * i]);
    let behind = "  \"head_dim\": "@ + (dim + (",\n  \"points\": [\n"@ + rest));
    assert forall|k: int| 0 <= k < few.len() implies pieces[2 * k] == own[k] && #[trigger] few[k]
        == pieces[2 * k + 1] by {
        assert(k == 0 || k == 1 || k == 2 || k == 3 || k == 4 || k == 5 || k == 6);
    }
    assert(own.last() + Seq::<char>::empty() =~= own.last());
    lemma_cat(pieces);
    lemma_woven(pieces, own, few, Seq::empty(), behind, 0);
    assert(Seq::<char>::empty() + behind =~= behind);
    let mine = line(own, few, 0, behind);
    assert(cat_spec(pieces) + behind == mine);
    // Both lines agree from their second text on.
    reveal_strlit(" },\n");
    reveal_strlit("  \"head_dim\": ");
    reveal_strlit(" },\n  \"head_dim\": ");
    assert(" },\n  \"head_dim\": "@ =~= " },\n"@ + "  \"head_dim\": "@);
    assert(line(lits, fs, 8, rest) == ",\n  \"points\": [\n"@ + rest);
    assert(line(lits, fs, 7, rest) == " },\n  \"head_dim\": "@ + (dim + line(lits, fs, 8, rest)));
    assert(line(own, few, 7, behind) == " },\n"@ + behind);
    assert(line(lits, fs, 7, rest) =~= line(own, few, 7, behind));
    assert(line(lits, fs, 6, rest) == line(own, few, 6, behind));
    assert(line(lits, fs, 5, rest) == line(own, few, 5, behind));
    assert(line(lits, fs, 4, rest) == line(own, few, 4, behind));
    assert(line(lits, fs, 3, rest) == line(own, few, 3, behind));
    assert(line(lits, fs, 2, rest) == line(own, few, 2, behind));
    assert(line(lits, fs, 1, rest) == line(own, few, 1, behind));
    reveal_strlit("{\n");
    reveal_strlit("  \"machine\": { \"arch\": \"");
    reveal_strlit("{\n  \"machine\": { \"arch\": \"");
    assert("{\n  \"machine\": { \"arch\": \""@ =~= "{\n"@ + "  \"machine\": { \"arch\": \""@);
    let after = m.arch@ + line(lits, fs, 1, rest);
    assert(line(lits, fs, 0, rest) == lits[0] + after);
    assert(mine == own[0] + after);
    assert(line(lits, fs, 0, rest) =~= "{\n"@ + mine);
    lemma_cat(whole);
    reveal_with_fuel(tail_of, 6);
    assert(tail_of(whole, 5) == Seq::<char>::empty());
    assert(tail_of(whole, 0) + rest =~= "{\n"@ + (cat_spec(pieces) + behind));
}

/// Reading a written dataset gives back every field as it was written.
pub proof fn written_datasets_read_back<S: Measure>(m: Machine<S>, pts: Seq<Point<S>>)
    requires
        plain_machine(m),
        forall|k: int| 0 <= k < pts.len() ==> plain_point(#[trigger] pts[k]),
    ensures
        dataset_spec(json_spec(m, pts)) == Some((head_fields(m), rows_of(pts))),
{
    let text = json_spec(m, pts);
    let lines = points_spec(pts, pts.len());
    let rest = lines + "  ]\n}\n"@;
    let whole = seq![
        "{\n"@,
        cat_spec(machine_pieces(m)),
        "  \"head_dim\": "@,
        decimal_spec(HEAD_DIM as nat),
        ",\n  \"points\": [\n"@,
        lines,
        "  ]\n}\n"@,
    ];
    assert(whole.drop_last().drop_last() =~= seq![
        "{\n"@,
        cat_spec(machine_pieces(m)),
        "  \"head_dim\": "@,
        decimal_spec(HEAD_DIM as nat),
        ",\n  \"points\": [\n"@,
    ]);
    assert(cat_spec(whole) == cat_spec(whole.drop_last()) + "  ]\n}\n"@);
    assert(cat_spec(whole.drop_last()) == cat_spec(whole.drop_last().drop_last()) + lines);
    lemma_head_line(m, rest);
    let lits = views(HEAD_LITS@);
    let fs = head_fields(m);
    assert(text =~= line(lits, fs, 0, rest));
    lemma_head_lits();
    lemma_decimal_is_plain(HEAD_DIM as u64);
    assert forall|k: int| 0 <= k < fs.len() implies free_of(#[trigger] fs[k], lits[k + 1][0]) by {
        assert(k == 0 || k == 1 || k == 2 || k == 3 || k == 4 || k == 5 || k == 6 || k == 7);
    }
    assert forall|k: int| 0 < k < lits.len() implies (#[trigger] lits[k]).len() > 0 by {
        assert(HEAD_LITS@[k]@.len() > 0);
    }
    lemma_line_reads(lits, fs, 0, rest);
    assert(lits.skip(0) =~= lits);
    assert(fs.take(0) =~= Seq::empty());
    if pts.len() == 0 {
        assert(rest =~= "  ]\n}\n"@);
        assert(rows_of(pts) =~= Seq::empty());
    } else {
        lemma_lines(pts, 0);
        assert(Seq::<char>::empty() + lines_from(pts, 0) =~= lines_from(pts, 0));
        lemma_rows_read(pts, 0);
        assert(rows_of(pts).take(0) =~= Seq::empty());
        // A dataset with points does not end where they begin.
        lemma_point_line(pts[0], 1 == pts.len(), lines_from(pts, 1) + "  ]\n}\n"@);
        reveal_strlit("    { \"kernel\": \"");
        reveal_strlit("  ]\n}\n");
        let first = line(
            views(POINT_LITS@),
            row_fields(pts[0]),
            0,
            (if 1 == pts.len() {
                "\n"@
            } else {
                ",\n"@
            }) + (lines_from(pts, 1) + "  ]\n}\n"@),
        );
        assert(rest =~= first);
        assert(first[2] == ' ');
        assert("  ]\n}\n"@[2] == ']');
    }
}

/// Every number that was written can be read.
pub open spec fn legible_machine<S: Measure>(m: Machine<S>) -> bool {
    &&& S::parse_spec(m.peak_gflops.fixed_spec(3)) is Some
    &&& S::parse_spec(m.bandwidth_gbs.fixed_spec(3)) is Some
    &&& S::parse_spec(m.peak_spread_pct.fixed_spec(2)) is Some
    &&& S::parse_spec(m.bandwidth_spread_pct.fixed_spec(2)) is Some
}

/// The kernel is one of the three, and every number that was written can be
/// read.
pub open spec fn legible_point<S: Measure>(p: Point<S>) -> bool {
    &&& p.kernel@ == KERNELS@[0]@ || p.kernel@ == KERNELS@[1]@ || p.kernel@ == KERNELS@[2]@
    &&& S::parse_spec(p.gflops.fixed_spec(4)) is Some
    &&& S::parse_spec(p.intensity.fixed_spec(4)) is Some
    &&& S::parse_spec(p.median_secs.fixed_spec(9)) is Some
    &&& S::parse_spec(p.spread_pct.fixed_spec(2)) is Some
}

/// The reader takes every dataset that was written of kernels and numbers that
/// it knows.
pub proof fn written_datasets_are_read<S: Measure>(m: Machine<S>, pts: Seq<Point<S>>)
    requires
        plain_machine(m),
        legible_machine(m),
        forall|k: int|
            0 <= k < pts.len() ==> plain_point(#[trigger] pts[k]) && legible_point(pts[k]),
    ensures
        reads::<S>(json_spec(m, pts)),
{
    written_datasets_read_back(m, pts);
    assert(head_means::<S>(head_fields(m)));
    assert forall|i: int| 0 <= i < rows_of(pts).len() implies row_means::<S>(
        #[trigger] rows_of(pts)[i],
    ) by {
        let p = pts[i];
        decimal_reads_back(p.n as u64);
        assert(plain_point(p) && legible_point(p));
        assert(mask_spec(p.causal) == mask_spec(false) || mask_spec(p.causal) == mask_spec(true));
    }
}

} // verus!
