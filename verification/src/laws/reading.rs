//! What a dataset that can be read says.
use crate::laws::dataset::{lemma_cat, tail_of};
use crate::laws::figure::holds;
use crate::laws::picture::lemma_holds_within;
use crate::roofline::json::{
    dataset_spec, from_json, is_point, lemma_rows_keep, row_means, rows_spec, HEAD_LITS, POINT_LITS,
};
use crate::roofline::{Machine, Point};
use crate::scalar::Measure;
use crate::text::{
    cat_spec, decimal_spec, eat_spec, fields_spec, lemma_fields_consume, lemma_fields_count,
    lemma_run_bound, parse_decimal_spec, run_spec, views,
};
use vstd::prelude::*;

verus! {

/// What stands in a dataset before its points, with these fields.
pub open spec fn head_text(f: Seq<Seq<char>>) -> Seq<char> {
    cat_spec(
        seq![
            "{\n  \"machine\": { \"arch\": \""@,
            f[0],
            "\", \"isa\": \""@,
            f[1],
            "\", \"peak_gflops\": "@,
            f[2],
            ", \"bandwidth_gbs\": "@,
            f[3],
            ", \"ridge_flop_per_byte\": "@,
            f[4],
            ", \"peak_spread_pct\": "@,
            f[5],
            ", \"bandwidth_spread_pct\": "@,
            f[6],
            " },\n  \"head_dim\": "@,
            f[7],
            ",\n  \"points\": [\n"@,
        ],
    )
}

/// A point in a dataset, with these fields.
pub open spec fn row_text(f: Seq<Seq<char>>) -> Seq<char> {
    cat_spec(
        seq![
            "    { \"kernel\": \""@,
            f[0],
            "\", \"n\": "@,
            f[1],
            ", \"mask\": \""@,
            f[2],
            "\", \"gflops\": "@,
            f[3],
            ", \"intensity_flop_per_byte\": "@,
            f[4],
            ", \"median_secs\": "@,
            f[5],
            ", \"spread_pct\": "@,
            f[6],
            " }"@,
        ],
    )
}

/// `s` begins with `part`.
pub open spec fn begins(s: Seq<char>, part: Seq<char>) -> bool {
    part.len() <= s.len() && s.take(part.len() as int) == part
}

/// The machine that these fields name, measured at a head dimension of 64.
pub open spec fn names_machine<S: Measure>(f: Seq<Seq<char>>, m: Machine<S>) -> bool {
    &&& m.arch@ == f[0]
    &&& m.isa@ == f[1]
    &&& S::parse_spec(f[2]) == Some(m.peak_gflops)
    &&& S::parse_spec(f[3]) == Some(m.bandwidth_gbs)
    &&& S::parse_spec(f[5]) == Some(m.peak_spread_pct)
    &&& S::parse_spec(f[6]) == Some(m.bandwidth_spread_pct)
    &&& f[7] == "64"@
}

/// The point that these fields name.
pub open spec fn names_point<S: Measure>(f: Seq<Seq<char>>, p: Point<S>) -> bool {
    &&& p.kernel@ == f[0]
    &&& f[0] == "naive"@ || f[0] == "tiled"@ || f[0] == "simd"@
    &&& parse_decimal_spec(f[1]) == Some(p.n as u64)
    &&& f[2] == if p.causal {
        "causal"@
    } else {
        "full"@
    }
    &&& S::parse_spec(f[3]) == Some(p.gflops)
    &&& S::parse_spec(f[4]) == Some(p.intensity)
    &&& S::parse_spec(f[5]) == Some(p.median_secs)
    &&& S::parse_spec(f[6]) == Some(p.spread_pct)
}

/// Fields that were found stand between their texts.
proof fn lemma_found(
    s: Seq<char>,
    lits: Seq<Seq<char>>,
    found: Seq<Seq<char>>,
    all: Seq<Seq<char>>,
    rest: Seq<char>,
    pieces: Seq<Seq<char>>,
    i: int,
)
    requires
        0 <= i < lits.len(),
        found.len() == i,
        fields_spec(s, lits.skip(i), found) == Some((all, rest)),
        all.len() == lits.len() - 1,
        pieces.len() == 2 * lits.len() - 1,
        forall|j: int| 0 <= j < lits.len() ==> pieces[2 * j] == #[trigger] lits[j],
        forall|j: int| 0 <= j < all.len() ==> pieces[2 * j + 1] == #[trigger] all[j],
    ensures
        s == tail_of(pieces, 2 * i) + rest,
        all.take(i) == found,
    decreases lits.len() - i,
{
    let left = lits.skip(i);
    assert(left[0] == lits[i]);
    let behind = s.skip(left[0].len() as int);
    assert(s =~= left[0] + behind);
    assert(tail_of(pieces, 2 * i) == pieces[2 * i] + tail_of(pieces, 2 * i + 1));
    if left.len() == 1 {
        assert(tail_of(pieces, 2 * i + 1) == Seq::<char>::empty());
        assert(pieces[2 * i] + Seq::<char>::empty() + rest =~= left[0] + rest);
        assert(all.take(i) =~= found);
    } else {
        let k = run_spec(behind, left[1][0]);
        let grown = found.push(behind.take(k));
        assert(left.drop_first() =~= lits.skip(i + 1));
        lemma_found(behind.skip(k), lits, grown, all, rest, pieces, i + 1);
        assert(all.take(i + 1)[i] == grown[i]);
        assert(all[i] == behind.take(k));
        assert(all.take(i) =~= found) by {
            assert(all.take(i + 1).take(i) =~= all.take(i));
            assert(grown.take(i) =~= found);
        }
        lemma_run_bound(behind, left[1][0]);
        assert(behind =~= behind.take(k) + behind.skip(k));
        let next = tail_of(pieces, 2 * (i + 1));
        assert(tail_of(pieces, 2 * i + 1) == pieces[2 * i + 1] + next);
        assert(left[0] + (all[i] + (next + rest)) =~= (left[0] + (all[i] + next)) + rest);
    }
}

/// A row that was found stands at the start.
proof fn lemma_row(s: Seq<char>, row: Seq<Seq<char>>, rest: Seq<char>)
    requires
        fields_spec(s, views(POINT_LITS@), Seq::empty()) == Some((row, rest)),
    ensures
        row.len() == 7,
        s == row_text(row) + rest,
{
    let lits = views(POINT_LITS@);
    lemma_fields_count(s, lits, Seq::empty());
    let pieces = seq![
        "    { \"kernel\": \""@,
        row[0],
        "\", \"n\": "@,
        row[1],
        ", \"mask\": \""@,
        row[2],
        "\", \"gflops\": "@,
        row[3],
        ", \"intensity_flop_per_byte\": "@,
        row[4],
        ", \"median_secs\": "@,
        row[5],
        ", \"spread_pct\": "@,
        row[6],
        " }"@,
    ];
    assert(lits.skip(0) =~= lits);
    assert forall|j: int| 0 <= j < lits.len() implies pieces[2 * j] == #[trigger] lits[j] by {
        assert(j == 0 || j == 1 || j == 2 || j == 3 || j == 4 || j == 5 || j == 6 || j == 7);
    }
    assert forall|j: int| 0 <= j < row.len() implies pieces[2 * j + 1] == #[trigger] row[j] by {
        assert(j == 0 || j == 1 || j == 2 || j == 3 || j == 4 || j == 5 || j == 6);
    }
    lemma_found(s, lits, Seq::empty(), row, rest, pieces, 0);
    lemma_cat(pieces);
}

/// So does the head.
proof fn lemma_head(s: Seq<char>, head: Seq<Seq<char>>, rest: Seq<char>)
    requires
        fields_spec(s, views(HEAD_LITS@), Seq::empty()) == Some((head, rest)),
    ensures
        head.len() == 8,
        s == head_text(head) + rest,
{
    let lits = views(HEAD_LITS@);
    lemma_fields_count(s, lits, Seq::empty());
    let pieces = seq![
        "{\n  \"machine\": { \"arch\": \""@,
        head[0],
        "\", \"isa\": \""@,
        head[1],
        "\", \"peak_gflops\": "@,
        head[2],
        ", \"bandwidth_gbs\": "@,
        head[3],
        ", \"ridge_flop_per_byte\": "@,
        head[4],
        ", \"peak_spread_pct\": "@,
        head[5],
        ", \"bandwidth_spread_pct\": "@,
        head[6],
        " },\n  \"head_dim\": "@,
        head[7],
        ",\n  \"points\": [\n"@,
    ];
    assert(lits.skip(0) =~= lits);
    assert forall|j: int| 0 <= j < lits.len() implies pieces[2 * j] == #[trigger] lits[j] by {
        assert(j == 0 || j == 1 || j == 2 || j == 3 || j == 4 || j == 5 || j == 6 || j == 7 || j
            == 8);
    }
    assert forall|j: int| 0 <= j < head.len() implies pieces[2 * j + 1] == #[trigger] head[j] by {
        assert(j == 0 || j == 1 || j == 2 || j == 3 || j == 4 || j == 5 || j == 6 || j == 7);
    }
    lemma_found(s, lits, Seq::empty(), head, rest, pieces, 0);
    lemma_cat(pieces);
}

/// Every row that was found stands in the text.
proof fn lemma_rows_stand(
    s: Seq<char>,
    rows: Seq<Seq<Seq<char>>>,
    all: Seq<Seq<Seq<char>>>,
    i: int,
)
    requires
        rows_spec(s, rows) == Some(all),
        rows.len() <= i < all.len(),
    ensures
        holds(s, row_text(all[i])),
    decreases s.len(),
{
    let (row, rest) = fields_spec(s, views(POINT_LITS@), Seq::empty())->0;
    lemma_row(s, row, rest);
    lemma_rows_keep(s, rows);
    if i == rows.len() {
        assert(s =~= Seq::<char>::empty() + row_text(row) + rest);
    } else {
        match eat_spec(rest, ",\n"@) {
            Some(next) => {
                lemma_fields_consume(s, views(POINT_LITS@), Seq::empty());
                reveal_strlit(",\n");
                lemma_rows_stand(next, rows.push(row), all, i);
                assert(s =~= (row_text(row) + ",\n"@) + next + Seq::<char>::empty());
                lemma_holds_within(s, next, row_text(all[i]));
            },
            None => {},
        }
    }
}

/// What is read stands in the text, under its name: the machine at the start, with a
/// head dimension of 64, and every point after it.
pub proof fn what_is_read_stands_in_the_text<S: Measure>(
    s: &str,
    m: Machine<S>,
    pts: Vec<Point<S>>,
    i: int,
)
    requires
        call_ensures(from_json::<S>, (s,), Some((m, pts))),
    ensures
        exists|f: Seq<Seq<char>>|
            f.len() == 8 && begins(s@, #[trigger] head_text(f)) && names_machine(f, m),
        0 <= i < pts@.len() ==> exists|f: Seq<Seq<char>>|
            f.len() == 7 && holds(s@, #[trigger] row_text(f)) && names_point(f, pts@[i]),
{
    let (head, rows) = dataset_spec(s@)->0;
    let (_, rest) = fields_spec(s@, views(HEAD_LITS@), Seq::empty())->0;
    lemma_head(s@, head, rest);
    assert(s@.take(head_text(head).len() as int) =~= head_text(head));
    reveal_strlit("64");
    reveal_with_fuel(decimal_spec, 3);
    assert(decimal_spec(64) =~= "64"@);
    assert(names_machine(head, m));
    if 0 <= i < pts@.len() {
        lemma_rows_stand(rest, Seq::empty(), rows, i);
        assert(s@ =~= head_text(head) + rest + Seq::<char>::empty());
        lemma_holds_within(s@, rest, row_text(rows[i]));
        assert(is_point(pts@[i], rows[i]));
        assert(row_means::<S>(rows[i]));
        assert(names_point(rows[i], pts@[i]));
        assert(rows[i].len() == 7) by {
            lemma_row_lens(rest, Seq::empty(), rows, i);
        }
    }
}

proof fn lemma_row_lens(
    s: Seq<char>,
    rows: Seq<Seq<Seq<char>>>,
    all: Seq<Seq<Seq<char>>>,
    i: int,
)
    requires
        rows_spec(s, rows) == Some(all),
        rows.len() <= i < all.len(),
    ensures
        all[i].len() == 7,
    decreases s.len(),
{
    let (row, rest) = fields_spec(s, views(POINT_LITS@), Seq::empty())->0;
    lemma_row(s, row, rest);
    lemma_rows_keep(s, rows);
    if i > rows.len() {
        if let Some(next) = eat_spec(rest, ",\n"@) {
            lemma_fields_consume(s, views(POINT_LITS@), Seq::empty());
            reveal_strlit(",\n");
            lemma_row_lens(next, rows.push(row), all, i);
        }
    }
}

} // verus!
