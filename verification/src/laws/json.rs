//! A written dataset is JSON.
use crate::laws::dataset::{
    legible_machine, legible_point, lemma_cat, lemma_lines, lemma_point_line, lemma_woven, line,
    lines_from, plain_machine, plain_point, row_fields, rows_of, tail_of,
    written_datasets_are_read, written_datasets_read_back,
};
use crate::laws::grammar::{
    decimals_are_numbers, element_ok, element_text, is_digits, is_json, is_number,
    is_text, items_text, keys_of, member_ok, member_text, members_text, parts_of,
    plain_characters_are_text, quoted, value_ok, value_text, Element, Member, Value,
};
use crate::report::mask_spec;
use crate::ring::Ring64;
use crate::roofline::json::{
    from_json, is_point, json_spec, machine_pieces, point_pieces, points_spec, to_json, POINT_LITS,
};
use crate::roofline::{Machine, Point, HEAD_DIM};
use crate::scalar::Measure;
use crate::text::{cat_spec, decimal_reads_back, decimal_spec, views, zeros_spec};
use vstd::prelude::*;

verus! {

/// An object of one line: a blank before every key and every value, and one at
/// the end.
pub open spec fn record(keys: Seq<Seq<char>>, values: Seq<Value>) -> Value {
    Value::Object(
        Seq::empty(),
        Seq::new(
            keys.len(),
            |i: int|
                Member {
                    before: seq![' '],
                    key: keys[i],
                    after: Seq::empty(),
                    element: Element {
                        before: seq![' '],
                        value: values[i],
                        after: if i + 1 == keys.len() {
                            seq![' ']
                        } else {
                            Seq::empty()
                        },
                    },
                },
        ),
    )
}

/// What a machine is called in its line.
pub open spec fn machine_keys() -> Seq<Seq<char>> {
    seq![
        "arch"@,
        "isa"@,
        "peak_gflops"@,
        "bandwidth_gbs"@,
        "ridge_flop_per_byte"@,
        "peak_spread_pct"@,
        "bandwidth_spread_pct"@,
    ]
}

/// What a machine is, key by key.
pub open spec fn machine_parts<S: Measure>(m: Machine<S>) -> Seq<Value> {
    seq![
        Value::Text(m.arch@),
        Value::Text(m.isa@),
        Value::Number(m.peak_gflops.fixed_spec(3)),
        Value::Number(m.bandwidth_gbs.fixed_spec(3)),
        Value::Number(m.peak_gflops.div_spec(m.bandwidth_gbs).fixed_spec(4)),
        Value::Number(m.peak_spread_pct.fixed_spec(2)),
        Value::Number(m.bandwidth_spread_pct.fixed_spec(2)),
    ]
}

/// A machine as a value.
pub open spec fn machine_value<S: Measure>(m: Machine<S>) -> Value {
    record(machine_keys(), machine_parts(m))
}

/// What a point is called in its line.
pub open spec fn point_keys() -> Seq<Seq<char>> {
    seq![
        "kernel"@,
        "n"@,
        "mask"@,
        "gflops"@,
        "intensity_flop_per_byte"@,
        "median_secs"@,
        "spread_pct"@,
    ]
}

/// What a point is, key by key.
pub open spec fn point_parts<S: Measure>(p: Point<S>) -> Seq<Value> {
    seq![
        Value::Text(p.kernel@),
        Value::Number(decimal_spec(p.n as nat)),
        Value::Text(
            if p.causal {
                "causal"@
            } else {
                "full"@
            },
        ),
        Value::Number(p.gflops.fixed_spec(4)),
        Value::Number(p.intensity.fixed_spec(4)),
        Value::Number(p.median_secs.fixed_spec(9)),
        Value::Number(p.spread_pct.fixed_spec(2)),
    ]
}

/// A point as a value.
pub open spec fn point_value<S: Measure>(p: Point<S>) -> Value {
    record(point_keys(), point_parts(p))
}

/// The points as a list, a line each.
pub open spec fn point_items<S: Measure>(pts: Seq<Point<S>>) -> Seq<Element> {
    Seq::new(
        pts.len(),
        |i: int|
            Element {
                before: "\n    "@,
                value: point_value(pts[i]),
                after: if i + 1 == pts.len() {
                    "\n  "@
                } else {
                    Seq::empty()
                },
            },
    )
}

/// A member on a line of its own.
pub open spec fn entry(key: Seq<char>, value: Value, after: Seq<char>) -> Member {
    Member {
        before: "\n  "@,
        key,
        after: Seq::empty(),
        element: Element { before: seq![' '], value, after },
    }
}

/// A dataset as one element.
pub open spec fn document<S: Measure>(m: Machine<S>, pts: Seq<Point<S>>) -> Element {
    Element {
        before: Seq::empty(),
        value: Value::Object(
            Seq::empty(),
            seq![
                entry("machine"@, machine_value(m), Seq::empty()),
                entry("head_dim"@, Value::Number("64"@), Seq::empty()),
                entry("points"@, Value::List("\n  "@, point_items(pts)), "\n"@),
            ],
        ),
        after: "\n"@,
    }
}

/// The names can stand between quotes as they are, and the numbers are written as
/// numbers, as finite ones are.
pub open spec fn json_machine<S: Measure>(m: Machine<S>) -> bool {
    &&& is_text(m.arch@)
    &&& is_text(m.isa@)
    &&& is_number(m.peak_gflops.fixed_spec(3))
    &&& is_number(m.bandwidth_gbs.fixed_spec(3))
    &&& is_number(m.peak_gflops.div_spec(m.bandwidth_gbs).fixed_spec(4))
    &&& is_number(m.peak_spread_pct.fixed_spec(2))
    &&& is_number(m.bandwidth_spread_pct.fixed_spec(2))
}

/// The same of a point.
pub open spec fn json_point<S: Measure>(p: Point<S>) -> bool {
    &&& is_text(p.kernel@)
    &&& is_number(p.gflops.fixed_spec(4))
    &&& is_number(p.intensity.fixed_spec(4))
    &&& is_number(p.median_secs.fixed_spec(9))
    &&& is_number(p.spread_pct.fixed_spec(2))
}

/// The quote around a value, where it has one.
spec fn mark(v: Value) -> Seq<char> {
    if v is Text {
        seq!['"']
    } else {
        Seq::empty()
    }
}

/// The value without its quotes.
spec fn bare(v: Value) -> Seq<char> {
    match v {
        Value::Text(s) => s,
        Value::Number(s) => s,
        _ => Seq::empty(),
    }
}

/// What stands between two fields of a record.
spec fn seam(keys: Seq<Seq<char>>, values: Seq<Value>, k: int) -> Seq<char> {
    mark(values[k - 1]) + ", \""@ + keys[k] + "\": "@ + mark(values[k])
}

/// The texts between the fields are those of a record that begins after `pre`.
spec fn frames(
    lits: Seq<Seq<char>>,
    pre: Seq<char>,
    keys: Seq<Seq<char>>,
    values: Seq<Value>,
) -> bool {
    let n = keys.len() as int;
    &&& 0 < n
    &&& values.len() == n
    &&& lits.len() == n + 1
    &&& lits[0] == pre + "{ \""@ + keys[0] + "\": "@ + mark(values[0])
    &&& forall|k: int| 0 < k < n ==> #[trigger] lits[k] == seam(keys, values, k)
    &&& lits[n] == mark(values[n - 1]) + " }"@
    &&& forall|k: int| 0 <= k < n ==> (#[trigger] values[k]) is Text || values[k] is Number
}

/// Regrouping four texts.
proof fn lemma_regroup(a: Seq<char>, b: Seq<char>, c: Seq<char>, d: Seq<char>)
    ensures
        (a + b) + (c + d) == a + (b + (c + d)),
        (a + b) + c == a + (b + c),
        a + ((b + c) + d) == a + (b + (c + d)),
{
    assert((a + b) + (c + d) =~= a + (b + (c + d)));
    assert((a + b) + c =~= a + (b + c));
    assert(a + ((b + c) + d) =~= a + (b + (c + d)));
}

/// What stands before the quote of a value: a blank, its key and another blank.
spec fn label(key: Seq<char>) -> Seq<char> {
    seq![' '] + (quoted(key) + seq![':', ' '])
}

/// What opens the record, or parts it from the field before.
spec fn joint(pre: Seq<char>, values: Seq<Value>, i: int) -> Seq<char> {
    if i == 0 {
        pre + seq!['{']
    } else {
        mark(values[i - 1]) + seq![',']
    }
}

proof fn lemma_frame(
    lits: Seq<Seq<char>>,
    pre: Seq<char>,
    keys: Seq<Seq<char>>,
    values: Seq<Value>,
    i: int,
)
    requires
        frames(lits, pre, keys, values),
        0 <= i < keys.len(),
    ensures
        lits[i] == joint(pre, values, i) + (label(keys[i]) + mark(values[i])),
{
    reveal_strlit("{ \"");
    reveal_strlit(", \"");
    reveal_strlit("\": ");
    let (k, m) = (keys[i], mark(values[i]));
    if i == 0 {
        assert(pre + "{ \""@ + k + "\": "@ + m =~= pre + seq!['{'] + (label(k) + m));
    } else {
        let b = mark(values[i - 1]);
        assert(lits[i] == seam(keys, values, i));
        assert(b + ", \""@ + k + "\": "@ + m =~= b + seq![','] + (label(k) + m));
    }
}

/// A member of a record: its label, its value in its marks, and what follows.
proof fn lemma_member(key: Seq<char>, v: Value, after: Seq<char>)
    requires
        v is Text || v is Number,
    ensures
        member_text(
            Member {
                before: seq![' '],
                key,
                after: Seq::empty(),
                element: Element { before: seq![' '], value: v, after },
            },
        ) == label(key) + (mark(v) + (bare(v) + (mark(v) + after))),
{
    let shown = value_text(v);
    assert(shown =~= mark(v) + (bare(v) + mark(v)));
    assert(shown + after =~= mark(v) + (bare(v) + (mark(v) + after)));
    let inner = shown + after;
    assert(seq![' '] + (quoted(key) + (Seq::<char>::empty() + (seq![':'] + (seq![' '] + inner))))
        =~= label(key) + inner);
}

/// A line whose texts frame a record is the text of that record.
proof fn lemma_record(
    lits: Seq<Seq<char>>,
    pre: Seq<char>,
    keys: Seq<Seq<char>>,
    values: Seq<Value>,
    fs: Seq<Seq<char>>,
    i: int,
    rest: Seq<char>,
)
    requires
        frames(lits, pre, keys, values),
        fs.len() == keys.len(),
        forall|k: int| 0 <= k < fs.len() ==> #[trigger] fs[k] == bare(values[k]),
        0 <= i < keys.len(),
    ensures
        line(lits, fs, i, rest) == joint(pre, values, i) + (members_text(
            record(keys, values)->Object_1,
            i,
        ) + (seq!['}'] + rest)),
    decreases keys.len() - i,
{
    let members = record(keys, values)->Object_1;
    let n = keys.len() as int;
    let v = values[i];
    let m = members[i];
    let after = m.element.after;
    let behind = seq!['}'] + rest;
    let tail = line(lits, fs, i + 1, rest);
    let (open, name, q, x) = (joint(pre, values, i), label(keys[i]), mark(v), bare(v));
    assert(v is Text || v is Number);
    assert(fs[i] == x);
    lemma_frame(lits, pre, keys, values, i);
    lemma_member(keys[i], v, after);
    assert(line(lits, fs, i, rest) == (open + (name + q)) + (x + tail));
    // The field's own text, and then what follows it.
    lemma_regroup(open, name + q, x, tail);
    lemma_regroup(name, q, x, tail);
    assert(line(lits, fs, i, rest) == open + (name + (q + (x + tail))));
    if i + 1 == n {
        reveal_strlit(" }");
        assert(tail == lits[n] + rest);
        assert(tail =~= (q + after) + behind);
        assert(members_text(members, i) =~= member_text(m));
        lemma_tail(name, q, x, q + after, behind);
    } else {
        lemma_record(lits, pre, keys, values, fs, i + 1, rest);
        let next = members_text(members, i + 1);
        assert(tail == (q + seq![',']) + (next + behind));
        assert(tail =~= (q + after) + ((seq![','] + next) + behind));
        assert(members_text(members, i) == member_text(m) + (seq![','] + next));
        lemma_tail(name, q, x, q + after, (seq![','] + next) + behind);
        lemma_regroup(member_text(m), seq![','] + next, behind, Seq::empty());
    }
}

/// Regrouping a member and what follows it.
proof fn lemma_tail(
    name: Seq<char>,
    q: Seq<char>,
    x: Seq<char>,
    end: Seq<char>,
    behind: Seq<char>,
)
    ensures
        name + (q + (x + (end + behind))) == (name + (q + (x + end))) + behind,
{
    assert(name + (q + (x + (end + behind))) =~= (name + (q + (x + end))) + behind);
}

/// The texts of a point's line frame its record.
proof fn lemma_point_frames<S: Measure>(p: Point<S>)
    ensures
        frames(
            views(POINT_LITS@),
            "    "@,
            point_keys(),
            point_parts(p),
        ),
{
    reveal_strlit("    { \"kernel\": \"");
    reveal_strlit("\", \"n\": ");
    reveal_strlit(", \"mask\": \"");
    reveal_strlit("\", \"gflops\": ");
    reveal_strlit(", \"intensity_flop_per_byte\": ");
    reveal_strlit(", \"median_secs\": ");
    reveal_strlit(", \"spread_pct\": ");
    reveal_strlit(" }");
    reveal_strlit("kernel");
    reveal_strlit("n");
    reveal_strlit("mask");
    reveal_strlit("gflops");
    reveal_strlit("intensity_flop_per_byte");
    reveal_strlit("median_secs");
    reveal_strlit("spread_pct");
    reveal_strlit("{ \"");
    reveal_strlit(", \"");
    reveal_strlit("\": ");
    reveal_strlit("    ");
    let none = Seq::<char>::empty();
    assert("    { \"kernel\": \""@ =~= "    "@ + "{ \""@ + "kernel"@ + "\": "@ + seq!['"']);
    assert("\", \"n\": "@ =~= seq!['"'] + ", \""@ + "n"@ + "\": "@ + none);
    assert(", \"mask\": \""@ =~= none + ", \""@ + "mask"@ + "\": "@ + seq!['"']);
    assert("\", \"gflops\": "@ =~= seq!['"'] + ", \""@ + "gflops"@ + "\": "@ + none);
    assert(", \"intensity_flop_per_byte\": "@ =~= none + ", \""@ + "intensity_flop_per_byte"@ + "\": "@ + none);
    assert(", \"median_secs\": "@ =~= none + ", \""@ + "median_secs"@ + "\": "@ + none);
    assert(", \"spread_pct\": "@ =~= none + ", \""@ + "spread_pct"@ + "\": "@ + none);
    assert(" }"@ =~= none + " }"@);
    let (lits, keys, values) = (views(POINT_LITS@), point_keys(), point_parts(p));
    assert forall|k: int| 0 < k < 7 implies #[trigger] lits[k] == seam(keys, values, k) by {
        assert(k == 1 || k == 2 || k == 3 || k == 4 || k == 5 || k == 6);
    }
    assert forall|k: int| 0 <= k < 7 implies (#[trigger] values[k]) is Text || values[k]
        is Number by {
        assert(k == 0 || k == 1 || k == 2 || k == 3 || k == 4 || k == 5 || k == 6);
    }
}

/// The texts of a machine's line.
spec fn machine_lits<S: Measure>(m: Machine<S>) -> Seq<Seq<char>> {
    Seq::new(
        8,
        |i: int|
            if i < 7 {
                machine_pieces(m)[2 * i]
            } else {
                " }"@
            },
    )
}

/// They frame its record.
proof fn lemma_machine_frames<S: Measure>(m: Machine<S>)
    ensures
        frames(
            machine_lits(m),
            "  \"machine\": "@,
            machine_keys(),
            machine_parts(m),
        ),
{
    reveal_strlit("  \"machine\": { \"arch\": \"");
    reveal_strlit("\", \"isa\": \"");
    reveal_strlit("\", \"peak_gflops\": ");
    reveal_strlit(", \"bandwidth_gbs\": ");
    reveal_strlit(", \"ridge_flop_per_byte\": ");
    reveal_strlit(", \"peak_spread_pct\": ");
    reveal_strlit(", \"bandwidth_spread_pct\": ");
    reveal_strlit(" }");
    reveal_strlit("arch");
    reveal_strlit("isa");
    reveal_strlit("peak_gflops");
    reveal_strlit("bandwidth_gbs");
    reveal_strlit("ridge_flop_per_byte");
    reveal_strlit("peak_spread_pct");
    reveal_strlit("bandwidth_spread_pct");
    reveal_strlit("{ \"");
    reveal_strlit(", \"");
    reveal_strlit("\": ");
    reveal_strlit("  \"machine\": ");
    let none = Seq::<char>::empty();
    assert("  \"machine\": { \"arch\": \""@ =~= "  \"machine\": "@ + "{ \""@ + "arch"@ + "\": "@ + seq!['"']);
    assert("\", \"isa\": \""@ =~= seq!['"'] + ", \""@ + "isa"@ + "\": "@ + seq!['"']);
    assert("\", \"peak_gflops\": "@ =~= seq!['"'] + ", \""@ + "peak_gflops"@ + "\": "@ + none);
    assert(", \"bandwidth_gbs\": "@ =~= none + ", \""@ + "bandwidth_gbs"@ + "\": "@ + none);
    assert(", \"ridge_flop_per_byte\": "@ =~= none + ", \""@ + "ridge_flop_per_byte"@ + "\": "@ + none);
    assert(", \"peak_spread_pct\": "@ =~= none + ", \""@ + "peak_spread_pct"@ + "\": "@ + none);
    assert(", \"bandwidth_spread_pct\": "@ =~= none + ", \""@ + "bandwidth_spread_pct"@ + "\": "@ + none);
    assert(" }"@ =~= none + " }"@);
    let (lits, keys, values) = (machine_lits(m), machine_keys(), machine_parts(m));
    assert forall|k: int| 0 < k < 7 implies #[trigger] lits[k] == seam(keys, values, k) by {
        assert(k == 1 || k == 2 || k == 3 || k == 4 || k == 5 || k == 6);
    }
    assert forall|k: int| 0 <= k < 7 implies (#[trigger] values[k]) is Text || values[k]
        is Number by {
        assert(k == 0 || k == 1 || k == 2 || k == 3 || k == 4 || k == 5 || k == 6);
    }
}

/// An object's text, with what follows it.
proof fn lemma_braces(members: Seq<Member>, rest: Seq<char>)
    requires
        members.len() > 0,
    ensures
        value_text(Value::Object(Seq::empty(), members)) + rest == seq!['{'] + (members_text(
            members,
            0,
        ) + (seq!['}'] + rest)),
{
    let (a, b, c) = (seq!['{'], members_text(members, 0), seq!['}']);
    assert((a + (b + c)) + rest =~= a + (b + (c + rest)));
}

/// A machine's line is its key, its record, and a comma.
proof fn lemma_machine_text<S: Measure>(m: Machine<S>, rest: Seq<char>)
    ensures
        cat_spec(machine_pieces(m)) + rest == "  \"machine\": "@ + (value_text(machine_value(m)) + (
        ",\n"@ + rest)),
{
    let pieces = machine_pieces(m);
    let lits = machine_lits(m);
    let values = machine_parts(m);
    let fs = Seq::new(7, |i: int| pieces[2 * i + 1]);
    reveal_strlit(" }");
    reveal_strlit(" },\n");
    reveal_strlit(",\n");
    assert(" },\n"@ =~= " }"@ + ",\n"@);
    assert forall|k: int| 0 <= k < fs.len() implies pieces[2 * k] == lits[k] && #[trigger] fs[k]
        == pieces[2 * k + 1] by {}
    assert forall|k: int| 0 <= k < fs.len() implies #[trigger] fs[k] == bare(values[k]) by {
        assert(k == 0 || k == 1 || k == 2 || k == 3 || k == 4 || k == 5 || k == 6);
    }
    lemma_cat(pieces);
    lemma_woven(pieces, lits, fs, ",\n"@, rest, 0);
    lemma_machine_frames(m);
    lemma_record(lits, "  \"machine\": "@, machine_keys(), values, fs, 0, ",\n"@ + rest);
    let members = record(machine_keys(), values)->Object_1;
    lemma_braces(members, ",\n"@ + rest);
    lemma_regroup(
        "  \"machine\": "@,
        seq!['{'],
        members_text(members, 0),
        seq!['}'] + (",\n"@ + rest),
    );
}

/// A point's line is its record, a comma unless it is the last, and the end of
/// the line.
proof fn lemma_point_text<S: Measure>(p: Point<S>, last: bool, rest: Seq<char>)
    ensures
        cat_spec(point_pieces(p, last)) + rest == "    "@ + (value_text(point_value(p)) + ((if last {
            "\n"@
        } else {
            ",\n"@
        }) + rest)),
{
    let end = (if last {
        "\n"@
    } else {
        ",\n"@
    }) + rest;
    let values = point_parts(p);
    let fs = row_fields(p);
    assert forall|k: int| 0 <= k < fs.len() implies #[trigger] fs[k] == bare(values[k]) by {
        assert(k == 0 || k == 1 || k == 2 || k == 3 || k == 4 || k == 5 || k == 6);
    }
    lemma_point_line(p, last, rest);
    lemma_point_frames(p);
    lemma_record(views(POINT_LITS@), "    "@, point_keys(), values, fs, 0, end);
    let members = record(point_keys(), values)->Object_1;
    lemma_braces(members, end);
    lemma_regroup("    "@, seq!['{'], members_text(members, 0), seq!['}'] + end);
}

/// The lines of the points from `i` on, and the end of the list, are its items.
proof fn lemma_items<S: Measure>(pts: Seq<Point<S>>, i: int, rest: Seq<char>)
    requires
        0 <= i < pts.len(),
    ensures
        "\n"@ + (lines_from(pts, i) + ("  "@ + rest)) == items_text(point_items(pts), i) + rest,
    decreases pts.len() - i,
{
    reveal_strlit("\n");
    reveal_strlit("  ");
    reveal_strlit("    ");
    reveal_strlit("\n    ");
    reveal_strlit("\n  ");
    reveal_strlit(",\n");
    let items = point_items(pts);
    let last = i + 1 == pts.len();
    let v = value_text(point_value(pts[i]));
    let below = lines_from(pts, i + 1) + ("  "@ + rest);
    let one = cat_spec(point_pieces(pts[i], last));
    assert("\n    "@ =~= "\n"@ + "    "@);
    lemma_regroup(one, lines_from(pts, i + 1), "  "@ + rest, Seq::empty());
    lemma_point_text(pts[i], last, below);
    assert(element_text(items[i]) == "\n    "@ + (v + items[i].after));
    if last {
        assert(below =~= "  "@ + rest);
        assert("\n  "@ =~= "\n"@ + "  "@);
        assert(items_text(items, i) =~= element_text(items[i]));
        assert("\n"@ + ("    "@ + (v + ("\n"@ + ("  "@ + rest)))) =~= ("\n    "@ + (v + "\n  "@))
            + rest);
    } else {
        lemma_items(pts, i + 1, rest);
        let next = items_text(items, i + 1);
        assert("\n"@ + below == next + rest);
        assert(",\n"@ + below =~= seq![','] + ("\n"@ + below));
        assert(v + Seq::<char>::empty() =~= v);
        assert("\n"@ + ("    "@ + (v + (seq![','] + (next + rest)))) =~= (("\n    "@ + v) + (seq![
            ','
        ] + next)) + rest);
    }
}

/// The list of the points, with what follows it.
proof fn lemma_list<S: Measure>(pts: Seq<Point<S>>, rest: Seq<char>)
    ensures
        "[\n"@ + (points_spec(pts, pts.len()) + ("  "@ + (seq![']'] + rest))) == value_text(
            Value::List("\n  "@, point_items(pts)),
        ) + rest,
{
    reveal_strlit("[\n");
    reveal_strlit("\n");
    reveal_strlit("  ");
    reveal_strlit("\n  ");
    let lines = points_spec(pts, pts.len());
    let behind = seq![']'] + rest;
    let items = point_items(pts);
    assert("[\n"@ =~= seq!['['] + "\n"@);
    lemma_regroup(seq!['['], "\n"@, lines, "  "@ + behind);
    if pts.len() == 0 {
        assert("\n"@ + (lines + ("  "@ + behind)) =~= "\n  "@ + behind);
        lemma_list_end("\n  "@, rest);
    } else {
        lemma_lines(pts, 0);
        assert(Seq::<char>::empty() + lines_from(pts, 0) =~= lines_from(pts, 0));
        lemma_items(pts, 0, behind);
        lemma_list_end(items_text(items, 0), rest);
    }
}

/// Regrouping the inside of a list and what follows it.
proof fn lemma_list_end(inside: Seq<char>, rest: Seq<char>)
    ensures
        seq!['['] + (inside + (seq![']'] + rest)) == (seq!['['] + (inside + seq![']'])) + rest,
{
    assert(seq!['['] + (inside + (seq![']'] + rest)) =~= (seq!['['] + (inside + seq![']'])) + rest);
}

/// A member on a line of its own, with what follows it.
proof fn lemma_entry(key: Seq<char>, value: Value, after: Seq<char>, rest: Seq<char>)
    ensures
        member_text(entry(key, value, after)) + rest == "\n  "@ + (quoted(key) + (seq![':', ' '] + (
        value_text(value) + (after + rest)))),
{
    let (a, k, v) = ("\n  "@, quoted(key), value_text(value));
    assert((a + (k + (Seq::<char>::empty() + (seq![':'] + (seq![' '] + (v + after)))))) + rest =~= a
        + (k + (seq![':', ' '] + (v + (after + rest)))));
}

/// The members of a dataset, one line after another.
proof fn lemma_document<S: Measure>(m: Machine<S>, pts: Seq<Point<S>>)
    ensures
        element_text(document(m, pts)) == seq!['{'] + ("\n  "@ + (quoted("machine"@) + (seq![
            ':',
            ' ',
        ] + (value_text(machine_value(m)) + (seq![','] + ("\n  "@ + (quoted("head_dim"@) + (seq![
            ':',
            ' ',
        ] + (decimal_spec(HEAD_DIM as nat) + (seq![','] + ("\n  "@ + (quoted("points"@) + (seq![
            ':',
            ' ',
        ] + (value_text(Value::List("\n  "@, point_items(pts))) + ("\n"@ + (seq!['}']
            + "\n"@)))))))))))))))),
{
    let none = Seq::<char>::empty();
    let members = document(m, pts).value->Object_1;
    let (a, b, c) = (member_text(members[0]), member_text(members[1]), member_text(members[2]));
    let end = seq!['}'] + "\n"@;
    assert(members_text(members, 2) =~= c);
    assert(members_text(members, 1) == b + (seq![','] + c));
    assert(members_text(members, 0) == a + (seq![','] + (b + (seq![','] + c))));
    assert(none + ((seq!['{'] + ((a + (seq![','] + (b + (seq![','] + c)))) + seq!['}'])) + "\n"@)
        =~= seq!['{'] + (a + (seq![','] + (b + (seq![','] + (c + end))))));
    let list = Value::List("\n  "@, point_items(pts));
    lemma_entry("points"@, list, "\n"@, end);
    lemma_dim();
    let dim = Value::Number("64"@);
    lemma_entry("head_dim"@, dim, none, seq![','] + (c + end));
    assert(none + (seq![','] + (c + end)) =~= seq![','] + (c + end));
    let more = seq![','] + (b + (seq![','] + (c + end)));
    lemma_entry("machine"@, machine_value(m), none, more);
    assert(none + more =~= more);
}

/// The head dimension in decimal.
proof fn lemma_dim()
    ensures
        decimal_spec(HEAD_DIM as nat) == "64"@,
{
    reveal_strlit("64");
    reveal_with_fuel(decimal_spec, 3);
    assert(decimal_spec(64) =~= "64"@);
}

/// A written dataset is the text of [`document`].
proof fn lemma_dataset_text<S: Measure>(m: Machine<S>, pts: Seq<Point<S>>)
    ensures
        element_text(document(m, pts)) == json_spec(m, pts),
{
    let dim = decimal_spec(HEAD_DIM as nat);
    let lines = points_spec(pts, pts.len());
    let list = value_text(Value::List("\n  "@, point_items(pts)));
    let machine = value_text(machine_value(m));
    let end = "\n"@ + (seq!['}'] + "\n"@);
    let whole = seq![
        "{\n"@,
        cat_spec(machine_pieces(m)),
        "  \"head_dim\": "@,
        dim,
        ",\n  \"points\": [\n"@,
        lines,
        "  ]\n}\n"@,
    ];
    lemma_cat(whole);
    reveal_with_fuel(tail_of, 8);
    assert(tail_of(whole, 7) == Seq::<char>::empty());
    assert("  ]\n}\n"@ + Seq::<char>::empty() =~= "  ]\n}\n"@);
    reveal_strlit("{\n");
    reveal_strlit("  \"machine\": ");
    reveal_strlit(",\n");
    reveal_strlit("  \"head_dim\": ");
    reveal_strlit(",\n  \"points\": [\n");
    reveal_strlit("[\n");
    reveal_strlit("  ]\n}\n");
    reveal_strlit("\n");
    reveal_strlit("  ");
    reveal_strlit("\n  ");
    reveal_strlit("machine");
    reveal_strlit("head_dim");
    reveal_strlit("points");
    // The list.
    assert("  ]\n}\n"@ =~= "  "@ + (seq![']'] + end));
    lemma_list(pts, end);
    let points = seq![','] + ("\n  "@ + (quoted("points"@) + seq![':', ' ']));
    assert(",\n  \"points\": [\n"@ =~= points + "[\n"@);
    lemma_regroup(points, "[\n"@, lines, "  ]\n}\n"@);
    let third = points + (list + end);
    // The head dimension.
    let second = "  \"head_dim\": "@ + (dim + third);
    lemma_machine_text(m, second);
    assert(json_spec(m, pts) == "{\n"@ + ("  \"machine\": "@ + (machine + (",\n"@ + second))));
    // The same from the other side.
    lemma_document(m, pts);
    let colon = seq![':', ' '];
    let tail3 = seq![','] + ("\n  "@ + (quoted("points"@) + (colon + (list + end))));
    assert(tail3 =~= third);
    let tail2 = seq![','] + ("\n  "@ + (quoted("head_dim"@) + (colon + (dim + tail3))));
    assert(",\n"@ =~= seq![','] + "\n"@ && "{\n"@ =~= seq!['{'] + "\n"@);
    assert("  \"head_dim\": "@ =~= "  "@ + (quoted("head_dim"@) + colon));
    assert("  \"machine\": "@ =~= "  "@ + (quoted("machine"@) + colon));
    lemma_key_line(",\n"@, "  \"head_dim\": "@, seq![','], "head_dim"@, dim + tail3);
    assert(tail2 == ",\n"@ + second);
    lemma_key_line("{\n"@, "  \"machine\": "@, seq!['{'], "machine"@, machine + tail2);
}

/// A key on a line of its own: the line break goes to what stands before.
proof fn lemma_key_line(
    a: Seq<char>,
    b: Seq<char>,
    lead: Seq<char>,
    key: Seq<char>,
    rest: Seq<char>,
)
    requires
        a == lead + "\n"@,
        b == "  "@ + (quoted(key) + seq![':', ' ']),
    ensures
        a + (b + rest) == lead + ("\n  "@ + (quoted(key) + (seq![':', ' '] + rest))),
{
    reveal_strlit("\n");
    reveal_strlit("  ");
    reveal_strlit("\n  ");
    assert("\n  "@ =~= "\n"@ + "  "@);
    let q = quoted(key);
    assert((lead + "\n"@) + (("  "@ + (q + seq![':', ' '])) + rest) =~= lead + (("\n"@ + "  "@) + (q
        + (seq![':', ' '] + rest))));
}

/// A record of well-formed parts is well-formed.
proof fn lemma_record_ok(keys: Seq<Seq<char>>, values: Seq<Value>)
    requires
        values.len() == keys.len(),
        forall|i: int| 0 <= i < keys.len() ==> is_text(#[trigger] keys[i]),
        forall|i: int| 0 <= i < values.len() ==> value_ok(#[trigger] values[i]),
    ensures
        value_ok(record(keys, values)),
{
    let members = record(keys, values)->Object_1;
    assert forall|i: int| 0 <= i < members.len() implies member_ok(#[trigger] members[i]) by {
        assert(is_text(keys[i]) && value_ok(values[i]));
        assert(element_ok(members[i].element));
    }
}

/// A dataset of texts and numbers is well-formed.
proof fn lemma_document_ok<S: Measure>(m: Machine<S>, pts: Seq<Point<S>>)
    requires
        json_machine(m),
        forall|i: int| 0 <= i < pts.len() ==> json_point(#[trigger] pts[i]),
    ensures
        element_ok(document(m, pts)),
{
    reveal_strlit("\n    ");
    reveal_strlit("\n  ");
    reveal_strlit("\n");
    lemma_keys_are_text();
    let values = machine_parts(m);
    assert forall|i: int| 0 <= i < values.len() implies value_ok(#[trigger] values[i]) by {
        assert(i == 0 || i == 1 || i == 2 || i == 3 || i == 4 || i == 5 || i == 6);
    }
    lemma_record_ok(machine_keys(), values);
    let items = point_items(pts);
    assert forall|i: int| 0 <= i < items.len() implies element_ok(#[trigger] items[i]) by {
        let p = pts[i];
        assert(json_point(p));
        let values = point_parts(p);
        decimals_are_numbers(p.n as nat, Seq::empty());
        assert forall|k: int| 0 <= k < values.len() implies value_ok(#[trigger] values[k]) by {
            assert(k == 0 || k == 1 || k == 2 || k == 3 || k == 4 || k == 5 || k == 6);
        }
        lemma_record_ok(point_keys(), values);
    }
    lemma_dim();
    decimals_are_numbers(HEAD_DIM as nat, Seq::empty());
    let members = document(m, pts).value->Object_1;
    let list = Value::List("\n  "@, items);
    assert(value_ok(list));
    assert forall|i: int| 0 <= i < members.len() implies member_ok(#[trigger] members[i]) by {
        assert(i == 0 || i == 1 || i == 2);
        assert(element_ok(members[i].element));
    }
}

/// The keys and the names of the masks need no escapes.
proof fn lemma_keys_are_text()
    ensures
        forall|i: int| 0 <= i < 7 ==> is_text(#[trigger] machine_keys()[i]),
        forall|i: int| 0 <= i < 7 ==> is_text(#[trigger] point_keys()[i]),
        is_text("machine"@),
        is_text("head_dim"@),
        is_text("points"@),
        is_text(mask_spec(true)),
        is_text(mask_spec(false)),
{
    reveal_strlit("arch");
    plain_characters_are_text("arch"@);
    reveal_strlit("isa");
    plain_characters_are_text("isa"@);
    reveal_strlit("peak_gflops");
    plain_characters_are_text("peak_gflops"@);
    reveal_strlit("bandwidth_gbs");
    plain_characters_are_text("bandwidth_gbs"@);
    reveal_strlit("ridge_flop_per_byte");
    plain_characters_are_text("ridge_flop_per_byte"@);
    reveal_strlit("peak_spread_pct");
    plain_characters_are_text("peak_spread_pct"@);
    reveal_strlit("bandwidth_spread_pct");
    plain_characters_are_text("bandwidth_spread_pct"@);
    reveal_strlit("kernel");
    plain_characters_are_text("kernel"@);
    reveal_strlit("n");
    plain_characters_are_text("n"@);
    reveal_strlit("mask");
    plain_characters_are_text("mask"@);
    reveal_strlit("gflops");
    plain_characters_are_text("gflops"@);
    reveal_strlit("intensity_flop_per_byte");
    plain_characters_are_text("intensity_flop_per_byte"@);
    reveal_strlit("median_secs");
    plain_characters_are_text("median_secs"@);
    reveal_strlit("spread_pct");
    plain_characters_are_text("spread_pct"@);
    reveal_strlit("machine");
    plain_characters_are_text("machine"@);
    reveal_strlit("head_dim");
    plain_characters_are_text("head_dim"@);
    reveal_strlit("points");
    plain_characters_are_text("points"@);
    reveal_strlit("causal");
    plain_characters_are_text("causal"@);
    reveal_strlit("full");
    plain_characters_are_text("full"@);
    assert forall|i: int| 0 <= i < 7 implies is_text(#[trigger] machine_keys()[i]) && is_text(
        point_keys()[i],
    ) by {
        assert(i == 0 || i == 1 || i == 2 || i == 3 || i == 4 || i == 5 || i == 6);
    }
    assert forall|i: int| 0 <= i < 7 implies is_text(#[trigger] point_keys()[i]) by {
        assert(is_text(machine_keys()[i]) && is_text(point_keys()[i]));
    }
}

/// A written dataset is one JSON object with the keys `machine`, `head_dim` and
/// `points`, in this order. Its points are a list of as many objects as there are
/// points, in their order, and an empty list where there are none.
pub proof fn written_datasets_are_json<S: Measure>(m: Machine<S>, pts: Seq<Point<S>>)
    requires
        json_machine(m),
        forall|i: int| 0 <= i < pts.len() ==> json_point(#[trigger] pts[i]),
    ensures
        is_json(json_spec(m, pts)),
        element_ok(document(m, pts)),
        element_text(document(m, pts)) == json_spec(m, pts),
        document(m, pts).value is Object,
        keys_of(document(m, pts).value) == seq!["machine"@, "head_dim"@, "points"@],
        parts_of(document(m, pts).value) == seq![
            machine_value(m),
            Value::Number("64"@),
            Value::List("\n  "@, point_items(pts)),
        ],
        keys_of(machine_value(m)) == machine_keys(),
        parts_of(machine_value(m)) == machine_parts(m),
        parts_of(Value::List("\n  "@, point_items(pts))) == Seq::new(
            pts.len(),
            |i: int| point_value(pts[i]),
        ),
        forall|i: int|
            0 <= i < pts.len() ==> keys_of(#[trigger] point_value(pts[i])) == point_keys()
                && parts_of(point_value(pts[i])) == point_parts(pts[i]),
{
    lemma_dataset_text(m, pts);
    lemma_document_ok(m, pts);
    assert(element_text(document(m, pts)) == json_spec(m, pts));
    let whole = document(m, pts).value;
    assert(keys_of(whole) =~= seq!["machine"@, "head_dim"@, "points"@]);
    assert(parts_of(whole) =~= seq![
        machine_value(m),
        Value::Number("64"@),
        Value::List("\n  "@, point_items(pts)),
    ]);
    assert(keys_of(machine_value(m)) =~= machine_keys());
    assert(parts_of(machine_value(m)) =~= machine_parts(m));
    assert(parts_of(Value::List("\n  "@, point_items(pts))) =~= Seq::new(
        pts.len(),
        |i: int| point_value(pts[i]),
    ));
    assert forall|i: int| 0 <= i < pts.len() implies keys_of(#[trigger] point_value(pts[i]))
        == point_keys() && parts_of(point_value(pts[i])) == point_parts(pts[i]) by {
        assert(keys_of(point_value(pts[i])) =~= point_keys());
        assert(parts_of(point_value(pts[i])) =~= point_parts(pts[i]));
    }
}

/// The dataset that is written of a machine and its points is the JSON text of
/// [`document`], whose parts are their fields.
pub proof fn datasets_are_written_as_json<S: Measure>(
    m: &Machine<S>,
    pts: &[Point<S>],
    text: String,
)
    requires
        call_ensures(to_json::<S>, (m, pts), text),
        json_machine(*m),
        forall|i: int| 0 <= i < pts@.len() ==> json_point(#[trigger] pts@[i]),
    ensures
        is_json(text@),
        element_ok(document(*m, pts@)),
        text@ == element_text(document(*m, pts@)),
{
    written_datasets_are_json(*m, pts@);
}

/// Reading what was written gives back the machine and the points as they were
/// written: the same names, lengths and masks, in the same order, and the numbers
/// that their texts stand for.
pub proof fn written_datasets_come_back<S: Measure>(
    m: &Machine<S>,
    pts: &[Point<S>],
    text: String,
    s: &str,
    back: Option<(Machine<S>, Vec<Point<S>>)>,
    i: int,
)
    requires
        call_ensures(to_json::<S>, (m, pts), text),
        s@ == text@,
        call_ensures(from_json::<S>, (s,), back),
        plain_machine(*m),
        legible_machine(*m),
        forall|k: int|
            0 <= k < pts@.len() ==> plain_point(#[trigger] pts@[k]) && legible_point(pts@[k]),
    ensures
        back matches Some((m2, pts2)) && {
            &&& m2.arch@ == m.arch@
            &&& m2.isa@ == m.isa@
            &&& S::parse_spec(m.peak_gflops.fixed_spec(3)) == Some(m2.peak_gflops)
            &&& S::parse_spec(m.bandwidth_gbs.fixed_spec(3)) == Some(m2.bandwidth_gbs)
            &&& S::parse_spec(m.peak_spread_pct.fixed_spec(2)) == Some(m2.peak_spread_pct)
            &&& S::parse_spec(m.bandwidth_spread_pct.fixed_spec(2)) == Some(
                m2.bandwidth_spread_pct,
            )
            &&& pts2@.len() == pts@.len()
            &&& 0 <= i < pts@.len() ==> {
                let (p, p2) = (pts@[i], pts2@[i]);
                &&& p2.kernel@ == p.kernel@
                &&& p2.n == p.n
                &&& p2.causal == p.causal
                &&& S::parse_spec(p.gflops.fixed_spec(4)) == Some(p2.gflops)
                &&& S::parse_spec(p.intensity.fixed_spec(4)) == Some(p2.intensity)
                &&& S::parse_spec(p.median_secs.fixed_spec(9)) == Some(p2.median_secs)
                &&& S::parse_spec(p.spread_pct.fixed_spec(2)) == Some(p2.spread_pct)
            }
        },
{
    written_datasets_read_back(*m, pts@);
    written_datasets_are_read(*m, pts@);
    let (m2, pts2) = back->0;
    if 0 <= i < pts@.len() {
        let p = pts@[i];
        assert(rows_of(pts@)[i] == row_fields(p));
        assert(is_point(pts2@[i], rows_of(pts@)[i]));
        decimal_reads_back(p.n as u64);
        reveal_strlit("causal");
        reveal_strlit("full");
        assert("causal"@.len() != "full"@.len());
    }
}

/// The ring's integers are written as JSON numbers, with any number of digits.
pub proof fn ring_integers_are_json_numbers(a: u64, digits: nat)
    ensures
        is_number(Ring64::Int(a).fixed_spec(digits)),
{
    let whole = decimal_spec(a as nat);
    let zeros = zeros_spec(digits);
    decimals_are_numbers(a as nat, zeros);
    if digits > 0 {
        reveal_strlit(".");
        assert(is_digits(zeros));
        let pieces = seq![whole, "."@, zeros];
        reveal_with_fuel(cat_spec, 4);
        assert(pieces.drop_last() =~= seq![whole, "."@]);
        assert(pieces.drop_last().drop_last() =~= seq![whole]);
        assert(pieces.drop_last().drop_last().drop_last() =~= Seq::empty());
        assert(cat_spec(pieces) =~= whole + (seq!['.'] + zeros));
    }
}

} // verus!
