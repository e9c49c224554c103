//! The measurements as JSON.
use crate::report::{mask_name, mask_spec};
use crate::roofline::{Machine, Point, HEAD_DIM, KERNELS};
use crate::scalar::Measure;
use crate::text::{
    cat, cat_spec, decimal, decimal_spec, eat, eat_spec, fields, fields_spec, lemma_fields_consume,
    lemma_fields_count, parse_decimal, parse_decimal_spec, same_text, views,
};
use vstd::prelude::*;
use vstd::string::*;

verus! {

/// The line that describes the machine.
pub open spec fn machine_pieces<S: Measure>(m: Machine<S>) -> Seq<Seq<char>> {
    seq![
        "  \"machine\": { \"arch\": \""@,
        m.arch@,
        "\", \"isa\": \""@,
        m.isa@,
        "\", \"peak_gflops\": "@,
        m.peak_gflops.fixed_spec(3),
        ", \"bandwidth_gbs\": "@,
        m.bandwidth_gbs.fixed_spec(3),
        ", \"ridge_flop_per_byte\": "@,
        m.ridge_spec().fixed_spec(4),
        ", \"peak_spread_pct\": "@,
        m.peak_spread_pct.fixed_spec(2),
        ", \"bandwidth_spread_pct\": "@,
        m.bandwidth_spread_pct.fixed_spec(2),
        " },\n"@,
    ]
}

/// The line of one operating point. No comma follows the last one.
pub open spec fn point_pieces<S: Measure>(p: Point<S>, last: bool) -> Seq<Seq<char>> {
    seq![
        "    { \"kernel\": \""@,
        p.kernel@,
        "\", \"n\": "@,
        decimal_spec(p.n as nat),
        ", \"mask\": \""@,
        mask_spec(p.causal),
        "\", \"gflops\": "@,
        p.gflops.fixed_spec(4),
        ", \"intensity_flop_per_byte\": "@,
        p.intensity.fixed_spec(4),
        ", \"median_secs\": "@,
        p.median_secs.fixed_spec(9),
        ", \"spread_pct\": "@,
        p.spread_pct.fixed_spec(2),
        if last {
            " }\n"@
        } else {
            " },\n"@
        },
    ]
}

/// The lines of the first `k` points.
pub open spec fn points_spec<S: Measure>(pts: Seq<Point<S>>, k: nat) -> Seq<char>
    decreases k,
{
    if k == 0 {
        Seq::empty()
    } else {
        points_spec(pts, (k - 1) as nat) + cat_spec(point_pieces(pts[k - 1], k == pts.len()))
    }
}

/// The machine and its operating points, as JSON.
pub open spec fn json_spec<S: Measure>(m: Machine<S>, pts: Seq<Point<S>>) -> Seq<char> {
    cat_spec(
        seq![
            "{\n"@,
            cat_spec(machine_pieces(m)),
            "  \"head_dim\": "@,
            decimal_spec(HEAD_DIM as nat),
            ",\n  \"points\": [\n"@,
            points_spec(pts, pts.len()),
            "  ]\n}\n"@,
        ],
    )
}

fn machine_text<S: Measure>(m: &Machine<S>) -> (r: String)
    ensures
        r@ == cat_spec(machine_pieces(*m)),
{
    let peak = m.peak_gflops.fixed(3);
    let bandwidth = m.bandwidth_gbs.fixed(3);
    let ridge = m.ridge().fixed(4);
    let peak_spread = m.peak_spread_pct.fixed(2);
    let bandwidth_spread = m.bandwidth_spread_pct.fixed(2);
    let pieces = vec![
        "  \"machine\": { \"arch\": \"",
        m.arch.as_str(),
        "\", \"isa\": \"",
        m.isa.as_str(),
        "\", \"peak_gflops\": ",
        peak.as_str(),
        ", \"bandwidth_gbs\": ",
        bandwidth.as_str(),
        ", \"ridge_flop_per_byte\": ",
        ridge.as_str(),
        ", \"peak_spread_pct\": ",
        peak_spread.as_str(),
        ", \"bandwidth_spread_pct\": ",
        bandwidth_spread.as_str(),
        " },\n",
    ];
    assert(views(pieces@) =~= machine_pieces(*m));
    cat(pieces)
}

fn point_text<S: Measure>(p: &Point<S>, last: bool) -> (r: String)
    ensures
        r@ == cat_spec(point_pieces(*p, last)),
{
    let n = decimal(p.n as u64);
    let gflops = p.gflops.fixed(4);
    let intensity = p.intensity.fixed(4);
    let median = p.median_secs.fixed(9);
    let spread = p.spread_pct.fixed(2);
    let pieces = vec![
        "    { \"kernel\": \"",
        p.kernel,
        "\", \"n\": ",
        n.as_str(),
        ", \"mask\": \"",
        mask_name(p.causal),
        "\", \"gflops\": ",
        gflops.as_str(),
        ", \"intensity_flop_per_byte\": ",
        intensity.as_str(),
        ", \"median_secs\": ",
        median.as_str(),
        ", \"spread_pct\": ",
        spread.as_str(),
        if last {
            " }\n"
        } else {
            " },\n"
        },
    ];
    assert(views(pieces@) =~= point_pieces(*p, last));
    cat(pieces)
}

/// The machine and its operating points, as JSON.
pub fn to_json<S: Measure>(m: &Machine<S>, pts: &[Point<S>]) -> (r: String)
    ensures
        r@ == json_spec(*m, pts@),
{
    let mut lines = String::new();
    let mut i: usize = 0;
    while i < pts.len()
        invariant
            i <= pts@.len(),
            lines@ == points_spec(pts@, i as nat),
        decreases pts.len() - i,
    {
        let line = point_text(&pts[i], i + 1 == pts.len());
        lines.append(line.as_str());
        i += 1;
    }
    let machine = machine_text(m);
    let dim = decimal(HEAD_DIM as u64);
    let pieces = vec![
        "{\n",
        machine.as_str(),
        "  \"head_dim\": ",
        dim.as_str(),
        ",\n  \"points\": [\n",
        lines.as_str(),
        "  ]\n}\n",
    ];
    assert(views(pieces@) =~= seq![
        "{\n"@,
        machine@,
        "  \"head_dim\": "@,
        dim@,
        ",\n  \"points\": [\n"@,
        lines@,
        "  ]\n}\n"@,
    ]);
    cat(pieces)
}

/// What stands around the fields at the start of a dataset: the machine's seven
/// and the head dimension.
pub const HEAD_LITS: [&'static str; 9] = [
    "{\n  \"machine\": { \"arch\": \"",
    "\", \"isa\": \"",
    "\", \"peak_gflops\": ",
    ", \"bandwidth_gbs\": ",
    ", \"ridge_flop_per_byte\": ",
    ", \"peak_spread_pct\": ",
    ", \"bandwidth_spread_pct\": ",
    " },\n  \"head_dim\": ",
    ",\n  \"points\": [\n",
];

/// What stands around the seven fields of a point.
pub const POINT_LITS: [&'static str; 8] = [
    "    { \"kernel\": \"",
    "\", \"n\": ",
    ", \"mask\": \"",
    "\", \"gflops\": ",
    ", \"intensity_flop_per_byte\": ",
    ", \"median_secs\": ",
    ", \"spread_pct\": ",
    " }",
];

/// The lines of a dataset's points, as fields: a comma after every line but the
/// last, and after that the end of the text.
pub open spec fn rows_spec(s: Seq<char>, rows: Seq<Seq<Seq<char>>>) -> Option<
    Seq<Seq<Seq<char>>>,
>
    decreases s.len(),
{
    match fields_spec(s, views(POINT_LITS@), Seq::empty()) {
        None => None,
        Some((row, rest)) => match eat_spec(rest, ",\n"@) {
            Some(next) => {
                proof {
                    lemma_fields_consume(s, views(POINT_LITS@), Seq::empty());
                    reveal_strlit(",\n");
                }
                rows_spec(next, rows.push(row))
            },
            None => if rest == "\n  ]\n}\n"@ {
                Some(rows.push(row))
            } else {
                None
            },
        },
    }
}

/// A dataset as fields: those of its start, and those of each point.
pub open spec fn dataset_spec(s: Seq<char>) -> Option<
    (Seq<Seq<char>>, Seq<Seq<Seq<char>>>),
> {
    match fields_spec(s, views(HEAD_LITS@), Seq::empty()) {
        None => None,
        Some((head, rest)) => if rest == "  ]\n}\n"@ {
            Some((head, Seq::empty()))
        } else {
            match rows_spec(rest, Seq::empty()) {
                None => None,
                Some(rows) => Some((head, rows)),
            }
        },
    }
}

/// The fields of a machine all mean something, and the head dimension is the one
/// that the figure is about.
pub open spec fn head_means<S: Measure>(f: Seq<Seq<char>>) -> bool {
    &&& S::parse_spec(f[2]) is Some
    &&& S::parse_spec(f[3]) is Some
    &&& S::parse_spec(f[5]) is Some
    &&& S::parse_spec(f[6]) is Some
    &&& f[7] == decimal_spec(HEAD_DIM as nat)
}

/// `m` is the machine with these fields. The ridge is not among what it holds:
/// it follows from the ceilings.
pub open spec fn is_machine<S: Measure>(m: Machine<S>, f: Seq<Seq<char>>) -> bool {
    &&& m.arch@ == f[0]
    &&& m.isa@ == f[1]
    &&& S::parse_spec(f[2]) == Some(m.peak_gflops)
    &&& S::parse_spec(f[3]) == Some(m.bandwidth_gbs)
    &&& S::parse_spec(f[5]) == Some(m.peak_spread_pct)
    &&& S::parse_spec(f[6]) == Some(m.bandwidth_spread_pct)
}

/// The fields of a point all mean something.
pub open spec fn row_means<S: Measure>(f: Seq<Seq<char>>) -> bool {
    &&& f[0] == KERNELS@[0]@ || f[0] == KERNELS@[1]@ || f[0] == KERNELS@[2]@
    &&& parse_decimal_spec(f[1]) matches Some(n) && n <= usize::MAX
    &&& f[2] == mask_spec(false) || f[2] == mask_spec(true)
    &&& S::parse_spec(f[3]) is Some
    &&& S::parse_spec(f[4]) is Some
    &&& S::parse_spec(f[5]) is Some
    &&& S::parse_spec(f[6]) is Some
}

/// `p` is the point with these fields.
pub open spec fn is_point<S: Measure>(p: Point<S>, f: Seq<Seq<char>>) -> bool {
    &&& p.kernel@ == f[0]
    &&& parse_decimal_spec(f[1]) == Some(p.n as u64)
    &&& mask_spec(p.causal) == f[2]
    &&& S::parse_spec(f[3]) == Some(p.gflops)
    &&& S::parse_spec(f[4]) == Some(p.intensity)
    &&& S::parse_spec(f[5]) == Some(p.median_secs)
    &&& S::parse_spec(f[6]) == Some(p.spread_pct)
}

/// `s` holds a dataset, and every field in it means something.
pub open spec fn reads<S: Measure>(s: Seq<char>) -> bool {
    dataset_spec(s) matches Some((head, rows)) && head_means::<S>(head) && forall|i: int|
        0 <= i < rows.len() ==> row_means::<S>(#[trigger] rows[i])
}

fn head_lits() -> (r: Vec<&'static str>)
    ensures
        r@ == HEAD_LITS@,
        forall|i: int| 0 < i < r@.len() ==> (#[trigger] r@[i])@.len() > 0,
{
    let mut r: Vec<&'static str> = Vec::new();
    let mut i: usize = 0;
    while i < 9
        invariant
            i <= 9,
            r@ == HEAD_LITS@.take(i as int),
        decreases 9 - i,
    {
        r.push(HEAD_LITS[i]);
        assert(r@ =~= HEAD_LITS@.take(i + 1));
        i += 1;
    }
    assert(r@ =~= HEAD_LITS@);
    proof {
        lemma_head_lits();
    }
    r
}

fn point_lits() -> (r: Vec<&'static str>)
    ensures
        r@ == POINT_LITS@,
        forall|i: int| 0 < i < r@.len() ==> (#[trigger] r@[i])@.len() > 0,
{
    let mut r: Vec<&'static str> = Vec::new();
    let mut i: usize = 0;
    while i < 8
        invariant
            i <= 8,
            r@ == POINT_LITS@.take(i as int),
        decreases 8 - i,
    {
        r.push(POINT_LITS[i]);
        assert(r@ =~= POINT_LITS@.take(i + 1));
        i += 1;
    }
    assert(r@ =~= POINT_LITS@);
    proof {
        lemma_point_lits();
    }
    r
}

/// The first characters of the texts between a machine's fields.
pub(crate) proof fn lemma_head_lits()
    ensures
        forall|i: int| 0 <= i < 9 ==> (#[trigger] HEAD_LITS@[i])@.len() > 0,
        HEAD_LITS@[1]@[0] == '"',
        HEAD_LITS@[2]@[0] == '"',
        HEAD_LITS@[3]@[0] == ',',
        HEAD_LITS@[4]@[0] == ',',
        HEAD_LITS@[5]@[0] == ',',
        HEAD_LITS@[6]@[0] == ',',
        HEAD_LITS@[7]@[0] == ' ',
        HEAD_LITS@[8]@[0] == ',',
{
    reveal_strlit("{\n  \"machine\": { \"arch\": \"");
    reveal_strlit("\", \"isa\": \"");
    reveal_strlit("\", \"peak_gflops\": ");
    reveal_strlit(", \"bandwidth_gbs\": ");
    reveal_strlit(", \"ridge_flop_per_byte\": ");
    reveal_strlit(", \"peak_spread_pct\": ");
    reveal_strlit(", \"bandwidth_spread_pct\": ");
    reveal_strlit(" },\n  \"head_dim\": ");
    reveal_strlit(",\n  \"points\": [\n");
    assert forall|i: int| 0 <= i < 9 implies (#[trigger] HEAD_LITS@[i])@.len() > 0 by {
        assert(i == 0 || i == 1 || i == 2 || i == 3 || i == 4 || i == 5 || i == 6 || i == 7 || i
            == 8);
    }
}

/// The first characters of the texts between a point's fields.
pub(crate) proof fn lemma_point_lits()
    ensures
        forall|i: int| 0 <= i < 8 ==> (#[trigger] POINT_LITS@[i])@.len() > 0,
        POINT_LITS@[1]@[0] == '"',
        POINT_LITS@[2]@[0] == ',',
        POINT_LITS@[3]@[0] == '"',
        POINT_LITS@[4]@[0] == ',',
        POINT_LITS@[5]@[0] == ',',
        POINT_LITS@[6]@[0] == ',',
        POINT_LITS@[7]@[0] == ' ',
{
    reveal_strlit("    { \"kernel\": \"");
    reveal_strlit("\", \"n\": ");
    reveal_strlit(", \"mask\": \"");
    reveal_strlit("\", \"gflops\": ");
    reveal_strlit(", \"intensity_flop_per_byte\": ");
    reveal_strlit(", \"median_secs\": ");
    reveal_strlit(", \"spread_pct\": ");
    reveal_strlit(" }");
    assert forall|i: int| 0 <= i < 8 implies (#[trigger] POINT_LITS@[i])@.len() > 0 by {
        assert(i == 0 || i == 1 || i == 2 || i == 3 || i == 4 || i == 5 || i == 6 || i == 7);
    }
}

fn machine_of<S: Measure>(f: &Vec<&str>) -> (r: Option<Machine<S>>)
    requires
        f@.len() == 8,
    ensures
        r is Some <==> head_means::<S>(views(f@)),
        r matches Some(m) ==> is_machine(m, views(f@)),
{
    let dim = decimal(HEAD_DIM as u64);
    match (S::parse(f[2]), S::parse(f[3]), S::parse(f[5]), S::parse(f[6])) {
        (
            Some(peak_gflops),
            Some(bandwidth_gbs),
            Some(peak_spread_pct),
            Some(bandwidth_spread_pct),
        ) => {
            if !same_text(f[7], dim.as_str()) {
                return None;
            }
            Some(
                Machine {
                    arch: f[0].to_owned(),
                    isa: f[1].to_owned(),
                    peak_gflops,
                    bandwidth_gbs,
                    peak_spread_pct,
                    bandwidth_spread_pct,
                },
            )
        },
        _ => None,
    }
}

fn kernel_of(name: &str) -> (r: Option<&'static str>)
    ensures
        match r {
            Some(kernel) => kernel@ == name@ && (name@ == KERNELS@[0]@ || name@ == KERNELS@[1]@
                || name@ == KERNELS@[2]@),
            None => name@ != KERNELS@[0]@ && name@ != KERNELS@[1]@ && name@ != KERNELS@[2]@,
        },
{
    if same_text(name, KERNELS[0]) {
        Some(KERNELS[0])
    } else if same_text(name, KERNELS[1]) {
        Some(KERNELS[1])
    } else if same_text(name, KERNELS[2]) {
        Some(KERNELS[2])
    } else {
        None
    }
}

fn mask_of(name: &str) -> (r: Option<bool>)
    ensures
        match r {
            Some(causal) => mask_spec(causal) == name@,
            None => name@ != mask_spec(false) && name@ != mask_spec(true),
        },
{
    if same_text(name, mask_name(true)) {
        Some(true)
    } else if same_text(name, mask_name(false)) {
        Some(false)
    } else {
        None
    }
}

fn point_of<S: Measure>(f: &Vec<&str>) -> (r: Option<Point<S>>)
    requires
        f@.len() == 7,
    ensures
        r is Some <==> row_means::<S>(views(f@)),
        r matches Some(p) ==> is_point(p, views(f@)),
{
    let kernel = match kernel_of(f[0]) {
        Some(kernel) => kernel,
        None => {
            return None;
        },
    };
    let n = match parse_decimal(f[1]) {
        Some(n) => n,
        None => {
            return None;
        },
    };
    if n > usize::MAX as u64 {
        return None;
    }
    let causal = match mask_of(f[2]) {
        Some(causal) => causal,
        None => {
            return None;
        },
    };
    match (S::parse(f[3]), S::parse(f[4]), S::parse(f[5]), S::parse(f[6])) {
        (Some(gflops), Some(intensity), Some(median_secs), Some(spread_pct)) => Some(
            Point {
                kernel,
                n: n as usize,
                causal,
                gflops,
                intensity,
                median_secs,
                spread_pct,
            },
        ),
        _ => None,
    }
}

/// Reads a dataset that [`to_json`] wrote, so that an existing one can be drawn
/// again without measuring anything: what you want when the figure came from
/// hardware you do not have. Anything else is refused.
pub fn from_json<S: Measure>(text: &str) -> (r: Option<(Machine<S>, Vec<Point<S>>)>)
    ensures
        r is Some <==> reads::<S>(text@),
        r matches Some((m, pts)) ==> {
            &&& dataset_spec(text@) matches Some((head, rows))
            &&& is_machine(m, head)
            &&& pts@.len() == rows.len()
            &&& forall|i: int| 0 <= i < pts@.len() ==> is_point(#[trigger] pts@[i], rows[i])
        },
{
    let lits = head_lits();
    let (head, rest) = match fields(text, lits.as_slice()) {
        Some(found) => found,
        None => {
            return None;
        },
    };
    proof {
        lemma_fields_count(text@, views(HEAD_LITS@), Seq::empty());
        assert(views(lits@) =~= views(HEAD_LITS@));
    }
    let m = match machine_of::<S>(&head) {
        Some(m) => m,
        None => {
            return None;
        },
    };
    let mut pts: Vec<Point<S>> = Vec::new();
    if same_text(rest, "  ]\n}\n") {
        return Some((m, pts));
    }
    let lits = point_lits();
    let ghost all = rows_spec(rest@, Seq::empty());
    let ghost mut rows: Seq<Seq<Seq<char>>> = Seq::empty();
    let mut rest: &str = rest;
    loop
        invariant
            lits@ == POINT_LITS@,
            forall|i: int| 0 < i < lits@.len() ==> (#[trigger] lits@[i])@.len() > 0,
            all == rows_spec(rest@, rows),
            reads::<S>(text@) <==> (all matches Some(rs) && forall|i: int|
                0 <= i < rs.len() ==> row_means::<S>(#[trigger] rs[i])),
            all matches Some(rs) ==> dataset_spec(text@) == Some((views(head@), rs)),
            is_machine(m, views(head@)),
            pts@.len() == rows.len(),
            forall|i: int| 0 <= i < pts@.len() ==> is_point(#[trigger] pts@[i], rows[i]),
            forall|i: int| 0 <= i < rows.len() ==> row_means::<S>(#[trigger] rows[i]),
        decreases rest@.len(),
    {
        let (row, after) = match fields(rest, lits.as_slice()) {
            Some(found) => found,
            None => {
                return None;
            },
        };
        proof {
            lemma_fields_count(rest@, views(POINT_LITS@), Seq::empty());
            lemma_fields_consume(rest@, views(POINT_LITS@), Seq::empty());
            assert(views(lits@) =~= views(POINT_LITS@));
            if all is Some {
                lemma_rows_keep(rest@, rows);
            }
        }
        let p = match point_of::<S>(&row) {
            Some(p) => p,
            None => {
                return None;
            },
        };
        pts.push(p);
        proof {
            rows = rows.push(views(row@));
        }
        match eat(after, ",\n") {
            Some(next) => {
                proof {
                    reveal_strlit(",\n");
                }
                rest = next;
            },
            None => {
                if same_text(after, "\n  ]\n}\n") {
                    return Some((m, pts));
                } else {
                    return None;
                }
            },
        }
    }
}

/// The rows found so far stay, and the next row is the one at hand.
pub(crate) proof fn lemma_rows_keep(s: Seq<char>, rows: Seq<Seq<Seq<char>>>)
    requires
        rows_spec(s, rows) is Some,
    ensures
        rows_spec(s, rows)->0.len() > rows.len(),
        rows_spec(s, rows)->0.take(rows.len() as int) == rows,
        fields_spec(s, views(POINT_LITS@), Seq::empty()) matches Some((row, _)) && rows_spec(
            s,
            rows,
        )->0[rows.len() as int] == row,
    decreases s.len(),
{
    if let Some((row, rest)) = fields_spec(s, views(POINT_LITS@), Seq::empty()) {
        if let Some(next) = eat_spec(rest, ",\n"@) {
            lemma_fields_consume(s, views(POINT_LITS@), Seq::empty());
            reveal_strlit(",\n");
            lemma_rows_keep(next, rows.push(row));
            let all = rows_spec(s, rows)->0;
            let grown = rows.push(row);
            assert(all.take(grown.len() as int) == grown);
            assert(all[rows.len() as int] == all.take(grown.len() as int)[rows.len() as int]);
            assert(all.take(rows.len() as int) =~= grown.take(rows.len() as int));
            assert(grown.take(rows.len() as int) =~= rows);
        } else {
            assert(rows.push(row).take(rows.len() as int) =~= rows);
        }
    }
}

} // verus!
