//! The figure.
//!
//! Both axes are logarithmic. The plot area spans 612 by 406 units inside a
//! canvas of 900 by 560, with margins of 78 on the left, 210 on the right for
//! the legend, 88 on top for the titles and 66 below.
use crate::roofline::probe::{best, best_of, worst, worst_of};
use crate::roofline::{Machine, Point, HEAD_DIM, KERNELS};
use crate::scalar::{ratio, ratio_spec, Measure, Scalar};
use crate::text::{cat, cat_spec, decimal, decimal_spec, same_text, views};
use vstd::prelude::*;
use vstd::string::*;

verus! {

/// One colour per kernel.
pub const COLORS: [&'static str; 3] = ["#c2410c", "#0369a1", "#15803d"];

/// The ranges that the two axes cover.
pub struct Axes<S> {
    pub x0: S,
    pub x1: S,
    pub y0: S,
    pub y1: S,
}

/// How far `v` lies between `lo` and `hi`, on a logarithmic scale.
pub open spec fn share_spec<S: Measure>(v: S, lo: S, hi: S) -> S {
    v.log10_spec().sub_spec(lo.log10_spec()).div_spec(hi.log10_spec().sub_spec(lo.log10_spec()))
}

fn share<S: Measure>(v: S, lo: S, hi: S) -> (r: S)
    ensures
        r == share_spec(v, lo, hi),
{
    v.log10().sub(lo.log10()).div(hi.log10().sub(lo.log10()))
}

impl<S: Measure> Axes<S> {
    /// The horizontal position of an intensity.
    pub open spec fn px_spec(self, x: S) -> S {
        S::from_usize_spec(78).add_spec(
            share_spec(x, self.x0, self.x1).mul_spec(S::from_usize_spec(612)),
        )
    }

    /// The vertical position of a throughput; downwards is larger.
    pub open spec fn py_spec(self, y: S) -> S {
        S::from_usize_spec(494).sub_spec(
            share_spec(y, self.y0, self.y1).mul_spec(S::from_usize_spec(406)),
        )
    }

    /// The horizontal position of an intensity.
    pub fn px(&self, x: S) -> (r: S)
        ensures
            r == self.px_spec(x),
    {
        S::from_usize(78).add(share(x, self.x0, self.x1).mul(S::from_usize(612)))
    }

    /// The vertical position of a throughput.
    pub fn py(&self, y: S) -> (r: S)
        ensures
            r == self.py_spec(y),
    {
        S::from_usize(494).sub(share(y, self.y0, self.y1).mul(S::from_usize(406)))
    }
}

/// The intensities of the points.
pub open spec fn intensities<S>(pts: Seq<Point<S>>) -> Seq<S> {
    Seq::new(pts.len(), |i: int| pts[i].intensity)
}

/// The throughputs of the points.
pub open spec fn throughputs<S>(pts: Seq<Point<S>>) -> Seq<S> {
    Seq::new(pts.len(), |i: int| pts[i].gflops)
}

/// The timing spreads of the points.
pub open spec fn spreads<S>(pts: Seq<Point<S>>) -> Seq<S> {
    Seq::new(pts.len(), |i: int| pts[i].spread_pct)
}

/// Ranges that cover every point and the ridge, with padding.
pub open spec fn axes_spec<S: Measure>(m: Machine<S>, pts: Seq<Point<S>>) -> Axes<S> {
    Axes {
        x0: worst_of(intensities(pts)).mul_spec(ratio_spec(45, 100)).min_spec(
            m.ridge_spec().mul_spec(ratio_spec(3, 10)),
        ),
        x1: best_of(intensities(pts)).mul_spec(ratio_spec(22, 10)).max_spec(
            m.ridge_spec().mul_spec(S::from_usize_spec(3)),
        ),
        y0: worst_of(throughputs(pts)).mul_spec(ratio_spec(45, 100)),
        y1: m.peak_gflops.mul_spec(ratio_spec(18, 10)),
    }
}

/// Ranges that cover every point and the ridge, with padding.
pub fn axes<S: Measure>(m: &Machine<S>, pts: &[Point<S>]) -> (r: Axes<S>)
    ensures
        r == axes_spec(*m, pts@),
{
    let mut i_of: Vec<S> = Vec::new();
    let mut g_of: Vec<S> = Vec::new();
    let mut i: usize = 0;
    while i < pts.len()
        invariant
            i <= pts@.len(),
            i_of@ == intensities(pts@).take(i as int),
            g_of@ == throughputs(pts@).take(i as int),
        decreases pts.len() - i,
    {
        i_of.push(pts[i].intensity);
        g_of.push(pts[i].gflops);
        assert(i_of@ =~= intensities(pts@).take(i + 1));
        assert(g_of@ =~= throughputs(pts@).take(i + 1));
        i += 1;
    }
    assert(i_of@ =~= intensities(pts@));
    assert(g_of@ =~= throughputs(pts@));
    let min_i = worst(i_of.as_slice());
    let max_i = best(i_of.as_slice());
    let min_g = worst(g_of.as_slice());
    let ridge = m.ridge();
    Axes {
        x0: min_i.mul(ratio(45, 100)).min(ridge.mul(ratio(3, 10))),
        x1: max_i.mul(ratio(22, 10)).max(ridge.mul(S::from_usize(3))),
        y0: min_g.mul(ratio(45, 100)),
        y1: m.peak_gflops.mul(ratio(18, 10)),
    }
}

/// `start`, ten times larger `k` times over.
pub open spec fn tenfold<S: Scalar>(start: S, k: nat) -> S
    decreases k,
{
    if k == 0 {
        start
    } else {
        tenfold(start, (k - 1) as nat).mul_spec(S::from_usize_spec(10))
    }
}

/// The decade that `lo` lies in.
pub open spec fn first_decade<S: Measure>(lo: S) -> S {
    lo.log10_spec().floor_spec().pow10_spec()
}

/// Decade `k` of the axis is the first one past its end.
pub open spec fn ends_at<S: Measure>(lo: S, hi: S, k: nat) -> bool {
    &&& !tenfold(first_decade(lo), k).at_most_spec(hi.mul_spec(S::from_usize_spec(10)))
    &&& forall|j: nat|
        j < k ==> (#[trigger] tenfold(first_decade(lo), j)).at_most_spec(
            hi.mul_spec(S::from_usize_spec(10)),
        )
}

/// The axis from `lo` to `hi` has an end. Hardware numbers reach it unless an
/// end is zero, infinite, or within a factor of ten of overflow.
pub open spec fn has_end<S: Measure>(lo: S, hi: S) -> bool {
    exists|k: nat|
        !(#[trigger] tenfold(first_decade(lo), k)).at_most_spec(
            hi.mul_spec(S::from_usize_spec(10)),
        )
}

/// How many decades the axis looks at.
pub open spec fn decades<S: Measure>(lo: S, hi: S) -> nat {
    choose|k: nat| ends_at(lo, hi, k)
}

pub(crate) proof fn lemma_decades<S: Measure>(lo: S, hi: S, k: nat)
    requires
        ends_at(lo, hi, k),
    ensures
        decades(lo, hi) == k,
{
    let d = decades(lo, hi);
    assert(ends_at(lo, hi, d));
    if d < k {
        assert(tenfold(first_decade(lo), d).at_most_spec(hi.mul_spec(S::from_usize_spec(10))));
    }
    if k < d {
        assert(tenfold(first_decade(lo), k).at_most_spec(hi.mul_spec(S::from_usize_spec(10))));
    }
}

/// `s`, and `v` after it where it lies in range.
pub open spec fn with_tick<S: Measure>(s: Seq<S>, v: S, lo: S, hi: S) -> Seq<S> {
    if lo.at_most_spec(v) && v.at_most_spec(hi) {
        s.push(v)
    } else {
        s
    }
}

/// The ticks of the first `k` decades: 1, 2 and 5 times each, as far as they lie
/// in range.
pub open spec fn ticks_of<S: Measure>(lo: S, hi: S, k: nat) -> Seq<S>
    decreases k,
{
    if k == 0 {
        Seq::empty()
    } else {
        let decade = tenfold(first_decade(lo), (k - 1) as nat);
        let before = ticks_of(lo, hi, (k - 1) as nat);
        let one = with_tick(before, decade.mul_spec(S::one_spec()), lo, hi);
        let two = with_tick(one, decade.mul_spec(S::from_usize_spec(2)), lo, hi);
        with_tick(two, decade.mul_spec(S::from_usize_spec(5)), lo, hi)
    }
}

fn push_tick<S: Measure>(out: &mut Vec<S>, v: S, lo: S, hi: S)
    ensures
        final(out)@ == with_tick(old(out)@, v, lo, hi),
{
    if lo.at_most(v) && v.at_most(hi) {
        out.push(v);
    }
}

/// Decade-anchored 1/2/5 ticks covering [lo, hi].
pub fn ticks<S: Measure>(lo: S, hi: S) -> (r: Vec<S>)
    requires
        has_end(lo, hi),
    ensures
        r@ == ticks_of(lo, hi, decades(lo, hi)),
{
    let mut out: Vec<S> = Vec::new();
    let mut decade = lo.log10().floor().pow10();
    let limit = hi.mul(S::from_usize(10));
    let ghost end = choose|k: nat|
        !(#[trigger] tenfold(first_decade(lo), k)).at_most_spec(
            hi.mul_spec(S::from_usize_spec(10)),
        );
    let ghost mut k: nat = 0;
    while decade.at_most(limit)
        invariant
            limit == hi.mul_spec(S::from_usize_spec(10)),
            !tenfold(first_decade(lo), end).at_most_spec(limit),
            decade == tenfold(first_decade(lo), k),
            k <= end,
            forall|j: nat|
                j < k ==> (#[trigger] tenfold(first_decade(lo), j)).at_most_spec(limit),
            out@ == ticks_of(lo, hi, k),
        decreases end - k,
    {
        push_tick(&mut out, decade.mul(S::one()), lo, hi);
        push_tick(&mut out, decade.mul(S::from_usize(2)), lo, hi);
        push_tick(&mut out, decade.mul(S::from_usize(5)), lo, hi);
        decade = decade.mul(S::from_usize(10));
        proof {
            k = k + 1;
        }
    }
    proof {
        lemma_decades(lo, hi, k);
    }
    out
}

/// The axis from `lo` to `hi` ends within `most` decades.
pub open spec fn ends_within_spec<S: Measure>(lo: S, hi: S, most: nat) -> bool {
    exists|k: nat|
        k <= most && !(#[trigger] tenfold(first_decade(lo), k)).at_most_spec(
            hi.mul_spec(S::from_usize_spec(10)),
        )
}

/// Whether the axis from `lo` to `hi` ends within `most` decades.
pub fn ends_within<S: Measure>(lo: S, hi: S, most: usize) -> (r: bool)
    ensures
        r == ends_within_spec(lo, hi, most as nat),
        r ==> has_end(lo, hi),
{
    let mut decade = lo.log10().floor().pow10();
    let limit = hi.mul(S::from_usize(10));
    let mut k: usize = 0;
    while k < most && decade.at_most(limit)
        invariant
            k <= most,
            limit == hi.mul_spec(S::from_usize_spec(10)),
            decade == tenfold(first_decade(lo), k as nat),
            forall|j: nat|
                j < k ==> (#[trigger] tenfold(first_decade(lo), j)).at_most_spec(limit),
        decreases most - k,
    {
        decade = decade.mul(S::from_usize(10));
        k += 1;
    }
    let r = !decade.at_most(limit);
    proof {
        if r {
            assert(!tenfold(first_decade(lo), k as nat).at_most_spec(limit));
        } else {
            assert forall|j: nat| j <= most implies (#[trigger] tenfold(
                first_decade(lo),
                j,
            )).at_most_spec(limit) by {
                assert(j < k || j == k);
            }
        }
    }
    r
}

/// The text of a tick: as many digits as its size needs.
pub open spec fn tick_spec<S: Measure>(v: S) -> Seq<char> {
    if S::one_spec().at_most_spec(v) {
        v.fixed_spec(0)
    } else if ratio_spec::<S>(1, 10).at_most_spec(v) {
        v.fixed_spec(1)
    } else {
        v.fixed_spec(2)
    }
}

/// The text of a tick.
pub fn fmt_tick<S: Measure>(v: S) -> (r: String)
    ensures
        r@ == tick_spec(v),
{
    if S::one().at_most(v) {
        v.fixed(0)
    } else if ratio::<S>(1, 10).at_most(v) {
        v.fixed(1)
    } else {
        v.fixed(2)
    }
}

/// What follows the position of every marker: a thick outline around white where
/// it is hollow, a thin one around its own colour where it is not.
pub open spec fn paint_spec(fill: Seq<char>, hollow: bool) -> Seq<char> {
    cat_spec(
        seq![
            " fill=\""@,
            if hollow {
                "#ffffff"@
            } else {
                fill
            },
            "\" stroke=\""@,
            fill,
            "\" stroke-width=\""@,
            if hollow {
                "2"@
            } else {
                "1.2"@
            },
            "\""@,
        ],
    )
}

fn paint(fill: &str, hollow: bool) -> (r: String)
    ensures
        r@ == paint_spec(fill@, hollow),
{
    let inside = if hollow {
        "#ffffff"
    } else {
        fill
    };
    let width = if hollow {
        "2"
    } else {
        "1.2"
    };
    let pieces = vec![
        " fill=\"",
        inside,
        "\" stroke=\"",
        fill,
        "\" stroke-width=\"",
        width,
        "\"",
    ];
    assert(views(pieces@) =~= seq![
        " fill=\""@,
        inside@,
        "\" stroke=\""@,
        fill@,
        "\" stroke-width=\""@,
        width@,
        "\""@,
    ]);
    cat(pieces)
}

/// The marker of a kernel, centred on (x, y): a circle, a square or a triangle.
pub open spec fn marker_spec<S: Measure>(
    kernel: Seq<char>,
    x: S,
    y: S,
    fill: Seq<char>,
    hollow: bool,
) -> Seq<char> {
    if kernel == "naive"@ {
        cat_spec(
            seq![
                "<circle cx=\""@,
                x.fixed_spec(1),
                "\" cy=\""@,
                y.fixed_spec(1),
                "\" r=\"5.2\""@,
                paint_spec(fill, hollow),
                "/>"@,
            ],
        )
    } else if kernel == "tiled"@ {
        cat_spec(
            seq![
                "<rect x=\""@,
                x.sub_spec(ratio_spec(48, 10)).fixed_spec(1),
                "\" y=\""@,
                y.sub_spec(ratio_spec(48, 10)).fixed_spec(1),
                "\" width=\"9.6\" height=\"9.6\""@,
                paint_spec(fill, hollow),
                "/>"@,
            ],
        )
    } else {
        cat_spec(
            seq![
                "<polygon points=\""@,
                x.fixed_spec(1),
                ","@,
                y.sub_spec(S::from_usize_spec(6)).fixed_spec(1),
                " "@,
                x.add_spec(ratio_spec(55, 10)).fixed_spec(1),
                ","@,
                y.add_spec(S::from_usize_spec(4)).fixed_spec(1),
                " "@,
                x.sub_spec(ratio_spec(55, 10)).fixed_spec(1),
                ","@,
                y.add_spec(S::from_usize_spec(4)).fixed_spec(1),
                "\""@,
                paint_spec(fill, hollow),
                " stroke-linejoin=\"round\"/>"@,
            ],
        )
    }
}

/// The marker of a kernel, centred on (x, y).
pub fn marker<S: Measure>(kernel: &str, x: S, y: S, fill: &str, hollow: bool) -> (r: String)
    ensures
        r@ == marker_spec(kernel@, x, y, fill@, hollow),
{
    let look = paint(fill, hollow);
    if same_text(kernel, "naive") {
        let cx = x.fixed(1);
        let cy = y.fixed(1);
        let pieces = vec![
            "<circle cx=\"",
            cx.as_str(),
            "\" cy=\"",
            cy.as_str(),
            "\" r=\"5.2\"",
            look.as_str(),
            "/>",
        ];
        assert(views(pieces@) =~= seq![
            "<circle cx=\""@,
            cx@,
            "\" cy=\""@,
            cy@,
            "\" r=\"5.2\""@,
            look@,
            "/>"@,
        ]);
        cat(pieces)
    } else if same_text(kernel, "tiled") {
        let left = x.sub(ratio(48, 10)).fixed(1);
        let top = y.sub(ratio(48, 10)).fixed(1);
        let pieces = vec![
            "<rect x=\"",
            left.as_str(),
            "\" y=\"",
            top.as_str(),
            "\" width=\"9.6\" height=\"9.6\"",
            look.as_str(),
            "/>",
        ];
        assert(views(pieces@) =~= seq![
            "<rect x=\""@,
            left@,
            "\" y=\""@,
            top@,
            "\" width=\"9.6\" height=\"9.6\""@,
            look@,
            "/>"@,
        ]);
        cat(pieces)
    } else {
        let x0 = x.fixed(1);
        let y0 = y.sub(S::from_usize(6)).fixed(1);
        let x1 = x.add(ratio(55, 10)).fixed(1);
        let y1 = y.add(S::from_usize(4)).fixed(1);
        let x2 = x.sub(ratio(55, 10)).fixed(1);
        let pieces = vec![
            "<polygon points=\"",
            x0.as_str(),
            ",",
            y0.as_str(),
            " ",
            x1.as_str(),
            ",",
            y1.as_str(),
            " ",
            x2.as_str(),
            ",",
            y1.as_str(),
            "\"",
            look.as_str(),
            " stroke-linejoin=\"round\"/>",
        ];
        assert(views(pieces@) =~= seq![
            "<polygon points=\""@,
            x0@,
            ","@,
            y0@,
            " "@,
            x1@,
            ","@,
            y1@,
            " "@,
            x2@,
            ","@,
            y1@,
            "\""@,
            look@,
            " stroke-linejoin=\"round\"/>"@,
        ]);
        cat(pieces)
    }
}

/// The canvas, the title, and where the numbers come from.
pub open spec fn head_pieces<S: Measure>(m: Machine<S>, pts: Seq<Point<S>>) -> Seq<Seq<char>> {
    seq![
        "<svg "@,
        "xmlns=\"http://www.w3.org/2000/svg\" viewBox=\"0 0 900 560\" width=\"900\" height=\"560\" font-family=\"-apple-system, BlinkMacSystemFont, 'Segoe UI', Helvetica, Arial, sans-serif\">\n<rect width=\"900\" height=\"560\" fill=\"#ffffff\"/>\n<text x=\"78\" y=\"30\" font-size=\"17\" font-weight=\"600\" fill=\"#0f172a\">Attention kernels vs the roofline (d = "@,
        decimal_spec(HEAD_DIM as nat),
        ")</text>\n<text x=\"78\" y=\"50\" font-size=\"12\" fill=\"#475569\">measured on "@,
        m.arch@,
        " — "@,
        m.isa@,
        "</text>\n<text x=\"78\" y=\"68\" font-size=\"11.5\" fill=\"#64748b\">compute ceiling "@,
        m.peak_gflops.fixed_spec(0),
        " GFLOP/s  ·  bandwidth "@,
        m.bandwidth_gbs.fixed_spec(1),
        " GB/s  ·  ridge "@,
        m.ridge_spec().fixed_spec(2),
        " FLOP/byte  ·  worst point spread "@,
        best_of(spreads(pts)).fixed_spec(0),
        "%</text>\n"@,
    ]
}

fn head<S: Measure>(m: &Machine<S>, pts: &[Point<S>]) -> (r: String)
    ensures
        r@ == cat_spec(head_pieces(*m, pts@)),
{
    let mut spread_of: Vec<S> = Vec::new();
    let mut i: usize = 0;
    while i < pts.len()
        invariant
            i <= pts@.len(),
            spread_of@ == spreads(pts@).take(i as int),
        decreases pts.len() - i,
    {
        spread_of.push(pts[i].spread_pct);
        assert(spread_of@ =~= spreads(pts@).take(i + 1));
        i += 1;
    }
    assert(spread_of@ =~= spreads(pts@));
    let dim = decimal(HEAD_DIM as u64);
    let peak = m.peak_gflops.fixed(0);
    let bandwidth = m.bandwidth_gbs.fixed(1);
    let ridge = m.ridge().fixed(2);
    let worst_spread = best(spread_of.as_slice()).fixed(0);
    let pieces = vec![
        "<svg ",
        "xmlns=\"http://www.w3.org/2000/svg\" viewBox=\"0 0 900 560\" width=\"900\" height=\"560\" font-family=\"-apple-system, BlinkMacSystemFont, 'Segoe UI', Helvetica, Arial, sans-serif\">\n<rect width=\"900\" height=\"560\" fill=\"#ffffff\"/>\n<text x=\"78\" y=\"30\" font-size=\"17\" font-weight=\"600\" fill=\"#0f172a\">Attention kernels vs the roofline (d = ",
        dim.as_str(),
        ")</text>\n<text x=\"78\" y=\"50\" font-size=\"12\" fill=\"#475569\">measured on ",
        m.arch.as_str(),
        " — ",
        m.isa.as_str(),
        "</text>\n<text x=\"78\" y=\"68\" font-size=\"11.5\" fill=\"#64748b\">compute ceiling ",
        peak.as_str(),
        " GFLOP/s  ·  bandwidth ",
        bandwidth.as_str(),
        " GB/s  ·  ridge ",
        ridge.as_str(),
        " FLOP/byte  ·  worst point spread ",
        worst_spread.as_str(),
        "%</text>\n",
    ];
    assert(views(pieces@) =~= head_pieces(*m, pts@));
    cat(pieces)
}

/// A vertical grid line and the label below it.
pub open spec fn x_tick_pieces<S: Measure>(ax: Axes<S>, v: S) -> Seq<Seq<char>> {
    let x = ax.px_spec(v).fixed_spec(1);
    seq![
        "<line x1=\""@,
        x,
        "\" y1=\"88.0\" x2=\""@,
        x,
        "\" y2=\"494.0\" stroke=\"#e2e8f0\" stroke-width=\"1\"/>\n<text x=\""@,
        x,
        "\" y=\"512.0\" font-size=\"11\" fill=\"#64748b\" text-anchor=\"middle\">"@,
        tick_spec(v),
        "</text>\n"@,
    ]
}

fn x_tick<S: Measure>(ax: &Axes<S>, v: S) -> (r: String)
    ensures
        r@ == cat_spec(x_tick_pieces(*ax, v)),
{
    let x = ax.px(v).fixed(1);
    let label = fmt_tick(v);
    let pieces = vec![
        "<line x1=\"",
        x.as_str(),
        "\" y1=\"88.0\" x2=\"",
        x.as_str(),
        "\" y2=\"494.0\" stroke=\"#e2e8f0\" stroke-width=\"1\"/>\n<text x=\"",
        x.as_str(),
        "\" y=\"512.0\" font-size=\"11\" fill=\"#64748b\" text-anchor=\"middle\">",
        label.as_str(),
        "</text>\n",
    ];
    assert(views(pieces@) =~= x_tick_pieces(*ax, v));
    cat(pieces)
}

/// A horizontal grid line and the label left of it.
pub open spec fn y_tick_pieces<S: Measure>(ax: Axes<S>, v: S) -> Seq<Seq<char>> {
    let y = ax.py_spec(v);
    seq![
        "<line x1=\"78.0\" y1=\""@,
        y.fixed_spec(1),
        "\" x2=\"690.0\" y2=\""@,
        y.fixed_spec(1),
        "\" stroke=\"#e2e8f0\" stroke-width=\"1\"/>\n<text x=\"70.0\" y=\""@,
        y.add_spec(ratio_spec(38, 10)).fixed_spec(1),
        "\" font-size=\"11\" fill=\"#64748b\" text-anchor=\"end\">"@,
        tick_spec(v),
        "</text>\n"@,
    ]
}

fn y_tick<S: Measure>(ax: &Axes<S>, v: S) -> (r: String)
    ensures
        r@ == cat_spec(y_tick_pieces(*ax, v)),
{
    let y = ax.py(v);
    let line = y.fixed(1);
    let base = y.add(ratio(38, 10)).fixed(1);
    let label = fmt_tick(v);
    let pieces = vec![
        "<line x1=\"78.0\" y1=\"",
        line.as_str(),
        "\" x2=\"690.0\" y2=\"",
        line.as_str(),
        "\" stroke=\"#e2e8f0\" stroke-width=\"1\"/>\n<text x=\"70.0\" y=\"",
        base.as_str(),
        "\" font-size=\"11\" fill=\"#64748b\" text-anchor=\"end\">",
        label.as_str(),
        "</text>\n",
    ];
    assert(views(pieces@) =~= y_tick_pieces(*ax, v));
    cat(pieces)
}

/// The grid lines of the first `k` ticks of the horizontal axis.
pub open spec fn x_grid_spec<S: Measure>(ax: Axes<S>, at: Seq<S>, k: nat) -> Seq<char>
    decreases k,
{
    if k == 0 {
        Seq::empty()
    } else {
        x_grid_spec(ax, at, (k - 1) as nat) + cat_spec(x_tick_pieces(ax, at[k - 1]))
    }
}

/// The grid lines of the first `k` ticks of the vertical axis.
pub open spec fn y_grid_spec<S: Measure>(ax: Axes<S>, at: Seq<S>, k: nat) -> Seq<char>
    decreases k,
{
    if k == 0 {
        Seq::empty()
    } else {
        y_grid_spec(ax, at, (k - 1) as nat) + cat_spec(y_tick_pieces(ax, at[k - 1]))
    }
}

/// The grid of both axes.
pub open spec fn grid_spec<S: Measure>(ax: Axes<S>) -> Seq<char> {
    let xs = ticks_of(ax.x0, ax.x1, decades(ax.x0, ax.x1));
    let ys = ticks_of(ax.y0, ax.y1, decades(ax.y0, ax.y1));
    x_grid_spec(ax, xs, xs.len()) + y_grid_spec(ax, ys, ys.len())
}

fn grid<S: Measure>(ax: &Axes<S>) -> (r: String)
    requires
        has_end(ax.x0, ax.x1),
        has_end(ax.y0, ax.y1),
    ensures
        r@ == grid_spec(*ax),
{
    let xs = ticks(ax.x0, ax.x1);
    let mut across = String::new();
    let mut i: usize = 0;
    while i < xs.len()
        invariant
            i <= xs@.len(),
            across@ == x_grid_spec(*ax, xs@, i as nat),
        decreases xs.len() - i,
    {
        let line = x_tick(ax, xs[i]);
        across.append(line.as_str());
        i += 1;
    }
    let ys = ticks(ax.y0, ax.y1);
    let mut up = String::new();
    let mut j: usize = 0;
    while j < ys.len()
        invariant
            j <= ys@.len(),
            up@ == y_grid_spec(*ax, ys@, j as nat),
        decreases ys.len() - j,
    {
        let line = y_tick(ax, ys[j]);
        up.append(line.as_str());
        j += 1;
    }
    across.concat(up.as_str())
}

/// Where the ridge is drawn: inside the plot area even where it lies outside.
pub open spec fn ridge_x_spec<S: Measure>(m: Machine<S>, ax: Axes<S>) -> S {
    let x = ax.px_spec(m.ridge_spec());
    if S::from_usize_spec(78).greater_than_spec(x) {
        S::from_usize_spec(78)
    } else if x.greater_than_spec(S::from_usize_spec(690)) {
        S::from_usize_spec(690)
    } else {
        x
    }
}

fn ridge_x<S: Measure>(m: &Machine<S>, ax: &Axes<S>) -> (r: S)
    ensures
        r == ridge_x_spec(*m, *ax),
{
    let x = ax.px(m.ridge());
    if S::from_usize(78).greater_than(x) {
        S::from_usize(78)
    } else if x.greater_than(S::from_usize(690)) {
        S::from_usize(690)
    } else {
        x
    }
}

/// Intervals of the drawn roofline.
pub const STEPS: usize = 220;

/// The intensity at step `i`: equal steps on the logarithmic axis.
pub open spec fn roof_x_spec<S: Measure>(ax: Axes<S>, i: usize) -> S {
    ax.x0.log10_spec().add_spec(
        ratio_spec::<S>(i, STEPS).mul_spec(ax.x1.log10_spec().sub_spec(ax.x0.log10_spec())),
    ).pow10_spec()
}

/// A vertex of the drawn roofline.
pub open spec fn vertex_spec<S: Measure>(m: Machine<S>, ax: Axes<S>, i: usize) -> Seq<char> {
    let x = roof_x_spec(ax, i);
    ax.px_spec(x).fixed_spec(1) + ","@ + ax.py_spec(m.ceiling_spec(x)).fixed_spec(1)
}

fn vertex<S: Measure>(m: &Machine<S>, ax: &Axes<S>, i: usize) -> (r: String)
    ensures
        r@ == vertex_spec(*m, *ax, i),
{
    let from = ax.x0.log10();
    let to = ax.x1.log10();
    let x = from.add(ratio::<S>(i, STEPS).mul(to.sub(from))).pow10();
    let across = ax.px(x).fixed(1);
    let up = ax.py(m.ceiling_at(x)).fixed(1);
    across.concat(",").concat(up.as_str())
}

/// The vertices up to step `i`, a space between each two: the sloped bandwidth
/// bound, then the flat compute bound.
pub open spec fn roof_spec<S: Measure>(m: Machine<S>, ax: Axes<S>, i: usize) -> Seq<char>
    decreases i,
{
    if i == 0 {
        vertex_spec(m, ax, 0)
    } else {
        roof_spec(m, ax, (i - 1) as usize) + " "@ + vertex_spec(m, ax, i)
    }
}

fn roof<S: Measure>(m: &Machine<S>, ax: &Axes<S>) -> (r: String)
    ensures
        r@ == roof_spec(*m, *ax, STEPS),
{
    let mut r = vertex(m, ax, 0);
    let mut i: usize = 0;
    while i < STEPS
        invariant
            i <= STEPS,
            r@ == roof_spec(*m, *ax, i),
        decreases STEPS - i,
    {
        i += 1;
        r.append(" ");
        let next = vertex(m, ax, i);
        r.append(next.as_str());
    }
    r
}

/// The shaded memory-bound region, the roofline, and the ridge with its labels.
pub open spec fn ceiling_pieces<S: Measure>(m: Machine<S>, ax: Axes<S>) -> Seq<Seq<char>> {
    let x = ridge_x_spec(m, ax);
    seq![
        "<rect x=\"78.0\" y=\"88.0\" width=\""@,
        x.sub_spec(S::from_usize_spec(78)).fixed_spec(1),
        "\" height=\"406.0\" fill=\"#0369a1\" opacity=\"0.04\"/>\n<polyline points=\""@,
        roof_spec(m, ax, STEPS),
        "\" fill=\"none\" stroke=\"#0f172a\" stroke-width=\"2.4\" stroke-linejoin=\"round\"/>\n<line x1=\""@,
        x.fixed_spec(1),
        "\" y1=\"88.0\" x2=\""@,
        x.fixed_spec(1),
        "\" y2=\"494.0\" stroke=\"#0f172a\" stroke-width=\"1.4\" stroke-dasharray=\"5 4\" opacity=\"0.65\"/>\n<text x=\""@,
        x.sub_spec(S::from_usize_spec(8)).fixed_spec(1),
        "\" y=\"102.0\" font-size=\"11\" fill=\"#0f172a\" text-anchor=\"end\" opacity=\"0.8\">memory-bound</text>\n<text x=\""@,
        x.add_spec(S::from_usize_spec(8)).fixed_spec(1),
        "\" y=\"102.0\" font-size=\"11\" fill=\"#0f172a\" opacity=\"0.8\">compute-bound</text>\n<text x=\""@,
        x.sub_spec(S::from_usize_spec(7)).fixed_spec(1),
        "\" y=\"485.0\" font-size=\"10.5\" fill=\"#0f172a\" text-anchor=\"end\" opacity=\"0.75\">ridge "@,
        m.ridge_spec().fixed_spec(2),
        "</text>\n"@,
    ]
}

fn ceiling<S: Measure>(m: &Machine<S>, ax: &Axes<S>) -> (r: String)
    ensures
        r@ == cat_spec(ceiling_pieces(*m, *ax)),
{
    let x = ridge_x(m, ax);
    let width = x.sub(S::from_usize(78)).fixed(1);
    let line = roof(m, ax);
    let at = x.fixed(1);
    let before = x.sub(S::from_usize(8)).fixed(1);
    let after = x.add(S::from_usize(8)).fixed(1);
    let foot = x.sub(S::from_usize(7)).fixed(1);
    let ridge = m.ridge().fixed(2);
    let pieces = vec![
        "<rect x=\"78.0\" y=\"88.0\" width=\"",
        width.as_str(),
        "\" height=\"406.0\" fill=\"#0369a1\" opacity=\"0.04\"/>\n<polyline points=\"",
        line.as_str(),
        "\" fill=\"none\" stroke=\"#0f172a\" stroke-width=\"2.4\" stroke-linejoin=\"round\"/>\n<line x1=\"",
        at.as_str(),
        "\" y1=\"88.0\" x2=\"",
        at.as_str(),
        "\" y2=\"494.0\" stroke=\"#0f172a\" stroke-width=\"1.4\" stroke-dasharray=\"5 4\" opacity=\"0.65\"/>\n<text x=\"",
        before.as_str(),
        "\" y=\"102.0\" font-size=\"11\" fill=\"#0f172a\" text-anchor=\"end\" opacity=\"0.8\">memory-bound</text>\n<text x=\"",
        after.as_str(),
        "\" y=\"102.0\" font-size=\"11\" fill=\"#0f172a\" opacity=\"0.8\">compute-bound</text>\n<text x=\"",
        foot.as_str(),
        "\" y=\"485.0\" font-size=\"10.5\" fill=\"#0f172a\" text-anchor=\"end\" opacity=\"0.75\">ridge ",
        ridge.as_str(),
        "</text>\n",
    ];
    assert(views(pieces@) =~= ceiling_pieces(*m, *ax));
    cat(pieces)
}

/// The colour of a kernel; of the first one where the kernel is not known.
pub open spec fn color_spec(kernel: Seq<char>) -> Seq<char> {
    if kernel == KERNELS@[0]@ {
        COLORS@[0]@
    } else if kernel == KERNELS@[1]@ {
        COLORS@[1]@
    } else if kernel == KERNELS@[2]@ {
        COLORS@[2]@
    } else {
        COLORS@[0]@
    }
}

fn color(kernel: &str) -> (r: &'static str)
    ensures
        r@ == color_spec(kernel@),
{
    if same_text(kernel, KERNELS[0]) {
        COLORS[0]
    } else if same_text(kernel, KERNELS[1]) {
        COLORS[1]
    } else if same_text(kernel, KERNELS[2]) {
        COLORS[2]
    } else {
        COLORS[0]
    }
}

/// The marker of one operating point. Hollow ones are causal.
pub open spec fn spot_spec<S: Measure>(ax: Axes<S>, p: Point<S>) -> Seq<char> {
    marker_spec(
        p.kernel@,
        ax.px_spec(p.intensity),
        ax.py_spec(p.gflops),
        color_spec(p.kernel@),
        p.causal,
    ) + "\n"@
}

/// The markers of the first `k` points.
pub open spec fn spots_spec<S: Measure>(ax: Axes<S>, pts: Seq<Point<S>>, k: nat) -> Seq<char>
    decreases k,
{
    if k == 0 {
        Seq::empty()
    } else {
        spots_spec(ax, pts, (k - 1) as nat) + spot_spec(ax, pts[k - 1])
    }
}

fn spots<S: Measure>(ax: &Axes<S>, pts: &[Point<S>]) -> (r: String)
    ensures
        r@ == spots_spec(*ax, pts@, pts@.len()),
{
    let mut r = String::new();
    let mut i: usize = 0;
    while i < pts.len()
        invariant
            i <= pts@.len(),
            r@ == spots_spec(*ax, pts@, i as nat),
        decreases pts.len() - i,
    {
        let p = &pts[i];
        let mark = marker(p.kernel, ax.px(p.intensity), ax.py(p.gflops), color(p.kernel), p.causal);
        let line = mark.concat("\n");
        r.append(line.as_str());
        i += 1;
    }
    r
}

/// A marker in the legend, whose text stands on line `y`.
pub open spec fn sample_spec<S: Measure>(
    kernel: Seq<char>,
    y: usize,
    fill: Seq<char>,
    hollow: bool,
) -> Seq<char> {
    marker_spec(
        kernel,
        S::from_usize_spec(719),
        S::from_usize_spec(y).sub_spec(S::from_usize_spec(4)),
        fill,
        hollow,
    )
}

fn sample<S: Measure>(kernel: &str, y: usize, fill: &str, hollow: bool) -> (r: String)
    ensures
        r@ == sample_spec::<S>(kernel@, y, fill@, hollow),
{
    marker(
        kernel,
        S::from_usize(719),
        S::from_usize(y).sub(S::from_usize(4)),
        fill,
        hollow,
    )
}

/// The names of the axes, the legend, and the end of the figure.
pub open spec fn legend_pieces<S: Measure>() -> Seq<Seq<char>> {
    seq![
        "<text x=\"384.0\" y=\"542.0\" font-size=\"12.5\" fill=\"#0f172a\" text-anchor=\"middle\">arithmetic intensity (FLOP / byte)</text>\n<text transform=\"translate(22,291.0) rotate(-90)\" font-size=\"12.5\" fill=\"#0f172a\" text-anchor=\"middle\">GFLOP/s</text>\n<text x=\"712.0\" y=\"94.0\" font-size=\"12\" font-weight=\"600\" fill=\"#0f172a\">kernel</text>\n"@,
        sample_spec::<S>(KERNELS@[0]@, 114, COLORS@[0]@, false),
        "\n<text x=\"734.0\" y=\"114.0\" font-size=\"12\" fill=\"#334155\">naive</text>\n"@,
        sample_spec::<S>(KERNELS@[1]@, 136, COLORS@[1]@, false),
        "\n<text x=\"734.0\" y=\"136.0\" font-size=\"12\" fill=\"#334155\">tiled</text>\n"@,
        sample_spec::<S>(KERNELS@[2]@, 158, COLORS@[2]@, false),
        "\n<text x=\"734.0\" y=\"158.0\" font-size=\"12\" fill=\"#334155\">simd</text>\n<text x=\"712.0\" y=\"190.0\" font-size=\"12\" font-weight=\"600\" fill=\"#0f172a\">mask</text>\n"@,
        sample_spec::<S>("naive"@, 210, "#334155"@, false),
        "\n<text x=\"734.0\" y=\"210.0\" font-size=\"12\" fill=\"#334155\">full</text>\n"@,
        sample_spec::<S>("naive"@, 232, "#334155"@, true),
        "\n<text x=\"734.0\" y=\"232.0\" font-size=\"12\" fill=\"#334155\">causal</text>\n"@,
        "</svg>\n"@,
    ]
}

fn legend<S: Measure>() -> (r: String)
    ensures
        r@ == cat_spec(legend_pieces::<S>()),
{
    let circle = sample::<S>(KERNELS[0], 114, COLORS[0], false);
    let square = sample::<S>(KERNELS[1], 136, COLORS[1], false);
    let triangle = sample::<S>(KERNELS[2], 158, COLORS[2], false);
    let full = sample::<S>("naive", 210, "#334155", false);
    let causal = sample::<S>("naive", 232, "#334155", true);
    let pieces = vec![
        "<text x=\"384.0\" y=\"542.0\" font-size=\"12.5\" fill=\"#0f172a\" text-anchor=\"middle\">arithmetic intensity (FLOP / byte)</text>\n<text transform=\"translate(22,291.0) rotate(-90)\" font-size=\"12.5\" fill=\"#0f172a\" text-anchor=\"middle\">GFLOP/s</text>\n<text x=\"712.0\" y=\"94.0\" font-size=\"12\" font-weight=\"600\" fill=\"#0f172a\">kernel</text>\n",
        circle.as_str(),
        "\n<text x=\"734.0\" y=\"114.0\" font-size=\"12\" fill=\"#334155\">naive</text>\n",
        square.as_str(),
        "\n<text x=\"734.0\" y=\"136.0\" font-size=\"12\" fill=\"#334155\">tiled</text>\n",
        triangle.as_str(),
        "\n<text x=\"734.0\" y=\"158.0\" font-size=\"12\" fill=\"#334155\">simd</text>\n<text x=\"712.0\" y=\"190.0\" font-size=\"12\" font-weight=\"600\" fill=\"#0f172a\">mask</text>\n",
        full.as_str(),
        "\n<text x=\"734.0\" y=\"210.0\" font-size=\"12\" fill=\"#334155\">full</text>\n",
        causal.as_str(),
        "\n<text x=\"734.0\" y=\"232.0\" font-size=\"12\" fill=\"#334155\">causal</text>\n",
        "</svg>\n",
    ];
    assert(views(pieces@) =~= legend_pieces::<S>());
    cat(pieces)
}

/// The whole figure.
pub open spec fn svg_spec<S: Measure>(m: Machine<S>, pts: Seq<Point<S>>) -> Seq<char> {
    let ax = axes_spec(m, pts);
    cat_spec(
        seq![
            cat_spec(head_pieces(m, pts)),
            grid_spec(ax),
            cat_spec(ceiling_pieces(m, ax)),
            spots_spec(ax, pts, pts.len()),
            cat_spec(legend_pieces::<S>()),
        ],
    )
}

/// The grid of the figure is finite.
pub open spec fn plots<S: Measure>(m: Machine<S>, pts: Seq<Point<S>>) -> bool {
    let ax = axes_spec(m, pts);
    has_end(ax.x0, ax.x1) && has_end(ax.y0, ax.y1)
}

/// Whether a figure can be drawn, with at most `most` decades on an axis.
pub fn can_plot<S: Measure>(m: &Machine<S>, pts: &[Point<S>], most: usize) -> (r: bool)
    ensures
        r ==> plots(*m, pts@),
        r == ({
            let ax = axes_spec(*m, pts@);
            ends_within_spec(ax.x0, ax.x1, most as nat) && ends_within_spec(
                ax.y0,
                ax.y1,
                most as nat,
            )
        }),
{
    let ax = axes(m, pts);
    ends_within(ax.x0, ax.x1, most) && ends_within(ax.y0, ax.y1, most)
}

/// The figure: the roofline, and every operating point against it.
pub fn to_svg<S: Measure>(m: &Machine<S>, pts: &[Point<S>]) -> (r: String)
    requires
        plots(*m, pts@),
    ensures
        r@ == svg_spec(*m, pts@),
{
    let ax = axes(m, pts);
    let head = head(m, pts);
    let grid = grid(&ax);
    let ceiling = ceiling(m, &ax);
    let spots = spots(&ax, pts);
    let legend = legend::<S>();
    let pieces = vec![
        head.as_str(),
        grid.as_str(),
        ceiling.as_str(),
        spots.as_str(),
        legend.as_str(),
    ];
    assert(views(pieces@) =~= seq![head@, grid@, ceiling@, spots@, legend@]);
    cat(pieces)
}

} // verus!
