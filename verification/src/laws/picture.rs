//! Where the figure puts things, and what it writes there.
use crate::laws::dataset::{lemma_cat, tail_of};
use crate::laws::figure::holds;
use crate::laws::measures::{best_is_the_largest, minima_fit, worst_is_the_smallest};
use crate::laws::model::of;
use crate::laws::terms::splits;
use crate::roofline::{Machine, Point};
use crate::roofline::probe::{best_of, worst_of};
use crate::roofline::svg::{
    axes, axes_spec, can_plot, ceiling_pieces, color_spec, ends_at, ends_within, first_decade,
    fmt_tick, grid_spec, has_end, head_pieces, intensities, legend_pieces, lemma_decades, marker,
    paint_spec, plots, roof_spec, roof_x_spec, spot_spec, spots_spec, spreads, tenfold, throughputs,
    ticks, ticks_of, to_svg, vertex_spec, with_tick, x_grid_spec, x_tick_pieces, y_grid_spec,
    y_tick_pieces, Axes,
};
use crate::scalar::{Exact, Measure, Scalar};
use crate::text::cat_spec;
use vstd::prelude::*;

verus! {

/// How a marker is painted: filled with white where it is hollow and with its
/// colour where it is not, outlined in its colour either way, more thickly where it
/// is hollow.
pub open spec fn look(color: Seq<char>, hollow: bool) -> Seq<char> {
    if hollow {
        " fill=\"#ffffff\" stroke=\""@ + color + "\" stroke-width=\"2\""@
    } else {
        " fill=\""@ + color + "\" stroke=\""@ + color + "\" stroke-width=\"1.2\""@
    }
}

proof fn lemma_look(color: Seq<char>, hollow: bool)
    ensures
        paint_spec(color, hollow) == look(color, hollow),
{
    let pieces = seq![
        " fill=\""@,
        if hollow {
            "#ffffff"@
        } else {
            color
        },
        "\" stroke=\""@,
        color,
        "\" stroke-width=\""@,
        if hollow {
            "2"@
        } else {
            "1.2"@
        },
        "\""@,
    ];
    lemma_cat(pieces);
    reveal_with_fuel(tail_of, 8);
    reveal_strlit(" fill=\"");
    reveal_strlit("#ffffff");
    reveal_strlit("\" stroke=\"");
    reveal_strlit("\" stroke-width=\"");
    reveal_strlit("2");
    reveal_strlit("1.2");
    reveal_strlit("\"");
    reveal_strlit(" fill=\"#ffffff\" stroke=\"");
    reveal_strlit("\" stroke-width=\"2\"");
    reveal_strlit("\" stroke-width=\"1.2\"");
    if hollow {
        assert(" fill=\"#ffffff\" stroke=\""@ =~= " fill=\""@ + "#ffffff"@ + "\" stroke=\""@);
        assert("\" stroke-width=\"2\""@ =~= "\" stroke-width=\""@ + "2"@ + "\""@);
    } else {
        assert("\" stroke-width=\"1.2\""@ =~= "\" stroke-width=\""@ + "1.2"@ + "\""@);
    }
    assert(cat_spec(pieces) =~= look(color, hollow));
}

/// A circle at these coordinates.
pub open spec fn circle(x: Seq<char>, y: Seq<char>) -> Seq<char> {
    "<circle cx=\""@ + x + "\" cy=\""@ + y + "\" r=\"5.2\""@
}

/// A square of side 9.6 with its upper left corner at these coordinates.
pub open spec fn square(x: Seq<char>, y: Seq<char>) -> Seq<char> {
    "<rect x=\""@ + x + "\" y=\""@ + y + "\" width=\"9.6\" height=\"9.6\""@
}

/// A triangle with an apex and a level base.
pub open spec fn triangle(
    x: Seq<char>,
    top: Seq<char>,
    right: Seq<char>,
    left: Seq<char>,
    base: Seq<char>,
) -> Seq<char> {
    "<polygon points=\""@ + x + ","@ + top + " "@ + right + ","@ + base + " "@ + left + ","@ + base
        + "\""@
}

/// A marker is centred on its position whatever its paint. The baseline's is a
/// circle around (x, y); that of the tiled kernel is a square whose corner lies 4.8
/// left of and above it; any other is a triangle with its apex 6 above, its base 4
/// below, and its corners 5.5 to either side.
pub proof fn markers_are_centred<S: Measure>(
    kernel: &str,
    x: S,
    y: S,
    color: &str,
    hollow: bool,
    mark: String,
)
    requires
        call_ensures(marker::<S>, (kernel, x, y, color, hollow), mark),
        x.sub_spec(of::<S>(48).div_spec(of(10))).add_spec(of::<S>(48).div_spec(of(10))) == x,
        y.sub_spec(of::<S>(48).div_spec(of(10))).add_spec(of::<S>(48).div_spec(of(10))) == y,
        x.sub_spec(of::<S>(55).div_spec(of(10))).add_spec(of::<S>(55).div_spec(of(10))) == x,
        y.sub_spec(of(6)).add_spec(of(6)) == y,
    ensures
        kernel@ == "naive"@ ==> mark@ == circle(x.fixed_spec(1), y.fixed_spec(1)) + look(
            color@,
            hollow,
        ) + "/>"@,
        kernel@ == "tiled"@ ==> exists|left: S, top: S|
            {
                &&& left.add_spec(of::<S>(48).div_spec(of(10))) == x
                &&& top.add_spec(of::<S>(48).div_spec(of(10))) == y
                &&& mark@ == #[trigger] square(left.fixed_spec(1), top.fixed_spec(1)) + look(
                    color@,
                    hollow,
                ) + "/>"@
            },
        kernel@ != "naive"@ && kernel@ != "tiled"@ ==> exists|left: S, top: S|
            {
                &&& left.add_spec(of::<S>(55).div_spec(of(10))) == x
                &&& top.add_spec(of(6)) == y
                &&& mark@ == #[trigger] triangle(
                    x.fixed_spec(1),
                    top.fixed_spec(1),
                    x.add_spec(of::<S>(55).div_spec(of(10))).fixed_spec(1),
                    left.fixed_spec(1),
                    y.add_spec(of(4)).fixed_spec(1),
                ) + look(color@, hollow) + " stroke-linejoin=\"round\"/>"@
            },
{
    reveal_strlit("naive");
    reveal_strlit("tiled");
    assert("tiled"@[0] != "naive"@[0]);
    let paint = paint_spec(color@, hollow);
    lemma_look(color@, hollow);
    if kernel@ == "naive"@ {
        let pieces = seq![
            "<circle cx=\""@,
            x.fixed_spec(1),
            "\" cy=\""@,
            y.fixed_spec(1),
            "\" r=\"5.2\""@,
            paint,
            "/>"@,
        ];
        assert(mark@ == cat_spec(pieces));
        lemma_seven(pieces);
    } else if kernel@ == "tiled"@ {
        let c = of::<S>(48).div_spec(of(10));
        let (left, top) = (x.sub_spec(c), y.sub_spec(c));
        let pieces = seq![
            "<rect x=\""@,
            left.fixed_spec(1),
            "\" y=\""@,
            top.fixed_spec(1),
            "\" width=\"9.6\" height=\"9.6\""@,
            paint,
            "/>"@,
        ];
        assert(mark@ == cat_spec(pieces));
        lemma_seven(pieces);
        assert(mark@ == square(left.fixed_spec(1), top.fixed_spec(1)) + look(color@, hollow)
            + "/>"@);
    } else {
        let c = of::<S>(55).div_spec(of(10));
        let (left, top) = (x.sub_spec(c), y.sub_spec(of(6)));
        let right = x.add_spec(c).fixed_spec(1);
        let base = y.add_spec(of(4)).fixed_spec(1);
        let pieces = seq![
            "<polygon points=\""@,
            x.fixed_spec(1),
            ","@,
            top.fixed_spec(1),
            " "@,
            right,
            ","@,
            base,
            " "@,
            left.fixed_spec(1),
            ","@,
            base,
            "\""@,
            paint,
            " stroke-linejoin=\"round\"/>"@,
        ];
        assert(mark@ == cat_spec(pieces));
        lemma_fifteen(pieces);
        assert(mark@ == triangle(
            x.fixed_spec(1),
            top.fixed_spec(1),
            right,
            left.fixed_spec(1),
            base,
        ) + look(color@, hollow) + " stroke-linejoin=\"round\"/>"@);
    }
}

proof fn lemma_seven(p: Seq<Seq<char>>)
    requires
        p.len() == 7,
    ensures
        cat_spec(p) == p[0] + p[1] + p[2] + p[3] + p[4] + p[5] + p[6],
{
    lemma_left_nested(p, 7);
    lemma_left_nested(p, 6);
    lemma_left_nested(p, 5);
    lemma_left_nested(p, 4);
    lemma_left_nested(p, 3);
    lemma_left_nested(p, 2);
    lemma_left_nested(p, 1);
    assert(p.take(0) =~= Seq::empty());
    assert(Seq::<char>::empty() + p[0] =~= p[0]);
    assert(p.take(7) =~= p);
}

proof fn lemma_fifteen(p: Seq<Seq<char>>)
    requires
        p.len() == 15,
    ensures
        cat_spec(p) == p[0] + p[1] + p[2] + p[3] + p[4] + p[5] + p[6] + p[7] + p[8] + p[9] + p[10]
            + p[11] + p[12] + p[13] + p[14],
{
    let q = p.take(7);
    lemma_seven(q);
    lemma_left_nested(p, 15);
    lemma_left_nested(p, 14);
    lemma_left_nested(p, 13);
    lemma_left_nested(p, 12);
    lemma_left_nested(p, 11);
    lemma_left_nested(p, 10);
    lemma_left_nested(p, 9);
    lemma_left_nested(p, 8);
    assert(p.take(15) =~= p);
}

/// One piece more.
proof fn lemma_left_nested(p: Seq<Seq<char>>, k: int)
    requires
        0 < k <= p.len(),
    ensures
        cat_spec(p.take(k)) == cat_spec(p.take(k - 1)) + p[k - 1],
{
    assert(p.take(k).drop_last() =~= p.take(k - 1));
}

/// The filled and the hollow marker of a kernel at one position differ in their
/// paint only.
pub proof fn masks_change_only_the_paint<S: Measure>(
    kernel: &str,
    x: S,
    y: S,
    color: &str,
    filled: String,
    hollow: String,
)
    requires
        call_ensures(marker::<S>, (kernel, x, y, color, false), filled),
        call_ensures(marker::<S>, (kernel, x, y, color, true), hollow),
    ensures
        exists|before: Seq<char>, after: Seq<char>|
            {
                &&& filled@ == #[trigger] (before + look(color@, false) + after)
                &&& hollow@ == before + look(color@, true) + after
            },
{
    lemma_look(color@, false);
    lemma_look(color@, true);
    let (a, b) = (look(color@, false), look(color@, true));
    if kernel@ == "naive"@ {
        let before = circle(x.fixed_spec(1), y.fixed_spec(1));
        let p = seq![
            "<circle cx=\""@,
            x.fixed_spec(1),
            "\" cy=\""@,
            y.fixed_spec(1),
            "\" r=\"5.2\""@,
            a,
            "/>"@,
        ];
        lemma_seven(p);
        lemma_seven(p.update(5, b));
        assert(p.update(5, b) =~= seq![
            "<circle cx=\""@,
            x.fixed_spec(1),
            "\" cy=\""@,
            y.fixed_spec(1),
            "\" r=\"5.2\""@,
            b,
            "/>"@,
        ]);
        assert(filled@ == before + a + "/>"@);
    } else if kernel@ == "tiled"@ {
        let c = of::<S>(48).div_spec(of(10));
        let (l, t) = (x.sub_spec(c).fixed_spec(1), y.sub_spec(c).fixed_spec(1));
        let p = seq![
            "<rect x=\""@,
            l,
            "\" y=\""@,
            t,
            "\" width=\"9.6\" height=\"9.6\""@,
            a,
            "/>"@,
        ];
        lemma_seven(p);
        lemma_seven(p.update(5, b));
        assert(p.update(5, b) =~= seq![
            "<rect x=\""@,
            l,
            "\" y=\""@,
            t,
            "\" width=\"9.6\" height=\"9.6\""@,
            b,
            "/>"@,
        ]);
        assert(filled@ == square(l, t) + a + "/>"@);
    } else {
        let c = of::<S>(55).div_spec(of(10));
        let l = x.sub_spec(c).fixed_spec(1);
        let t = y.sub_spec(of(6)).fixed_spec(1);
        let r = x.add_spec(c).fixed_spec(1);
        let u = y.add_spec(of(4)).fixed_spec(1);
        let x0 = x.fixed_spec(1);
        let end = " stroke-linejoin=\"round\"/>"@;
        let p = seq![
            "<polygon points=\""@,
            x0,
            ","@,
            t,
            " "@,
            r,
            ","@,
            u,
            " "@,
            l,
            ","@,
            u,
            "\""@,
            a,
            end,
        ];
        lemma_fifteen(p);
        lemma_fifteen(p.update(13, b));
        assert(p.update(13, b) =~= seq![
            "<polygon points=\""@,
            x0,
            ","@,
            t,
            " "@,
            r,
            ","@,
            u,
            " "@,
            l,
            ","@,
            u,
            "\""@,
            b,
            end,
        ]);
        assert(filled@ == triangle(x0, t, r, l, u) + a + end);
    }
}

/// Positions on the axes are linear in the logarithm: the share of the way from one
/// end to the other, of 612 units to the right of 78, or of 406 units above 494.
pub proof fn positions_are_logarithmic<S: Measure>(ax: &Axes<S>, x: S, y: S, px: S, py: S)
    requires
        call_ensures(Axes::<S>::px, (ax, x), px),
        call_ensures(Axes::<S>::py, (ax, y), py),
        splits(
            x.log10_spec().sub_spec(ax.x0.log10_spec()),
            ax.x1.log10_spec().sub_spec(ax.x0.log10_spec()),
        ),
        splits(
            y.log10_spec().sub_spec(ax.y0.log10_spec()),
            ax.y1.log10_spec().sub_spec(ax.y0.log10_spec()),
        ),
    ensures
        exists|share: S|
            {
                &&& share.mul_spec(ax.x1.log10_spec().sub_spec(ax.x0.log10_spec()))
                    == x.log10_spec().sub_spec(ax.x0.log10_spec())
                &&& px == of::<S>(78).add_spec(#[trigger] share.mul_spec(of(612)))
            },
        exists|share: S|
            {
                &&& share.mul_spec(ax.y1.log10_spec().sub_spec(ax.y0.log10_spec()))
                    == y.log10_spec().sub_spec(ax.y0.log10_spec())
                &&& py == of::<S>(494).sub_spec(#[trigger] share.mul_spec(of(406)))
            },
{
    let a = x.log10_spec().sub_spec(ax.x0.log10_spec()).div_spec(
        ax.x1.log10_spec().sub_spec(ax.x0.log10_spec()),
    );
    let b = y.log10_spec().sub_spec(ax.y0.log10_spec()).div_spec(
        ax.y1.log10_spec().sub_spec(ax.y0.log10_spec()),
    );
    assert(px == of::<S>(78).add_spec(a.mul_spec(of(612))));
    assert(py == of::<S>(494).sub_spec(b.mul_spec(of(406))));
}

/// A fraction of two whole numbers.
pub open spec fn part<S: Scalar>(num: int, den: int) -> S {
    of::<S>(num).div_spec(of(den))
}

/// The axes reach past the points and the ridge: from the smaller of 0.45 of the
/// lowest intensity and 0.3 of the ridge to the larger of 2.2 of the highest and 3
/// of the ridge, and from 0.45 of the lowest throughput to 1.8 of the ceiling.
pub proof fn axes_cover_points_and_ridge<S: Exact + Measure>(
    m: &Machine<S>,
    pts: &[Point<S>],
    ax: Axes<S>,
    ridge: S,
)
    requires
        call_ensures(axes::<S>, (m, pts), ax),
        call_ensures(Machine::<S>::ridge, (m,), ridge),
        pts@.len() > 0,
        minima_fit::<S>(),
        forall|i: int|
            0 <= i < pts@.len() ==> (#[trigger] pts@[i]).intensity.is_finite_spec()
                && pts@[i].intensity.greater_than_spec(S::zero_spec())
                && pts@[i].gflops.is_finite_spec() && pts@[i].gflops.greater_than_spec(
                S::zero_spec(),
            ),
    ensures
        exists|low: int, high: int, slow: int|
            {
                &&& 0 <= low < pts@.len()
                &&& 0 <= high < pts@.len()
                &&& 0 <= slow < pts@.len()
                &&& forall|i: int|
                    0 <= i < pts@.len() ==> {
                        &&& !pts@[low].intensity.greater_than_spec(
                            (#[trigger] pts@[i]).intensity,
                        )
                        &&& !pts@[i].intensity.greater_than_spec(pts@[high].intensity)
                        &&& !pts@[slow].gflops.greater_than_spec(pts@[i].gflops)
                    }
                &&& ax.x0 == (#[trigger] pts@[low]).intensity.mul_spec(part(45, 100)).min_spec(
                    ridge.mul_spec(part(3, 10)),
                )
                &&& ax.x1 == (#[trigger] pts@[high]).intensity.mul_spec(part(22, 10)).max_spec(
                    ridge.mul_spec(of(3)),
                )
                &&& ax.y0 == (#[trigger] pts@[slow]).gflops.mul_spec(part(45, 100))
                &&& ax.y1 == m.peak_gflops.mul_spec(part(18, 10))
            },
{
    let (xs, ys) = (intensities(pts@), throughputs(pts@));
    assert forall|i: int| 0 <= i < xs.len() implies (#[trigger] xs[i]).is_finite_spec()
        && xs[i].greater_than_spec(S::zero_spec()) by {
        assert(pts@[i].intensity.is_finite_spec());
    }
    assert forall|i: int| 0 <= i < ys.len() implies (#[trigger] ys[i]).is_finite_spec()
        && ys[i].greater_than_spec(S::zero_spec()) by {
        assert(pts@[i].gflops.is_finite_spec());
    }
    best_is_the_largest(xs);
    worst_is_the_smallest(xs);
    worst_is_the_smallest(ys);
    let n = xs.len() as int;
    let low = choose|j: int|
        0 <= j < n && #[trigger] xs[j] == worst_of(xs);
    let high = choose|j: int|
        0 <= j < n && #[trigger] xs[j] == best_of(xs);
    let slow = choose|j: int|
        0 <= j < n && #[trigger] ys[j] == worst_of(ys);
    assert forall|i: int| 0 <= i < pts@.len() implies {
        &&& !pts@[low].intensity.greater_than_spec((#[trigger] pts@[i]).intensity)
        &&& !pts@[i].intensity.greater_than_spec(pts@[high].intensity)
        &&& !pts@[slow].gflops.greater_than_spec(pts@[i].gflops)
    } by {
        assert(!xs[low].greater_than_spec(xs[i]) && !xs[i].greater_than_spec(xs[high]));
        assert(!ys[slow].greater_than_spec(ys[i]));
    }
    assert(xs[low] == pts@[low].intensity && xs[high] == pts@[high].intensity && ys[slow]
        == pts@[slow].gflops);
}

/// Ten times as much, `k` times over.
pub open spec fn decade<S: Scalar>(start: S, k: nat) -> S
    decreases k,
{
    if k == 0 {
        start
    } else {
        decade(start, (k - 1) as nat).mul_spec(of(10))
    }
}

/// Where ticks may stand: at once, twice and five times each decade.
pub open spec fn is_round<S: Scalar>(v: S, start: S, k: nat) -> bool {
    ||| v == decade(start, k).mul_spec(S::one_spec())
    ||| v == decade(start, k).mul_spec(of(2))
    ||| v == decade(start, k).mul_spec(of(5))
}

proof fn lemma_decade<S: Scalar>(start: S, k: nat)
    ensures
        decade(start, k) == tenfold(start, k),
    decreases k,
{
    if k > 0 {
        lemma_decade(start, (k - 1) as nat);
    }
}

proof fn lemma_ticks<S: Measure>(lo: S, hi: S, k: nat)
    ensures
        forall|i: int|
            0 <= i < ticks_of(lo, hi, k).len() ==> {
                let v = #[trigger] ticks_of(lo, hi, k)[i];
                &&& lo.at_most_spec(v)
                &&& v.at_most_spec(hi)
                &&& exists|j: nat| j < k && #[trigger] is_round(v, first_decade(lo), j)
            },
        forall|v: S, j: nat|
            j < k && #[trigger] is_round(v, first_decade(lo), j) && lo.at_most_spec(v)
                && v.at_most_spec(hi) ==> ticks_of(lo, hi, k).contains(v),
    decreases k,
{
    let s = ticks_of(lo, hi, k);
    if k > 0 {
        let h = (k - 1) as nat;
        let start = first_decade(lo);
        lemma_ticks(lo, hi, h);
        lemma_decade(start, h);
        let d = tenfold(start, h);
        let before = ticks_of(lo, hi, h);
        let (v1, v2, v5) = (d.mul_spec(S::one_spec()), d.mul_spec(of(2)), d.mul_spec(of(5)));
        let one = with_tick(before, v1, lo, hi);
        let two = with_tick(one, v2, lo, hi);
        assert(s == with_tick(two, v5, lo, hi));
        assert(is_round(v1, start, h) && is_round(v2, start, h) && is_round(v5, start, h));
        assert forall|i: int| 0 <= i < s.len() implies {
            let v = #[trigger] s[i];
            &&& lo.at_most_spec(v)
            &&& v.at_most_spec(hi)
            &&& exists|j: nat| j < k && #[trigger] is_round(v, start, j)
        } by {
            if i < before.len() {
                assert(s[i] == before[i]);
                let j = choose|j: nat| j < h && #[trigger] is_round(before[i], start, j);
                assert(j < k && is_round(s[i], start, j));
            } else {
                assert(s[i] == v1 || s[i] == v2 || s[i] == v5);
            }
        }
        assert forall|v: S, j: nat|
            j < k && #[trigger] is_round(v, start, j) && lo.at_most_spec(v) && v.at_most_spec(
                hi,
            ) implies s.contains(v) by {
            if j < h {
                assert(before.contains(v));
                let i = choose|i: int| 0 <= i < before.len() && before[i] == v;
                assert(s[i] == v);
            } else {
                if v == v1 {
                    assert(one[one.len() - 1] == v1);
                    assert(s[one.len() - 1] == v1);
                } else if v == v2 {
                    assert(two[two.len() - 1] == v2);
                    assert(s[two.len() - 1] == v2);
                } else {
                    assert(s[s.len() - 1] == v5);
                }
            }
        }
    }
}

/// The ticks of an axis are the round numbers in its range, from the decade of its
/// lower end to the first one past ten times its upper end: all of them, and
/// nothing else.
pub proof fn ticks_are_the_round_numbers_in_range<S: Measure>(lo: S, hi: S, at: Vec<S>, end: nat)
    requires
        has_end(lo, hi),
        call_ensures(ticks::<S>, (lo, hi), at),
        !decade(lo.log10_spec().floor_spec().pow10_spec(), end).at_most_spec(
            hi.mul_spec(of(10)),
        ),
        forall|j: nat|
            j < end ==> (#[trigger] decade(
                lo.log10_spec().floor_spec().pow10_spec(),
                j,
            )).at_most_spec(hi.mul_spec(of(10))),
    ensures
        forall|i: int|
            0 <= i < at@.len() ==> {
                let v = #[trigger] at@[i];
                &&& lo.at_most_spec(v)
                &&& v.at_most_spec(hi)
                &&& exists|j: nat|
                    j < end && #[trigger] is_round(
                        v,
                        lo.log10_spec().floor_spec().pow10_spec(),
                        j,
                    )
            },
        forall|v: S, j: nat|
            j < end && #[trigger] is_round(v, lo.log10_spec().floor_spec().pow10_spec(), j)
                && lo.at_most_spec(v) && v.at_most_spec(hi) ==> at@.contains(v),
{
    let start = first_decade(lo);
    assert(ends_at(lo, hi, end)) by {
        lemma_decade(start, end);
        assert forall|j: nat| j < end implies (#[trigger] tenfold(start, j)).at_most_spec(
            hi.mul_spec(S::from_usize_spec(10)),
        ) by {
            lemma_decade(start, j);
            assert(decade(start, j).at_most_spec(hi.mul_spec(of(10))));
        }
    }
    lemma_decades(lo, hi, end);
    lemma_ticks(lo, hi, end);
}

/// An axis ends within so many decades where one of them lies past ten times its
/// upper end, and a figure can be drawn where both of its axes do.
pub proof fn figures_need_axes_that_end<S: Measure>(
    lo: S,
    hi: S,
    most: usize,
    ends: bool,
    m: &Machine<S>,
    pts: &[Point<S>],
    ax: Axes<S>,
    across: bool,
    up: bool,
    drawable: bool,
)
    requires
        call_ensures(ends_within::<S>, (lo, hi, most), ends),
        call_ensures(axes::<S>, (m, pts), ax),
        call_ensures(ends_within::<S>, (ax.x0, ax.x1, most), across),
        call_ensures(ends_within::<S>, (ax.y0, ax.y1, most), up),
        call_ensures(can_plot::<S>, (m, pts, most), drawable),
    ensures
        ends <==> exists|k: nat|
            k <= most && !(#[trigger] decade(
                lo.log10_spec().floor_spec().pow10_spec(),
                k,
            )).at_most_spec(hi.mul_spec(of(10))),
        drawable <==> across && up,
{
    let start = first_decade(lo);
    if ends {
        let k = choose|k: nat|
            k <= most && !(#[trigger] tenfold(start, k)).at_most_spec(
                hi.mul_spec(S::from_usize_spec(10)),
            );
        lemma_decade(start, k);
        assert(!decade(start, k).at_most_spec(hi.mul_spec(of(10))));
    } else {
        assert forall|k: nat| k <= most implies (#[trigger] decade(start, k)).at_most_spec(
            hi.mul_spec(of(10)),
        ) by {
            lemma_decade(start, k);
            assert(tenfold(start, k).at_most_spec(hi.mul_spec(S::from_usize_spec(10))));
        }
    }
}

/// A tick is labelled with no digits after the point from one on, with one from a
/// tenth on, and with two below.
pub proof fn ticks_have_the_digits_they_need<S: Measure>(v: S, label: String)
    requires
        call_ensures(fmt_tick::<S>, (v,), label),
    ensures
        S::one_spec().at_most_spec(v) ==> label@ == v.fixed_spec(0),
        !S::one_spec().at_most_spec(v) && part::<S>(1, 10).at_most_spec(v) ==> label@
            == v.fixed_spec(1),
        !S::one_spec().at_most_spec(v) && !part::<S>(1, 10).at_most_spec(v) ==> label@
            == v.fixed_spec(2),
{
}

/// The colour of a kernel.
pub open spec fn hue(kernel: Seq<char>) -> Seq<char> {
    if kernel == "tiled"@ {
        "#0369a1"@
    } else if kernel == "simd"@ {
        "#15803d"@
    } else {
        "#c2410c"@
    }
}

/// The first `k` marks, a line each.
pub open spec fn lines(marks: Seq<String>, k: nat) -> Seq<char>
    decreases k,
{
    if k == 0 {
        Seq::empty()
    } else {
        lines(marks, (k - 1) as nat) + marks[k - 1]@ + "\n"@
    }
}

/// `marks` are the markers of the points: each at the position of its intensity and
/// throughput on the axes, in the colour of its kernel, hollow where it is causal.
pub open spec fn mark_points<S: Measure>(
    ax: Axes<S>,
    pts: Seq<Point<S>>,
    xs: Seq<S>,
    ys: Seq<S>,
    colors: Seq<&str>,
    marks: Seq<String>,
) -> bool {
    forall|i: int|
        0 <= i < pts.len() ==> {
            &&& call_ensures(Axes::<S>::px, (&ax, pts[i].intensity), xs[i])
            &&& call_ensures(Axes::<S>::py, (&ax, pts[i].gflops), ys[i])
            &&& colors[i]@ == hue(pts[i].kernel@)
            &&& call_ensures(
                marker::<S>,
                (pts[i].kernel, xs[i], ys[i], colors[i], pts[i].causal),
                #[trigger] marks[i],
            )
        }
}

proof fn lemma_marks<S: Measure>(
    ax: Axes<S>,
    pts: Seq<Point<S>>,
    xs: Seq<S>,
    ys: Seq<S>,
    colors: Seq<&str>,
    marks: Seq<String>,
    k: nat,
)
    requires
        mark_points(ax, pts, xs, ys, colors, marks),
        k <= pts.len(),
    ensures
        spots_spec(ax, pts, k) == lines(marks, k),
    decreases k,
{
    if k > 0 {
        lemma_marks(ax, pts, xs, ys, colors, marks, (k - 1) as nat);
        let p = pts[k - 1];
        let mark = marks[k - 1];
        reveal_strlit("naive");
        reveal_strlit("tiled");
        reveal_strlit("simd");
        assert("tiled"@[0] != "naive"@[0] && "simd"@[0] != "naive"@[0] && "simd"@[0]
            != "tiled"@[0]);
        assert(color_spec(p.kernel@) == hue(p.kernel@));
        assert(spot_spec(ax, p) == mark@ + "\n"@);
        assert(lines(marks, (k - 1) as nat) + (mark@ + "\n"@) =~= lines(marks, (k - 1) as nat)
            + mark@ + "\n"@);
    }
}

/// The figure draws the markers of its points, in their order.
pub proof fn figures_mark_their_points<S: Measure>(
    m: &Machine<S>,
    pts: &[Point<S>],
    figure: String,
    ax: Axes<S>,
    xs: Seq<S>,
    ys: Seq<S>,
    colors: Seq<&str>,
    marks: Seq<String>,
)
    requires
        call_ensures(to_svg::<S>, (m, pts), figure),
        call_ensures(axes::<S>, (m, pts), ax),
        mark_points(ax, pts@, xs, ys, colors, marks),
    ensures
        holds(figure@, lines(marks, pts@.len())),
{
    lemma_marks(ax, pts@, xs, ys, colors, marks, pts@.len());
    let parts = svg_parts(*m, pts@);
    lemma_span(parts, 3, 4);
    lemma_one(parts.subrange(3, 4));
}

/// The parts of a figure.
spec fn svg_parts<S: Measure>(m: Machine<S>, pts: Seq<Point<S>>) -> Seq<Seq<char>> {
    let ax = axes_spec(m, pts);
    seq![
        cat_spec(head_pieces(m, pts)),
        grid_spec(ax),
        cat_spec(ceiling_pieces(m, ax)),
        spots_spec(ax, pts, pts.len()),
        cat_spec(legend_pieces::<S>()),
    ]
}

proof fn lemma_one(p: Seq<Seq<char>>)
    requires
        p.len() == 1,
    ensures
        cat_spec(p) == p[0],
{
    reveal_with_fuel(cat_spec, 2);
    assert(p.drop_last() =~= Seq::empty());
    assert(Seq::<char>::empty() + p[0] =~= p[0]);
}

/// Neighbouring pieces stand next to each other.
proof fn lemma_span(p: Seq<Seq<char>>, a: int, b: int)
    requires
        0 <= a <= b <= p.len(),
    ensures
        holds(cat_spec(p), cat_spec(p.subrange(a, b))),
    decreases p.len(),
{
    if b < p.len() {
        let front = p.drop_last();
        lemma_span(front, a, b);
        assert(front.subrange(a, b) =~= p.subrange(a, b));
        let mid = cat_spec(p.subrange(a, b));
        let (before, after) = choose|before: Seq<char>, after: Seq<char>|
            cat_spec(front) == #[trigger] (before + mid + after);
        assert(cat_spec(p) =~= before + mid + (after + p.last()));
    } else {
        lemma_joined(p, a);
        let mid = cat_spec(p.subrange(a, b));
        assert(cat_spec(p) =~= cat_spec(p.take(a)) + mid + Seq::empty());
    }
}

proof fn lemma_joined(p: Seq<Seq<char>>, a: int)
    requires
        0 <= a <= p.len(),
    ensures
        cat_spec(p) == cat_spec(p.take(a)) + cat_spec(p.subrange(a, p.len() as int)),
    decreases p.len() - a,
{
    let n = p.len() as int;
    if a == n {
        assert(p.take(a) =~= p);
        assert(p.subrange(a, n) =~= Seq::empty());
        assert(cat_spec(p) + Seq::<char>::empty() =~= cat_spec(p));
    } else {
        lemma_joined_front(p, a);
    }
}

proof fn lemma_joined_front(p: Seq<Seq<char>>, a: int)
    requires
        0 <= a < p.len(),
    ensures
        cat_spec(p) == cat_spec(p.take(a)) + cat_spec(p.subrange(a, p.len() as int)),
    decreases p.len(),
{
    let n = p.len() as int;
    let front = p.drop_last();
    let tail = p.subrange(a, n);
    assert(tail.drop_last() =~= front.subrange(a, n - 1));
    assert(front.take(a) =~= p.take(a));
    if a < n - 1 {
        lemma_joined_front(front, a);
    } else {
        assert(front =~= p.take(a));
        assert(front.subrange(a, n - 1) =~= Seq::empty());
        assert(cat_spec(front) + Seq::<char>::empty() =~= cat_spec(front));
    }
    assert(cat_spec(front) + p.last() =~= cat_spec(p.take(a)) + (cat_spec(tail.drop_last())
        + p.last()));
}

proof fn lemma_two(p: Seq<Seq<char>>)
    requires
        p.len() == 2,
    ensures
        cat_spec(p) == p[0] + p[1],
{
    lemma_one(p.drop_last());
}

/// The legend shows, beside each kernel's name, a marker as the figure has them for
/// that kernel, and beside the masks' names a filled and a hollow one. The axes are
/// named after what they show.
pub proof fn legends_explain_the_markers<S: Measure>(
    m: &Machine<S>,
    pts: &[Point<S>],
    figure: String,
    red: &str,
    blue: &str,
    green: &str,
    grey: &str,
    naive: String,
    tiled: String,
    simd: String,
    full: String,
    causal: String,
)
    requires
        call_ensures(to_svg::<S>, (m, pts), figure),
        red@ == hue("naive"@),
        blue@ == hue("tiled"@),
        green@ == hue("simd"@),
        grey@ == "#334155"@,
        call_ensures(
            marker::<S>,
            ("naive", of::<S>(719), of::<S>(114).sub_spec(of(4)), red, false),
            naive,
        ),
        call_ensures(
            marker::<S>,
            ("tiled", of::<S>(719), of::<S>(136).sub_spec(of(4)), blue, false),
            tiled,
        ),
        call_ensures(
            marker::<S>,
            ("simd", of::<S>(719), of::<S>(158).sub_spec(of(4)), green, false),
            simd,
        ),
        call_ensures(
            marker::<S>,
            ("naive", of::<S>(719), of::<S>(210).sub_spec(of(4)), grey, false),
            full,
        ),
        call_ensures(
            marker::<S>,
            ("naive", of::<S>(719), of::<S>(232).sub_spec(of(4)), grey, true),
            causal,
        ),
    ensures
        holds(
            figure@,
            "<text x=\"384.0\" y=\"542.0\" font-size=\"12.5\" fill=\"#0f172a\" text-anchor=\"middle\">arithmetic intensity (FLOP / byte)</text>\n<text transform=\"translate(22,291.0) rotate(-90)\" font-size=\"12.5\" fill=\"#0f172a\" text-anchor=\"middle\">GFLOP/s</text>\n<text x=\"712.0\" y=\"94.0\" font-size=\"12\" font-weight=\"600\" fill=\"#0f172a\">kernel</text>\n"@
                + naive@,
        ),
        holds(
            figure@,
            naive@
                + "\n<text x=\"734.0\" y=\"114.0\" font-size=\"12\" fill=\"#334155\">naive</text>\n"@,
        ),
        holds(
            figure@,
            tiled@
                + "\n<text x=\"734.0\" y=\"136.0\" font-size=\"12\" fill=\"#334155\">tiled</text>\n"@,
        ),
        holds(
            figure@,
            simd@
                + "\n<text x=\"734.0\" y=\"158.0\" font-size=\"12\" fill=\"#334155\">simd</text>\n<text x=\"712.0\" y=\"190.0\" font-size=\"12\" font-weight=\"600\" fill=\"#0f172a\">mask</text>\n"@,
        ),
        holds(
            figure@,
            full@
                + "\n<text x=\"734.0\" y=\"210.0\" font-size=\"12\" fill=\"#334155\">full</text>\n"@,
        ),
        holds(
            figure@,
            causal@
                + "\n<text x=\"734.0\" y=\"232.0\" font-size=\"12\" fill=\"#334155\">causal</text>\n"@,
        ),
{
    reveal_strlit("naive");
    reveal_strlit("tiled");
    reveal_strlit("simd");
    assert("tiled"@[0] != "naive"@[0] && "simd"@[0] != "naive"@[0] && "simd"@[0] != "tiled"@[0]);
    let parts = svg_parts(*m, pts@);
    lemma_span(parts, 4, 5);
    lemma_one(parts.subrange(4, 5));
    let pieces = legend_pieces::<S>();
    let marks = seq![naive@, tiled@, simd@, full@, causal@];
    lemma_pair(figure@, pieces, 0);
    assert forall|k: int| 0 <= k < 5 implies holds(
        figure@,
        #[trigger] marks[k] + pieces[2 * k + 2],
    ) by {
        lemma_pair(figure@, pieces, 2 * k + 1);
        assert(marks[k] == pieces[2 * k + 1]) by {
            assert(k == 0 || k == 1 || k == 2 || k == 3 || k == 4);
        }
    }
    assert(holds(figure@, marks[0] + pieces[2]));
    assert(holds(figure@, marks[1] + pieces[4]));
    assert(holds(figure@, marks[2] + pieces[6]));
    assert(holds(figure@, marks[3] + pieces[8]));
    assert(holds(figure@, marks[4] + pieces[10]));
}

/// Two neighbouring pieces stand next to each other.
proof fn lemma_pair(whole: Seq<char>, pieces: Seq<Seq<char>>, i: int)
    requires
        holds(whole, cat_spec(pieces)),
        0 <= i < pieces.len() - 1,
    ensures
        holds(whole, pieces[i] + pieces[i + 1]),
{
    lemma_span(pieces, i, i + 2);
    lemma_two(pieces.subrange(i, i + 2));
    lemma_holds_within(whole, cat_spec(pieces), pieces[i] + pieces[i + 1]);
}

/// What stands in a part of the whole stands in the whole.
pub(crate) proof fn lemma_holds_within(whole: Seq<char>, part: Seq<char>, inner: Seq<char>)
    requires
        holds(whole, part),
        holds(part, inner),
    ensures
        holds(whole, inner),
{
    let (a, b) = choose|a: Seq<char>, b: Seq<char>| whole == #[trigger] (a + part + b);
    let (c, d) = choose|c: Seq<char>, d: Seq<char>| part == #[trigger] (c + inner + d);
    assert(whole =~= (a + c) + inner + (d + b));
}

/// The figure says what it was measured on, both ceilings and where they cross, and
/// the largest spread of its points.
pub proof fn figures_say_what_they_measured<S: Exact + Measure>(
    m: &Machine<S>,
    pts: &[Point<S>],
    figure: String,
    ridge: S,
    spread: S,
)
    requires
        call_ensures(to_svg::<S>, (m, pts), figure),
        call_ensures(Machine::<S>::ridge, (m,), ridge),
        pts@.len() > 0,
        forall|i: int|
            0 <= i < pts@.len() ==> (#[trigger] pts@[i]).spread_pct.is_finite_spec()
                && pts@[i].spread_pct.greater_than_spec(S::zero_spec())
                && !pts@[i].spread_pct.greater_than_spec(spread),
        exists|i: int| 0 <= i < pts@.len() && (#[trigger] pts@[i]).spread_pct == spread,
    ensures
        holds(
            figure@,
            cat_spec(
                seq![
                    ")</text>\n<text x=\"78\" y=\"50\" font-size=\"12\" fill=\"#475569\">measured on "@,
                    m.arch@,
                    " — "@,
                    m.isa@,
                    "</text>\n<text x=\"78\" y=\"68\" font-size=\"11.5\" fill=\"#64748b\">compute ceiling "@,
                    m.peak_gflops.fixed_spec(0),
                    " GFLOP/s  ·  bandwidth "@,
                    m.bandwidth_gbs.fixed_spec(1),
                    " GB/s  ·  ridge "@,
                    ridge.fixed_spec(2),
                    " FLOP/byte  ·  worst point spread "@,
                    spread.fixed_spec(0),
                    "%</text>\n"@,
                ],
            ),
        ),
{
    let x = spreads(pts@);
    assert forall|i: int| 0 <= i < x.len() implies (#[trigger] x[i]).is_finite_spec()
        && x[i].greater_than_spec(S::zero_spec()) by {
        assert(pts@[i].spread_pct.is_finite_spec());
    }
    best_is_the_largest(x);
    let i = choose|i: int| 0 <= i < pts@.len() && (#[trigger] pts@[i]).spread_pct == spread;
    assert(x[i] == spread);
    let best = best_of(x);
    let b = choose|j: int| 0 <= j < x.len() && #[trigger] x[j] == best;
    assert(x[b] == pts@[b].spread_pct);
    S::order_is_total(best, spread);
    let parts = svg_parts(*m, pts@);
    lemma_span(parts, 0, 1);
    lemma_one(parts.subrange(0, 1));
    let pieces = head_pieces(*m, pts@);
    lemma_span(pieces, 3, 16);
    let seg = seq![
        ")</text>\n<text x=\"78\" y=\"50\" font-size=\"12\" fill=\"#475569\">measured on "@,
        m.arch@,
        " — "@,
        m.isa@,
        "</text>\n<text x=\"78\" y=\"68\" font-size=\"11.5\" fill=\"#64748b\">compute ceiling "@,
        m.peak_gflops.fixed_spec(0),
        " GFLOP/s  ·  bandwidth "@,
        m.bandwidth_gbs.fixed_spec(1),
        " GB/s  ·  ridge "@,
        ridge.fixed_spec(2),
        " FLOP/byte  ·  worst point spread "@,
        spread.fixed_spec(0),
        "%</text>\n"@,
    ];
    assert(pieces.subrange(3, 16) =~= seg);
    lemma_holds_within(figure@, cat_spec(pieces), cat_spec(seg));
}

/// Where the ridge is drawn: at its position on the axis, or at the end that it
/// lies beyond.
pub open spec fn clamped<S: Measure>(at: S) -> S {
    if of::<S>(78).greater_than_spec(at) {
        of(78)
    } else if at.greater_than_spec(of(690)) {
        of(690)
    } else {
        at
    }
}

/// The roofline as drawn: points at equal steps of the logarithm of the intensity,
/// from one end of the axis to the other, each at the height of the ceiling there.
pub open spec fn is_roof<S: Measure>(
    roof: Seq<char>,
    m: &Machine<S>,
    ax: &Axes<S>,
    at: Seq<S>,
    ceilings: Seq<S>,
    xs: Seq<S>,
    ys: Seq<S>,
) -> bool {
    &&& forall|i: int|
        0 <= i <= 220 ==> {
            &&& #[trigger] at[i] == ax.x0.log10_spec().add_spec(
                part::<S>(i, 220).mul_spec(ax.x1.log10_spec().sub_spec(ax.x0.log10_spec())),
            ).pow10_spec()
            &&& call_ensures(Machine::<S>::ceiling_at, (m, at[i]), ceilings[i])
            &&& call_ensures(Axes::<S>::px, (ax, at[i]), xs[i])
            &&& call_ensures(Axes::<S>::py, (ax, ceilings[i]), ys[i])
        }
    &&& roof == vertices(xs, ys, 220)
}

/// Points up to number `k`, a blank between each two.
pub open spec fn vertices<S: Measure>(xs: Seq<S>, ys: Seq<S>, k: nat) -> Seq<char>
    decreases k,
{
    let one = xs[k as int].fixed_spec(1) + ","@ + ys[k as int].fixed_spec(1);
    if k == 0 {
        one
    } else {
        vertices(xs, ys, (k - 1) as nat) + " "@ + one
    }
}

proof fn lemma_roof<S: Measure>(
    m: &Machine<S>,
    ax: &Axes<S>,
    at: Seq<S>,
    ceilings: Seq<S>,
    xs: Seq<S>,
    ys: Seq<S>,
    k: usize,
)
    requires
        k <= 220,
        is_roof(vertices(xs, ys, 220), m, ax, at, ceilings, xs, ys),
    ensures
        roof_spec(*m, *ax, k) == vertices(xs, ys, k as nat),
    decreases k,
{
    let i = k as int;
    assert(at[i] == roof_x_spec(*ax, k));
    assert(vertex_spec(*m, *ax, k) == xs[i].fixed_spec(1) + ","@ + ys[i].fixed_spec(1));
    if k > 0 {
        lemma_roof(m, ax, at, ceilings, xs, ys, (k - 1) as usize);
    }
}

/// The figure shades what lies left of the ridge, draws the roofline over it, and a
/// line at the ridge with its labels.
pub proof fn figures_draw_the_roofline<S: Measure>(
    m: &Machine<S>,
    pts: &[Point<S>],
    figure: String,
    ax: Axes<S>,
    ridge: S,
    at_ridge: S,
    at: Seq<S>,
    ceilings: Seq<S>,
    xs: Seq<S>,
    ys: Seq<S>,
    roof: Seq<char>,
)
    requires
        call_ensures(to_svg::<S>, (m, pts), figure),
        call_ensures(axes::<S>, (m, pts), ax),
        call_ensures(Machine::<S>::ridge, (m,), ridge),
        call_ensures(Axes::<S>::px, (&ax, ridge), at_ridge),
        is_roof(roof, m, &ax, at, ceilings, xs, ys),
    ensures
        ({
            let x = clamped(at_ridge);
            holds(
                figure@,
                cat_spec(
                    seq![
                        "<rect x=\"78.0\" y=\"88.0\" width=\""@,
                        x.sub_spec(of(78)).fixed_spec(1),
                        "\" height=\"406.0\" fill=\"#0369a1\" opacity=\"0.04\"/>\n<polyline points=\""@,
                        roof,
                        "\" fill=\"none\" stroke=\"#0f172a\" stroke-width=\"2.4\" stroke-linejoin=\"round\"/>\n<line x1=\""@,
                        x.fixed_spec(1),
                        "\" y1=\"88.0\" x2=\""@,
                        x.fixed_spec(1),
                        "\" y2=\"494.0\" stroke=\"#0f172a\" stroke-width=\"1.4\" stroke-dasharray=\"5 4\" opacity=\"0.65\"/>\n<text x=\""@,
                        x.sub_spec(of(8)).fixed_spec(1),
                        "\" y=\"102.0\" font-size=\"11\" fill=\"#0f172a\" text-anchor=\"end\" opacity=\"0.8\">memory-bound</text>\n<text x=\""@,
                        x.add_spec(of(8)).fixed_spec(1),
                        "\" y=\"102.0\" font-size=\"11\" fill=\"#0f172a\" opacity=\"0.8\">compute-bound</text>\n<text x=\""@,
                        x.sub_spec(of(7)).fixed_spec(1),
                        "\" y=\"485.0\" font-size=\"10.5\" fill=\"#0f172a\" text-anchor=\"end\" opacity=\"0.75\">ridge "@,
                        ridge.fixed_spec(2),
                        "</text>\n"@,
                    ],
                ),
            )
        }),
{
    lemma_roof(m, &ax, at, ceilings, xs, ys, 220);
    let x = clamped(at_ridge);
    let parts = svg_parts(*m, pts@);
    lemma_span(parts, 2, 3);
    lemma_one(parts.subrange(2, 3));
    let seg = seq![
        "<rect x=\"78.0\" y=\"88.0\" width=\""@,
        x.sub_spec(of(78)).fixed_spec(1),
        "\" height=\"406.0\" fill=\"#0369a1\" opacity=\"0.04\"/>\n<polyline points=\""@,
        roof,
        "\" fill=\"none\" stroke=\"#0f172a\" stroke-width=\"2.4\" stroke-linejoin=\"round\"/>\n<line x1=\""@,
        x.fixed_spec(1),
        "\" y1=\"88.0\" x2=\""@,
        x.fixed_spec(1),
        "\" y2=\"494.0\" stroke=\"#0f172a\" stroke-width=\"1.4\" stroke-dasharray=\"5 4\" opacity=\"0.65\"/>\n<text x=\""@,
        x.sub_spec(of(8)).fixed_spec(1),
        "\" y=\"102.0\" font-size=\"11\" fill=\"#0f172a\" text-anchor=\"end\" opacity=\"0.8\">memory-bound</text>\n<text x=\""@,
        x.add_spec(of(8)).fixed_spec(1),
        "\" y=\"102.0\" font-size=\"11\" fill=\"#0f172a\" opacity=\"0.8\">compute-bound</text>\n<text x=\""@,
        x.sub_spec(of(7)).fixed_spec(1),
        "\" y=\"485.0\" font-size=\"10.5\" fill=\"#0f172a\" text-anchor=\"end\" opacity=\"0.75\">ridge "@,
        ridge.fixed_spec(2),
        "</text>\n"@,
    ];
    assert(ceiling_pieces(*m, ax) =~= seg);
}

/// Every tick of an axis has its grid line and its label.
pub proof fn figures_draw_every_tick<S: Measure>(
    m: &Machine<S>,
    pts: &[Point<S>],
    figure: String,
    ax: Axes<S>,
    across: Vec<S>,
    up: Vec<S>,
    i: int,
    v: S,
    at: S,
    label: String,
)
    requires
        plots(*m, pts@),
        call_ensures(to_svg::<S>, (m, pts), figure),
        call_ensures(axes::<S>, (m, pts), ax),
        call_ensures(ticks::<S>, (ax.x0, ax.x1), across),
        call_ensures(ticks::<S>, (ax.y0, ax.y1), up),
        call_ensures(fmt_tick::<S>, (v,), label),
    ensures
        0 <= i < across@.len() && v == across@[i] && call_ensures(Axes::<S>::px, (&ax, v), at)
            ==> ({
            let x = at.fixed_spec(1);
            let label = label@;
            holds(
                figure@,
                cat_spec(
                    seq![
                        "<line x1=\""@,
                        x,
                        "\" y1=\"88.0\" x2=\""@,
                        x,
                        "\" y2=\"494.0\" stroke=\"#e2e8f0\" stroke-width=\"1\"/>\n<text x=\""@,
                        x,
                        "\" y=\"512.0\" font-size=\"11\" fill=\"#64748b\" text-anchor=\"middle\">"@,
                        label,
                        "</text>\n"@,
                    ],
                ),
            )
        }),
        0 <= i < up@.len() && v == up@[i] && call_ensures(Axes::<S>::py, (&ax, v), at) ==> ({
            let y = at;
            let label = label@;
            holds(
                figure@,
                cat_spec(
                    seq![
                        "<line x1=\"78.0\" y1=\""@,
                        y.fixed_spec(1),
                        "\" x2=\"690.0\" y2=\""@,
                        y.fixed_spec(1),
                        "\" stroke=\"#e2e8f0\" stroke-width=\"1\"/>\n<text x=\"70.0\" y=\""@,
                        y.add_spec(part(38, 10)).fixed_spec(1),
                        "\" font-size=\"11\" fill=\"#64748b\" text-anchor=\"end\">"@,
                        label,
                        "</text>\n"@,
                    ],
                ),
            )
        }),
{
    let parts = svg_parts(*m, pts@);
    lemma_span(parts, 1, 2);
    lemma_one(parts.subrange(1, 2));
    let xs = across@;
    let ys = up@;
    let (a, b) = (x_grid_spec(ax, xs, xs.len()), y_grid_spec(ax, ys, ys.len()));
    if 0 <= i < xs.len() && v == xs[i] {
        lemma_x_grid(ax, xs, xs.len(), i);
        assert(a + b =~= Seq::empty() + a + b);
        assert(holds(grid_spec(ax), a));
        lemma_holds_within(figure@, grid_spec(ax), a);
        lemma_holds_within(figure@, a, cat_spec(x_tick_pieces(ax, v)));
    }
    if 0 <= i < ys.len() && v == ys[i] {
        lemma_y_grid(ax, ys, ys.len(), i);
        assert(a + b =~= a + b + Seq::empty());
        assert(holds(grid_spec(ax), b));
        lemma_holds_within(figure@, grid_spec(ax), b);
        lemma_holds_within(figure@, b, cat_spec(y_tick_pieces(ax, v)));
    }
}

proof fn lemma_x_grid<S: Measure>(ax: Axes<S>, at: Seq<S>, k: nat, i: int)
    requires
        0 <= i < k,
    ensures
        holds(x_grid_spec(ax, at, k), cat_spec(x_tick_pieces(ax, at[i]))),
    decreases k,
{
    let front = x_grid_spec(ax, at, (k - 1) as nat);
    let last = cat_spec(x_tick_pieces(ax, at[k - 1]));
    if i == k - 1 {
        assert(front + last =~= front + last + Seq::empty());
    } else {
        lemma_x_grid(ax, at, (k - 1) as nat, i);
        assert(front + last =~= Seq::empty() + front + last);
        assert(holds(front + last, front));
        lemma_holds_within(front + last, front, cat_spec(x_tick_pieces(ax, at[i])));
    }
}

proof fn lemma_y_grid<S: Measure>(ax: Axes<S>, at: Seq<S>, k: nat, i: int)
    requires
        0 <= i < k,
    ensures
        holds(y_grid_spec(ax, at, k), cat_spec(y_tick_pieces(ax, at[i]))),
    decreases k,
{
    let front = y_grid_spec(ax, at, (k - 1) as nat);
    let last = cat_spec(y_tick_pieces(ax, at[k - 1]));
    if i == k - 1 {
        assert(front + last =~= front + last + Seq::empty());
    } else {
        lemma_y_grid(ax, at, (k - 1) as nat, i);
        assert(front + last =~= Seq::empty() + front + last);
        assert(holds(front + last, front));
        lemma_holds_within(front + last, front, cat_spec(y_tick_pieces(ax, at[i])));
    }
}

} // verus!
