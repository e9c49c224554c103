//! What the figure holds.
use crate::laws::dataset::{lemma_cat, tail_of};
use crate::roofline::svg::{
    axes_spec, ceiling_pieces, grid_spec, head_pieces, legend_pieces, marker_spec, paint_spec,
    sample_spec, spot_spec, spots_spec, svg_spec, Axes, COLORS,
};
use crate::roofline::{Machine, Point, KERNELS};
use crate::scalar::{ratio_spec, Measure};
use crate::text::cat_spec;
use vstd::prelude::*;

verus! {

/// The markers of the points, a line each, in the order of the points.
pub open spec fn spot_lines<S: Measure>(ax: Axes<S>, pts: Seq<Point<S>>) -> Seq<Seq<char>> {
    Seq::new(pts.len(), |i: int| spot_spec(ax, pts[i]))
}

proof fn lemma_spots<S: Measure>(ax: Axes<S>, pts: Seq<Point<S>>, k: nat)
    requires
        k <= pts.len(),
    ensures
        spots_spec(ax, pts, k) == cat_spec(spot_lines(ax, pts).take(k as int)),
    decreases k,
{
    let lines = spot_lines(ax, pts);
    if k > 0 {
        lemma_spots(ax, pts, (k - 1) as nat);
        assert(lines.take(k as int).drop_last() =~= lines.take(k - 1));
    }
}

/// Pieces begin as their first one does, and end as their last one does.
proof fn lemma_ends(pieces: Seq<Seq<char>>)
    requires
        pieces.len() > 0,
    ensures
        cat_spec(pieces).take(pieces[0].len() as int) == pieces[0],
        cat_spec(pieces).len() >= pieces[0].len(),
        cat_spec(pieces).len() >= pieces.last().len(),
        cat_spec(pieces).skip(cat_spec(pieces).len() - pieces.last().len()) == pieces.last(),
{
    lemma_cat(pieces);
    assert(tail_of(pieces, 0) == pieces[0] + tail_of(pieces, 1));
    assert((pieces[0] + tail_of(pieces, 1)).take(pieces[0].len() as int) =~= pieces[0]);
    let front = cat_spec(pieces.drop_last());
    assert((front + pieces.last()).skip(front.len() as int) =~= pieces.last());
}

/// A figure is one `svg` element. Between its grid and ceilings and its legend it
/// draws one marker per point, in the order of the points.
pub proof fn figures_draw_every_point<S: Measure>(m: Machine<S>, pts: Seq<Point<S>>)
    ensures
        svg_spec(m, pts).len() >= 12,
        svg_spec(m, pts).take(5) == "<svg "@,
        svg_spec(m, pts).skip(svg_spec(m, pts).len() - 7) == "</svg>\n"@,
        spots_spec(axes_spec(m, pts), pts, pts.len()) == cat_spec(
            spot_lines(axes_spec(m, pts), pts),
        ),
        spot_lines(axes_spec(m, pts), pts).len() == pts.len(),
{
    let ax = axes_spec(m, pts);
    lemma_spots(ax, pts, pts.len());
    assert(spot_lines(ax, pts).take(pts.len() as int) =~= spot_lines(ax, pts));
    reveal_strlit("<svg ");
    reveal_strlit("</svg>\n");
    let (head, legend) = (cat_spec(head_pieces(m, pts)), cat_spec(legend_pieces::<S>()));
    lemma_ends(head_pieces(m, pts));
    lemma_ends(legend_pieces::<S>());
    let whole = seq![
        head,
        grid_spec(ax),
        cat_spec(ceiling_pieces(m, ax)),
        spots_spec(ax, pts, pts.len()),
        legend,
    ];
    lemma_ends(whole);
    lemma_cat(whole);
    reveal_with_fuel(tail_of, 6);
    let all = svg_spec(m, pts);
    assert(all.len() >= head.len() + legend.len());
    assert(all.take(head.len() as int).take(5) =~= all.take(5));
    assert(all.skip(all.len() - legend.len()).skip(legend.len() - 7) =~= all.skip(all.len() - 7));
}

/// The legend has five markers: one for each kernel, and a filled and a hollow one
/// for the masks.
pub proof fn legends_have_five_markers<S: Measure>()
    ensures
        Seq::new(5, |k: int| legend_pieces::<S>()[2 * k + 1]) == seq![
            sample_spec::<S>(KERNELS@[0]@, 114, COLORS@[0]@, false),
            sample_spec::<S>(KERNELS@[1]@, 136, COLORS@[1]@, false),
            sample_spec::<S>(KERNELS@[2]@, 158, COLORS@[2]@, false),
            sample_spec::<S>(KERNELS@[0]@, 210, "#334155"@, false),
            sample_spec::<S>(KERNELS@[0]@, 232, "#334155"@, true),
        ],
{
}

/// `part` stands somewhere in `s`.
pub open spec fn holds(s: Seq<char>, part: Seq<char>) -> bool {
    exists|before: Seq<char>, after: Seq<char>| s == #[trigger] (before + part + after)
}

/// A piece stands in what the pieces make.
proof fn lemma_holds(pieces: Seq<Seq<char>>, i: int)
    requires
        0 <= i < pieces.len(),
    ensures
        holds(cat_spec(pieces), pieces[i]),
    decreases pieces.len(),
{
    if i == pieces.len() - 1 {
        let before = cat_spec(pieces.drop_last());
        assert(cat_spec(pieces) =~= before + pieces[i] + Seq::empty());
    } else {
        let front = pieces.drop_last();
        lemma_holds(front, i);
        let (before, after) = choose|before: Seq<char>, after: Seq<char>|
            cat_spec(front) == #[trigger] (before + front[i] + after);
        assert(cat_spec(pieces) =~= before + pieces[i] + (after + pieces.last()));
    }
}

/// The shape that a kernel is marked with.
pub open spec fn shape(kernel: Seq<char>) -> Seq<char> {
    if kernel == "naive"@ {
        "<circle cx=\""@
    } else if kernel == "tiled"@ {
        "<rect x=\""@
    } else {
        "<polygon points=\""@
    }
}

/// A marker begins with its kernel's shape and has its paint: filled with white
/// where it is hollow and with its colour otherwise, outlined in its colour.
pub proof fn markers_show_kernel_and_mask<S: Measure>(
    kernel: Seq<char>,
    x: S,
    y: S,
    fill: Seq<char>,
    hollow: bool,
)
    ensures
        marker_spec(kernel, x, y, fill, hollow).take(shape(kernel).len() as int) == shape(kernel),
        holds(marker_spec(kernel, x, y, fill, hollow), paint_spec(fill, hollow)),
        paint_spec(fill, hollow) == " fill=\""@ + (if hollow {
            "#ffffff"@
        } else {
            fill
        }) + "\" stroke=\""@ + fill + "\" stroke-width=\""@ + (if hollow {
            "2"@
        } else {
            "1.2"@
        }) + "\""@,
{
    let paint = paint_spec(fill, hollow);
    let pieces = if kernel == "naive"@ {
        seq![
            "<circle cx=\""@,
            x.fixed_spec(1),
            "\" cy=\""@,
            y.fixed_spec(1),
            "\" r=\"5.2\""@,
            paint,
            "/>"@,
        ]
    } else if kernel == "tiled"@ {
        seq![
            "<rect x=\""@,
            x.sub_spec(ratio_spec(48, 10)).fixed_spec(1),
            "\" y=\""@,
            y.sub_spec(ratio_spec(48, 10)).fixed_spec(1),
            "\" width=\"9.6\" height=\"9.6\""@,
            paint,
            "/>"@,
        ]
    } else {
        seq![
            "<polygon points=\""@,
            x.fixed_spec(1),
            ","@,
            y.sub_spec(S::from_usize_spec(6)).fixed_spec(1),
            " "@,
            x.add_spec(ratio_spec(55, 10)).fixed_spec(1),
            ","@,
            y.add_spec(S::from_usize_spec(4)).fixed_spec(1),
            " "@,
            x.sub_spec(ratio_spec(55, 10)).fixed_spec(1),
            ","@,
            y.add_spec(S::from_usize_spec(4)).fixed_spec(1),
            "\""@,
            paint,
            " stroke-linejoin=\"round\"/>"@,
        ]
    };
    assert(marker_spec(kernel, x, y, fill, hollow) == cat_spec(pieces));
    lemma_ends(pieces);
    lemma_holds(pieces, pieces.len() - 2);
    let inner = seq![
        " fill=\""@,
        if hollow {
            "#ffffff"@
        } else {
            fill
        },
        "\" stroke=\""@,
        fill,
        "\" stroke-width=\""@,
        if hollow {
            "2"@
        } else {
            "1.2"@
        },
        "\""@,
    ];
    reveal_with_fuel(cat_spec, 8);
    assert(inner.drop_last() =~= inner.take(6));
    assert(inner.take(6).drop_last() =~= inner.take(5));
    assert(inner.take(5).drop_last() =~= inner.take(4));
    assert(inner.take(4).drop_last() =~= inner.take(3));
    assert(inner.take(3).drop_last() =~= inner.take(2));
    assert(inner.take(2).drop_last() =~= inner.take(1));
    assert(inner.take(1).drop_last() =~= Seq::empty());
    assert(Seq::<char>::empty() + inner[0] =~= inner[0]);
}

} // verus!
