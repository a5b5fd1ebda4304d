//! The font-level values the parser produces: metrics and glyph outlines.

use vstd::prelude::*;

verus! {

/// Where the user's font lives, and its metrics once read.
#[derive(Default, Debug, Clone)]
pub struct FontUserOptions {
    pub path: String,
    pub font_metric: Option<FontMetric>,
}

/// Font-wide metrics from the `head` and `hhea` tables.
#[derive(Default, Debug, Clone, Copy, PartialEq, Eq, Structural)]
pub struct FontMetric {
    pub units_per_em: u16,
    pub long_loca: bool,
    pub layout_info: LayoutFontInfo,
}

/// Line layout metrics from the `hhea` table.
#[derive(Default, Debug, Clone, Copy, PartialEq, Eq, Structural)]
pub struct LayoutFontInfo {
    pub num_of_metrics: u16,
    pub ascent: i16,
    pub descent: i16,
    pub line_gap: i16,
}

/// One point of a glyph outline, in font units.
#[derive(Default, Debug, Clone, Copy, PartialEq, Eq, Structural)]
pub struct GlyphPoint {
    pub x: i16,
    pub y: i16,
    pub on_curve: bool,
}

/// The bounding box a glyph's header declares.
#[derive(Default, Debug, Clone, Copy, PartialEq, Eq, Structural)]
pub struct GlyphBounds {
    pub x_min: i16,
    pub y_min: i16,
    pub x_max: i16,
    pub y_max: i16,
}

/// A glyph outline: closed contours of points, and the declared bounds.
#[derive(Default, Debug, Clone)]
pub struct Glyph {
    pub contours: Vec<Vec<GlyphPoint>>,
    pub bounds: GlyphBounds,
}

/// What a glyph is, as mathematical values.
pub struct GlyphView {
    pub contours: Seq<Seq<GlyphPoint>>,
    pub bounds: GlyphBounds,
}

/// The contours of a vector of contours, as sequences of points.
pub open spec fn contours_view(cs: Seq<Vec<GlyphPoint>>) -> Seq<Seq<GlyphPoint>> {
    cs.map_values(|c: Vec<GlyphPoint>| c@)
}

impl View for Glyph {
    type V = GlyphView;

    open spec fn view(&self) -> GlyphView {
        GlyphView { contours: contours_view(self.contours@), bounds: self.bounds }
    }
}

/// The edges of one closed contour: each point joined to the next, the
/// last one back to the first.
pub open spec fn contour_edges(c: Seq<GlyphPoint>) -> Seq<(GlyphPoint, GlyphPoint)> {
    Seq::new(c.len(), |k: int| (c[k], c[(k + 1) % (c.len() as int)]))
}

/// The edges of all contours, contour after contour.
pub open spec fn outline_edges(cs: Seq<Seq<GlyphPoint>>) -> Seq<(GlyphPoint, GlyphPoint)> {
    cs.map_values(|c: Seq<GlyphPoint>| contour_edges(c)).flatten()
}

/// The total number of points over all contours.
pub open spec fn point_count(cs: Seq<Seq<GlyphPoint>>) -> nat
    decreases cs.len(),
{
    if cs.len() == 0 {
        0
    } else {
        point_count(cs.drop_last()) + cs.last().len()
    }
}

impl Glyph {
    /// A copy of this glyph, equal to it in every point.
    pub fn duplicate(&self) -> (r: Glyph)
        ensures
            r@ == self@,
    {
        let mut contours: Vec<Vec<GlyphPoint>> = Vec::new();
        for j in 0..self.contours.len()
            invariant
                contours@.len() == j,
                forall|k: int| 0 <= k < j ==> #[trigger] contours@[k]@ == self.contours@[k]@,
        {
            let src = &self.contours[j];
            let mut c: Vec<GlyphPoint> = Vec::new();
            for i in 0..src.len()
                invariant
                    c@ == src@.take(i as int),
            {
                c.push(src[i]);
                assert(c@ =~= src@.take(i + 1));
            }
            assert(c@ =~= src@);
            contours.push(c);
        }
        let r = Glyph { contours, bounds: self.bounds };
        assert(r@.contours =~= self@.contours);
        r
    }

    /// Every edge of the outline: for each contour, each point paired with
    /// the next one, and the last point with the first.
    pub fn get_edges(&self) -> (r: Vec<(GlyphPoint, GlyphPoint)>)
        ensures
            r@ == outline_edges(self@.contours),
    {
        let mut ret: Vec<(GlyphPoint, GlyphPoint)> = Vec::new();
        let ghost cs = self@.contours;
        let ghost f = |c: Seq<GlyphPoint>| contour_edges(c);
        for j in 0..self.contours.len()
            invariant
                cs == self@.contours,
                f == (|c: Seq<GlyphPoint>| contour_edges(c)),
                ret@ == cs.take(j as int).map_values(f).flatten(),
        {
            let contour = &self.contours[j];
            let ghost before = ret@;
            let n = contour.len();
            for i in 0..n
                invariant
                    n == contour@.len(),
                    contour@ == cs[j as int],
                    ret@ == before + contour_edges(contour@).take(i as int),
            {
                let start = contour[i];
                let end = contour[(i + 1) % n];
                ret.push((start, end));
                assert(ret@ =~= before + contour_edges(contour@).take(i + 1));
            }
            proof {
                assert(contour_edges(contour@).take(n as int) =~= contour_edges(contour@));
                assert(cs.take(j + 1).map_values(f) =~= cs.take(j as int).map_values(f).push(
                    f(cs[j as int]),
                ));
                cs.take(j as int).map_values(f).lemma_flatten_push(f(cs[j as int]));
            }
        }
        proof {
            assert(cs.take(self.contours@.len() as int) =~= cs);
        }
        ret
    }
}

/// An outline has as many edges as points: each point starts one edge.
pub proof fn lemma_edge_count(cs: Seq<Seq<GlyphPoint>>)
    ensures
        outline_edges(cs).len() == point_count(cs),
    decreases cs.len(),
{
    if cs.len() > 0 {
        let f = |c: Seq<GlyphPoint>| contour_edges(c);
        lemma_edge_count(cs.drop_last());
        assert(cs.map_values(f) =~= cs.drop_last().map_values(f).push(f(cs.last())));
        cs.drop_last().map_values(f).lemma_flatten_push(f(cs.last()));
    } else {
        assert(cs.map_values(|c: Seq<GlyphPoint>| contour_edges(c)) =~= Seq::<Seq<(GlyphPoint, GlyphPoint)>>::empty());
    }
}

} // verus!
