//! Outlines whose points are moved.
//!
//! Outlines pass on unchanged, except for the slant of faked italics and the
//! transforms inside colour glyphs. The moved coordinates are handed in; what
//! they make of the outline is worked out here.

use crate::colr::AffineTransform;
use crate::outline::{
    bounds_numeric, curve_within, lemma_widened, no_bounds, Bounds, GlyphOutline, Point, QuadCurve,
};
use crate::scalar::Scalar;
use vstd::prelude::*;

verus! {

/// The bounds of the points of the first `n` curves.
pub open spec fn curve_bounds(curves: Seq<QuadCurve>, n: nat) -> Bounds
    decreases n,
{
    if n == 0 {
        no_bounds()
    } else {
        let c = curves[n - 1];
        curve_bounds(curves, (n - 1) as nat).with(c.p1).with(c.p2).with(c.p3)
    }
}

/// The curves that consist of `points`, three for each curve.
pub open spec fn curves_of_points(points: Seq<Point>) -> Seq<QuadCurve> {
    Seq::new(
        points.len() / 3,
        |i: int| QuadCurve { p1: points[3 * i], p2: points[3 * i + 1], p3: points[3 * i + 2] },
    )
}

/// `curves` with the x coordinates `xs`, three for each curve.
pub open spec fn curves_with_xs(curves: Seq<QuadCurve>, xs: Seq<Scalar>) -> Seq<QuadCurve> {
    Seq::new(
        curves.len(),
        |i: int|
            QuadCurve {
                p1: Point { x: xs[3 * i], y: curves[i].p1.y },
                p2: Point { x: xs[3 * i + 1], y: curves[i].p2.y },
                p3: Point { x: xs[3 * i + 2], y: curves[i].p3.y },
            },
    )
}

/// Puts points in place of those of an outline and takes its bounds anew.
fn replace_points(outline: &mut GlyphOutline, points: &Vec<Point>)
    requires
        points.len() == 3 * old(outline).curves.len(),
    ensures
        final(outline).curves@ == curves_of_points(points@),
        final(outline).bounds == curve_bounds(
            curves_of_points(points@),
            old(outline).curves@.len(),
        ),
{
    let n: usize = outline.curves.len();
    let mut bounds = Bounds::empty();
    let mut curves: Vec<QuadCurve> = Vec::new();
    let mut i: usize = 0;
    while i < n
        invariant
            i <= n,
            points.len() == 3 * n,
            curves@ == curves_of_points(points@).take(i as int),
            bounds == curve_bounds(curves_of_points(points@), i as nat),
        decreases n - i,
    {
        let curve = QuadCurve {
            p1: points[3 * i],
            p2: points[3 * i + 1],
            p3: points[3 * i + 2],
        };
        bounds.extend(curve.p1);
        bounds.extend(curve.p2);
        bounds.extend(curve.p3);
        curves.push(curve);
        i = i + 1;
        assert(curves@ =~= curves_of_points(points@).take(i as int));
    }
    assert(curves@ =~= curves_of_points(points@));
    outline.curves = curves;
    outline.bounds = bounds;
}

/// Slants a glyph outline. `xs` holds the slanted x coordinates, three for
/// each curve; the slant leaves y alone. An outline without curves is left as
/// it is.
pub fn apply_italic_shear(outline: &mut GlyphOutline, xs: &Vec<Scalar>)
    requires
        xs.len() == 3 * old(outline).curves.len(),
    ensures
        if old(outline).curves.len() == 0 {
            *final(outline) == *old(outline)
        } else {
            &&& final(outline).curves@ == curves_with_xs(old(outline).curves@, xs@)
            &&& final(outline).bounds == curve_bounds(
                curves_with_xs(old(outline).curves@, xs@),
                old(outline).curves@.len(),
            )
        },
{
    let n: usize = outline.curves.len();
    if n == 0 {
        return;
    }
    let mut points: Vec<Point> = Vec::new();
    let mut i: usize = 0;
    while i < n
        invariant
            i <= n,
            n == outline.curves.len(),
            *outline == *old(outline),
            xs.len() == 3 * n,
            points.len() == 3 * i,
            forall|k: int|
                0 <= k < i ==> {
                    let c = #[trigger] curves_with_xs(outline.curves@, xs@)[k];
                    &&& points@[3 * k] == c.p1
                    &&& points@[3 * k + 1] == c.p2
                    &&& points@[3 * k + 2] == c.p3
                },
        decreases n - i,
    {
        let curve = outline.curves[i];
        points.push(Point { x: xs[3 * i], y: curve.p1.y });
        points.push(Point { x: xs[3 * i + 1], y: curve.p2.y });
        points.push(Point { x: xs[3 * i + 2], y: curve.p3.y });
        i = i + 1;
    }
    assert(curves_of_points(points@) =~= curves_with_xs(outline.curves@, xs@));
    replace_points(outline, &points);
}

/// Transforms a glyph outline. `points` holds the transformed points, three
/// for each curve. The identity leaves the outline as it is.
pub fn apply_transform(
    outline: &mut GlyphOutline,
    transform: &AffineTransform,
    points: &Vec<Point>,
)
    requires
        points.len() == 3 * old(outline).curves.len(),
    ensures
        if transform.moves_nothing() {
            *final(outline) == *old(outline)
        } else {
            &&& final(outline).curves@ == curves_of_points(points@)
            &&& final(outline).bounds == curve_bounds(
                curves_of_points(points@),
                old(outline).curves@.len(),
            )
        },
{
    if !transform.is_identity() {
        replace_points(outline, points);
    }
}

/// Slanting an outline keeps every y coordinate.
pub proof fn lemma_shear_keeps_y(curves: Seq<QuadCurve>, xs: Seq<Scalar>, i: int)
    requires
        0 <= i < curves.len(),
        xs.len() == 3 * curves.len(),
    ensures
        curves_with_xs(curves, xs)[i].p1.y == curves[i].p1.y,
        curves_with_xs(curves, xs)[i].p2.y == curves[i].p2.y,
        curves_with_xs(curves, xs)[i].p3.y == curves[i].p3.y,
{
}

/// The bounds that are taken anew take in every point of every curve.
pub proof fn lemma_bounds_take_in_points(curves: Seq<QuadCurve>, n: nat, i: int)
    requires
        0 <= i < n,
    ensures
        bounds_numeric(curve_bounds(curves, n)),
        curve_within(curves[i], curve_bounds(curves, n)),
    decreases n,
{
    let c = curves[n - 1];
    let before = curve_bounds(curves, (n - 1) as nat);
    lemma_bounds_numeric(curves, (n - 1) as nat);
    if i < n - 1 {
        lemma_bounds_take_in_points(curves, (n - 1) as nat, i);
    }
    lemma_widened(before, c.p1);
    lemma_widened(before.with(c.p1), c.p2);
    lemma_widened(before.with(c.p1).with(c.p2), c.p3);
}

proof fn lemma_bounds_numeric(curves: Seq<QuadCurve>, n: nat)
    ensures
        bounds_numeric(curve_bounds(curves, n)),
    decreases n,
{
    if n > 0 {
        lemma_bounds_numeric(curves, (n - 1) as nat);
    }
}

} // verus!
