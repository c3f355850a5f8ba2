//! What becomes of a path: which curves it turns into, point by point, and what
//! bounds they have.

use crate::cubic::{
    error_rejects, errors_after, piece_curve, CubicFit, CubicPiece, ErrorCurve, ErrorMidpoints,
    ErrorSize, Midpoints,
};
use crate::font::{advance_in, path_begun};
use crate::outline::{no_bounds, Axis, Bounds, Point, QuadCurve};
use crate::pen::{BuilderState, PenCommand, PenState, Question};
use crate::prepare::{curve_bounds, curves_of_points, curves_with_xs};
use crate::scalar::{lemma_order_is_value_order, Scalar};
use vstd::prelude::*;

verus! {

/// Whether both coordinates of a point are finite.
pub open spec fn point_finite(p: Point) -> bool {
    p.x.finite() && p.y.finite()
}

/// Points are the same exactly when both coordinates are worth the same.
pub proof fn lemma_points_equal(p: Point, q: Point)
    requires
        point_finite(p),
        point_finite(q),
    ensures
        p.equal(q) <==> p.x.value() == q.x.value() && p.y.value() == q.y.value(),
{
    lemma_order_is_value_order(p.x, q.x);
    lemma_order_is_value_order(p.y, q.y);
}

/// The extent of a curve along an axis runs from the least to the greatest
/// coordinate of its control points on that axis.
pub proof fn lemma_curve_extent(c: QuadCurve)
    ensures
        ({
            let l = c.low(Axis::X);
            let h = c.high(Axis::X);
            &&& l == c.p1.x || l == c.p2.x || l == c.p3.x
            &&& h == c.p1.x || h == c.p2.x || h == c.p3.x
            &&& !c.p1.x.less(l) && !c.p2.x.less(l) && !c.p3.x.less(l)
            &&& !h.less(c.p1.x) && !h.less(c.p2.x) && !h.less(c.p3.x)
            &&& l.nan() ==> c.p1.x.nan() && c.p2.x.nan() && c.p3.x.nan()
            &&& h.nan() ==> c.p1.x.nan() && c.p2.x.nan() && c.p3.x.nan()
        }),
        ({
            let l = c.low(Axis::Y);
            let h = c.high(Axis::Y);
            &&& l == c.p1.y || l == c.p2.y || l == c.p3.y
            &&& h == c.p1.y || h == c.p2.y || h == c.p3.y
            &&& !c.p1.y.less(l) && !c.p2.y.less(l) && !c.p3.y.less(l)
            &&& !h.less(c.p1.y) && !h.less(c.p2.y) && !h.less(c.p3.y)
            &&& l.nan() ==> c.p1.y.nan() && c.p2.y.nan() && c.p3.y.nan()
            &&& h.nan() ==> c.p1.y.nan() && c.p2.y.nan() && c.p3.y.nan()
        }),
{
}

/// Bounds that take in a point are as wide as they have to be and no wider:
/// each side stays or moves to the point, and it moves where the point lies
/// beyond it.
pub proof fn lemma_bounds_no_wider(b: Bounds, p: Point)
    requires
        !b.min_x.nan() && !b.min_y.nan() && !b.max_x.nan() && !b.max_y.nan(),
    ensures
        b.with(p).min_x == if p.x.less(b.min_x) {
            p.x
        } else {
            b.min_x
        },
        b.with(p).min_y == if p.y.less(b.min_y) {
            p.y
        } else {
            b.min_y
        },
        b.with(p).max_x == if b.max_x.less(p.x) {
            p.x
        } else {
            b.max_x
        },
        b.with(p).max_y == if b.max_y.less(p.y) {
            p.y
        } else {
            b.max_y
        },
{
}

/// The bounds of a single point are that point.
pub proof fn lemma_bounds_of_one_point(p: Point)
    requires
        point_finite(p),
    ensures
        no_bounds().with(p) == (Bounds { min_x: p.x, min_y: p.y, max_x: p.x, max_y: p.y }),
{
}

/// Moving the pen begins a contour and draws nothing.
pub proof fn lemma_move_begins_contour(pen: PenState, p: Point)
    ensures
        pen.moved_to(p).curves == pen.curves,
        pen.moved_to(p).current == p,
        pen.moved_to(p).contour_start == p,
        pen.moved_to(p).bounds == pen.bounds.with(p),
{
}

/// A line becomes one curve from where the pen is to where the line ends, with
/// its start as control point; a line without a length becomes none. The
/// contour goes on.
pub proof fn lemma_line_is_drawn(pen: PenState, p: Point)
    ensures
        pen.current.equal(p) ==> pen.lined_to(p) == pen,
        !pen.current.equal(p) ==> {
            let w = pen.lined_to(p);
            &&& w.curves.len() == pen.curves.len() + 1
            &&& forall|i: int| 0 <= i < pen.curves.len() ==> #[trigger] w.curves[i] == pen.curves[i]
            &&& w.curves.last().p1 == pen.current
            &&& w.curves.last().p2 == pen.current
            &&& w.curves.last().p3 == p
            &&& w.current == p
            &&& w.contour_start == pen.contour_start
            &&& w.bounds == pen.bounds.with(p)
        },
{
}

/// A quadratic becomes one curve with its own control point.
pub proof fn lemma_quadratic_is_drawn(pen: PenState, c: Point, p: Point)
    ensures
        ({
            let w = pen.quadded_to(c, p);
            &&& w.curves.len() == pen.curves.len() + 1
            &&& forall|i: int| 0 <= i < pen.curves.len() ==> #[trigger] w.curves[i] == pen.curves[i]
            &&& w.curves.last().p1 == pen.current
            &&& w.curves.last().p2 == c
            &&& w.curves.last().p3 == p
            &&& w.current == p
            &&& w.contour_start == pen.contour_start
            &&& w.bounds == pen.bounds.with(c).with(p)
        }),
{
}

/// Closing a contour over a gap draws a line back to where it began; without a
/// gap it draws nothing.
pub proof fn lemma_close_leads_back(pen: PenState)
    ensures
        pen.closed(false).curves == pen.curves,
        pen.closed(false).current == pen.current,
        pen.closed(false).contour_start == pen.contour_start,
        pen.closed(false).bounds == pen.bounds,
        ({
            let w = pen.closed(true);
            &&& w.curves.len() == pen.curves.len() + 1
            &&& forall|i: int| 0 <= i < pen.curves.len() ==> #[trigger] w.curves[i] == pen.curves[i]
            &&& w.curves.last().p1 == pen.current
            &&& w.curves.last().p2 == pen.current
            &&& w.curves.last().p3 == pen.contour_start
            &&& w.current == pen.contour_start
            &&& w.contour_start == pen.contour_start
            &&& w.bounds == pen.bounds
        }),
{
}

/// A piece of a cubic that a quadratic fits is drawn as that quadratic: from the
/// start of the piece to its end, with the control point that was found. The
/// piece is done with, and no other piece is touched.
pub proof fn lemma_fit_is_drawn(v: BuilderState, q: Point)
    requires
        v.pending.len() > 0,
    ensures
        ({
            let piece = v.pending.last();
            let fit = CubicFit::Quadratic(q);
            let w = v.after_fit(fit);
            let n = v.pen.curves.len();
            &&& piece_curve(piece, fit) is Some
            &&& piece_curve(piece, fit)->0.p1 == piece.c0
            &&& piece_curve(piece, fit)->0.p2 == q
            &&& piece_curve(piece, fit)->0.p3 == piece.c3
            &&& w.pen.curves.len() == n + 1
            &&& forall|i: int| 0 <= i < n ==> #[trigger] w.pen.curves[i] == v.pen.curves[i]
            &&& w.pen.curves.last().p1 == piece.c0
            &&& w.pen.curves.last().p2 == q
            &&& w.pen.curves.last().p3 == piece.c3
            &&& w.pen.bounds == v.pen.bounds.with(q).with(piece.c3)
            &&& w.pen.contour_start == v.pen.contour_start
            &&& w.pending.len() == v.pending.len() - 1
            &&& forall|k: int| 0 <= k < w.pending.len() ==> #[trigger] w.pending[k] == v.pending[k]
            &&& w.pen.current == if w.pending.len() == 0 {
                piece.c3
            } else {
                v.pen.current
            }
            &&& w.at == v.at && w.commands == v.commands
        }),
{
}

/// A piece that no quadratic fits is halved: the half that comes first is dealt
/// with next, the other one after it, and nothing is drawn yet.
pub proof fn lemma_halves_take_turns(v: BuilderState, m: Midpoints)
    requires
        v.pending.len() > 0,
        v.pending.last().depth < 10,
    ensures
        ({
            let piece = v.pending.last();
            let n = v.pending.len() as int;
            let w = v.after_fit(CubicFit::Halves(m));
            let next = w.pending.last();
            let then = w.pending[n - 1];
            &&& piece_curve(piece, CubicFit::Halves(m)) is None
            &&& w.pen == v.pen
            &&& w.pending.len() == n + 1
            &&& forall|k: int| 0 <= k < n - 1 ==> #[trigger] w.pending[k] == v.pending[k]
            &&& next.c0 == piece.c0 && next.c1 == m.m01 && next.c2 == m.m012 && next.c3 == m.mid
            &&& then.c0 == m.mid && then.c1 == m.m123 && then.c2 == m.m23 && then.c3 == piece.c3
            &&& next.depth == piece.depth + 1 && then.depth == piece.depth + 1
            &&& w.question() == Some(Question::Fit { piece: next })
            &&& w.at == v.at && w.commands == v.commands
        }),
{
}

/// A piece that was halved ten times is drawn as a line, unless it ends where it
/// begins.
pub proof fn lemma_smallest_piece_is_line(v: BuilderState, m: Midpoints)
    requires
        v.pending.len() > 0,
        v.pending.last().depth >= 10,
    ensures
        ({
            let piece = v.pending.last();
            let n = v.pen.curves.len();
            let w = v.after_fit(CubicFit::Halves(m));
            &&& w.pending.len() == v.pending.len() - 1
            &&& forall|k: int| 0 <= k < w.pending.len() ==> #[trigger] w.pending[k] == v.pending[k]
            &&& piece.c0.equal(piece.c3) ==> w.pen.curves == v.pen.curves
            &&& !piece.c0.equal(piece.c3) ==> {
                &&& w.pen.curves.len() == n + 1
                &&& forall|i: int| 0 <= i < n ==> #[trigger] w.pen.curves[i] == v.pen.curves[i]
                &&& w.pen.curves.last().p1 == piece.c0
                &&& w.pen.curves.last().p2 == piece.c0
                &&& w.pen.curves.last().p3 == piece.c3
                &&& w.pen.bounds == v.pen.bounds.with(piece.c3)
            }
        }),
{
}

/// A cubic that is flat is drawn as a line to its end; any other is taken apart,
/// from the whole of it on.
pub proof fn lemma_cubic_is_taken_apart(v: BuilderState, c1: Point, c2: Point, to: Point)
    requires
        0 <= v.at < v.commands.len(),
        v.pending.len() == 0,
        v.commands[v.at] == (PenCommand::CurveTo { c1, c2, to }),
        !v.pen.current.equal(to),
    ensures
        ({
            let line = v.after_flat(true);
            let cubic = v.after_flat(false);
            let n = v.pen.curves.len();
            &&& line.pending.len() == 0
            &&& line.at == v.at + 1 && cubic.at == v.at + 1
            &&& line.pen.curves.len() == n + 1
            &&& forall|i: int| 0 <= i < n ==> #[trigger] line.pen.curves[i] == v.pen.curves[i]
            &&& line.pen.curves.last().p1 == v.pen.current
            &&& line.pen.curves.last().p2 == v.pen.current
            &&& line.pen.curves.last().p3 == to
            &&& line.pen.current == to
            &&& cubic.pen == v.pen
            &&& cubic.pending.len() == 1
            &&& cubic.pending[0].c0 == v.pen.current
            &&& cubic.pending[0].c1 == c1
            &&& cubic.pending[0].c2 == c2
            &&& cubic.pending[0].c3 == to
            &&& cubic.pending[0].depth == 0
            &&& v.question() == Some(Question::Flat { cubic: cubic.pending[0] })
            &&& cubic.question() == Some(Question::Fit { piece: cubic.pending[0] })
        }),
{
}

/// What the builder asks: about the piece at hand, about a cubic that leads
/// somewhere, about the gap of a contour that is closed, and nothing else until
/// the path is done.
pub proof fn lemma_what_is_asked(v: BuilderState)
    requires
        0 <= v.at <= v.commands.len(),
    ensures
        v.pending.len() > 0 <==> v.question() is Some && v.question()->0 is Fit,
        v.pending.len() == 0 && v.at == v.commands.len() <==> v.question() == Some(Question::Done),
        v.pending.len() == 0 && v.at < v.commands.len() ==> match v.commands[v.at] {
            PenCommand::MoveTo { to } => v.question() is None,
            PenCommand::LineTo { to } => v.question() is None,
            PenCommand::QuadTo { c, to } => v.question() is None,
            PenCommand::CurveTo { c1, c2, to } => if v.pen.current.equal(to) {
                v.question() is None && v.stepped().pen == v.pen
            } else {
                v.question() == Some(
                    Question::Flat {
                        cubic: CubicPiece { c0: v.pen.current, c1, c2, c3: to, depth: 0 },
                    },
                )
            },
            PenCommand::Close => v.question() == Some(
                Question::Gap { from: v.pen.current, to: v.pen.contour_start },
            ),
        },
{
}

/// Closing goes on with the next command.
pub proof fn lemma_gap_answered(v: BuilderState, gap: bool)
    ensures
        v.after_gap(gap).at == v.at + 1,
        v.after_gap(gap).pen == v.pen.closed(gap),
        v.after_gap(gap).pending == v.pending,
        v.after_gap(gap).commands == v.commands,
{
}

/// Where a command leaves the pen.
pub open spec fn end_of(command: PenCommand) -> Point {
    match command {
        PenCommand::MoveTo { to } => to,
        PenCommand::LineTo { to } => to,
        PenCommand::QuadTo { c, to } => to,
        PenCommand::CurveTo { c1, c2, to } => to,
        PenCommand::Close => arbitrary(),
    }
}

/// The control point of a line or a quadratic that begins at `from`.
pub open spec fn control_of(command: PenCommand, from: Point) -> Point {
    match command {
        PenCommand::QuadTo { c, to } => c,
        _ => from,
    }
}

/// Whether a path moves once and then draws lines that have a length, and
/// quadratics.
pub open spec fn plain_path(commands: Seq<PenCommand>) -> bool {
    &&& commands.len() > 0
    &&& commands[0] is MoveTo
    &&& forall|i: int|
        0 < i < commands.len() ==> {
            ||| (#[trigger] commands[i]) is QuadTo
            ||| commands[i] is LineTo && !end_of(commands[i - 1]).equal(end_of(commands[i]))
        }
}

/// Whether `curves` are those of the first `n` commands of a plain path.
pub open spec fn plain_curves(
    curves: Seq<QuadCurve>,
    commands: Seq<PenCommand>,
    n: int,
) -> bool {
    &&& curves.len() == n - 1
    &&& forall|i: int|
        0 < i < n ==> {
            &&& (#[trigger] curves[i - 1]).p1 == end_of(commands[i - 1])
            &&& curves[i - 1].p2 == control_of(commands[i], end_of(commands[i - 1]))
            &&& curves[i - 1].p3 == end_of(commands[i])
        }
}

/// A path of lines and quadratics becomes an outline without a question: one
/// curve for each of its commands but the first, in their order, with the
/// points of the commands.
pub proof fn lemma_plain_path_is_outline(commands: Seq<PenCommand>)
    requires
        plain_path(commands),
    ensures
        path_begun(commands).question() == Some(Question::Done),
        path_begun(commands).at == commands.len(),
        plain_curves(path_begun(commands).pen.curves, commands, commands.len() as int),
        path_begun(commands).pen.contour_start == end_of(commands[0]),
        path_begun(commands).pen.current == end_of(commands.last()),
{
    let start = BuilderState {
        commands,
        at: 0,
        pen: PenState::fresh(),
        pending: Seq::empty(),
    };
    lemma_plain_steps(start.stepped());
}

proof fn lemma_plain_steps(v: BuilderState)
    requires
        plain_path(v.commands),
        0 < v.at <= v.commands.len(),
        v.pending.len() == 0,
        v.pen.current == end_of(v.commands[v.at - 1]),
        v.pen.contour_start == end_of(v.commands[0]),
        plain_curves(v.pen.curves, v.commands, v.at),
    ensures
        v.settled().question() == Some(Question::Done),
        v.settled().at == v.commands.len(),
        plain_curves(v.settled().pen.curves, v.commands, v.commands.len() as int),
        v.settled().pen.contour_start == end_of(v.commands[0]),
        v.settled().pen.current == end_of(v.commands.last()),
    decreases v.commands.len() - v.at,
{
    if v.at < v.commands.len() {
        let w = v.stepped();
        let command = v.commands[v.at];
        assert(command is QuadTo || command is LineTo);
        assert forall|i: int| 0 < i < w.at implies {
            &&& (#[trigger] w.pen.curves[i - 1]).p1 == end_of(v.commands[i - 1])
            &&& w.pen.curves[i - 1].p2 == control_of(v.commands[i], end_of(v.commands[i - 1]))
            &&& w.pen.curves[i - 1].p3 == end_of(v.commands[i])
        } by {
            if i < v.at {
                assert(w.pen.curves[i - 1] == v.pen.curves[i - 1]);
            }
        }
        lemma_plain_steps(w);
    }
}

/// Going on by a command for which nothing is asked does not change where the
/// builder asks next, and where it asks it waits.
pub proof fn lemma_builder_waits(v: BuilderState)
    requires
        0 <= v.at <= v.commands.len(),
    ensures
        v.settled().question() is Some,
        v.question() is Some ==> v.settled() == v,
        v.question() is None ==> v.settled() == v.stepped().settled() && v.stepped().at == v.at + 1,
    decreases v.commands.len() - v.at,
{
    if v.at < v.commands.len() && v.question() is None {
        lemma_builder_waits(v.stepped());
    }
}

/// What commands do for which nothing is asked.
pub proof fn lemma_commands_are_carried_out(v: BuilderState)
    requires
        0 <= v.at < v.commands.len(),
        v.question() is None,
    ensures
        v.stepped().at == v.at + 1,
        v.stepped().commands == v.commands,
        v.stepped().pending == v.pending,
        match v.commands[v.at] {
            PenCommand::MoveTo { to } => v.stepped().pen == v.pen.moved_to(to),
            PenCommand::LineTo { to } => v.stepped().pen == v.pen.lined_to(to),
            PenCommand::QuadTo { c, to } => v.stepped().pen == v.pen.quadded_to(c, to),
            _ => v.stepped().pen == v.pen,
        },
{
}

/// A path begins with a pen that has drawn nothing.
pub proof fn lemma_fresh_pen_has_drawn_nothing()
    ensures
        PenState::fresh().curves.len() == 0,
        PenState::fresh().bounds == no_bounds(),
        PenState::fresh().current == PenState::fresh().contour_start,
        PenState::fresh().current.x.bits == 0,
        PenState::fresh().current.y.bits == 0,
{
}

/// An error curve is too large where its middle is, or where it was halved
/// eight times and is still not known to be small.
pub proof fn lemma_errors_decided(e: ErrorCurve, m: ErrorMidpoints)
    ensures
        !error_rejects(e, ErrorSize::Small),
        error_rejects(e, ErrorSize::Large),
        error_rejects(e, ErrorSize::Unknown(m)) <==> e.depth >= 8,
{
}

/// An error curve that is small is done with; one of which that is not known is
/// looked at half by half, the first half first.
pub proof fn lemma_error_halves_take_turns(pending: Seq<ErrorCurve>, m: ErrorMidpoints)
    requires
        pending.len() > 0,
        pending.last().depth < u32::MAX,
    ensures
        ({
            let e = pending.last();
            let n = pending.len() as int;
            let done = errors_after(pending, ErrorSize::Small);
            let halved = errors_after(pending, ErrorSize::Unknown(m));
            let next = halved.last();
            let then = halved[n - 1];
            &&& done.len() == n - 1
            &&& forall|k: int| 0 <= k < n - 1 ==> #[trigger] done[k] == pending[k]
            &&& halved.len() == n + 1
            &&& forall|k: int| 0 <= k < n - 1 ==> #[trigger] halved[k] == pending[k]
            &&& next.p0 == e.p0 && next.p1 == m.h01 && next.p2 == m.before_mid && next.p3 == m.mid
            &&& then.p0 == m.mid && then.p1 == m.after_mid && then.p2 == m.h23 && then.p3 == e.p3
            &&& next.depth == e.depth + 1 && then.depth == e.depth + 1
        }),
{
}

/// Points that are put in place of those of an outline become the points of its
/// curves, three by three.
pub proof fn lemma_points_become_curves(points: Seq<Point>, i: int)
    requires
        points.len() % 3 == 0,
        0 <= i < points.len() / 3,
    ensures
        curves_of_points(points).len() * 3 == points.len(),
        curves_of_points(points)[i].p1 == points[3 * i],
        curves_of_points(points)[i].p2 == points[3 * i + 1],
        curves_of_points(points)[i].p3 == points[3 * i + 2],
{
}

/// A slant gives every point its own new x and leaves its y.
pub proof fn lemma_slant_moves_x(curves: Seq<QuadCurve>, xs: Seq<Scalar>, i: int)
    requires
        0 <= i < curves.len(),
        xs.len() == 3 * curves.len(),
    ensures
        ({
            let c = curves_with_xs(curves, xs)[i];
            &&& curves_with_xs(curves, xs).len() == curves.len()
            &&& c.p1.x == xs[3 * i] && c.p1.y == curves[i].p1.y
            &&& c.p2.x == xs[3 * i + 1] && c.p2.y == curves[i].p2.y
            &&& c.p3.x == xs[3 * i + 2] && c.p3.y == curves[i].p3.y
        }),
{
}

/// Whether a curve has a control point with this x.
pub open spec fn has_x(c: QuadCurve, x: Scalar) -> bool {
    c.p1.x == x || c.p2.x == x || c.p3.x == x
}

/// Whether a curve has a control point with this y.
pub open spec fn has_y(c: QuadCurve, y: Scalar) -> bool {
    c.p1.y == y || c.p2.y == y || c.p3.y == y
}

/// Whether every control point of a curve is finite.
pub open spec fn curve_finite(c: QuadCurve) -> bool {
    point_finite(c.p1) && point_finite(c.p2) && point_finite(c.p3)
}

/// Bounds that are taken anew touch the curves on every side.
pub proof fn lemma_bounds_touch_curves(curves: Seq<QuadCurve>, n: nat)
    requires
        0 < n <= curves.len(),
        forall|i: int| 0 <= i < n ==> curve_finite(#[trigger] curves[i]),
    ensures
        ({
            let b = curve_bounds(curves, n);
            &&& exists|i: int| 0 <= i < n && #[trigger] has_x(curves[i], b.min_x)
            &&& exists|i: int| 0 <= i < n && #[trigger] has_x(curves[i], b.max_x)
            &&& exists|i: int| 0 <= i < n && #[trigger] has_y(curves[i], b.min_y)
            &&& exists|i: int| 0 <= i < n && #[trigger] has_y(curves[i], b.max_y)
        }),
    decreases n,
{
    let c = curves[n - 1];
    let b = curve_bounds(curves, n);
    let before = curve_bounds(curves, (n - 1) as nat);
    assert(curve_finite(c));
    assert(b.min_x == before.min_x || has_x(c, b.min_x));
    assert(b.max_x == before.max_x || has_x(c, b.max_x));
    assert(b.min_y == before.min_y || has_y(c, b.min_y));
    assert(b.max_y == before.max_y || has_y(c, b.max_y));
    if n == 1 {
        assert(before == no_bounds());
        assert(has_x(c, b.min_x) && has_x(c, b.max_x) && has_y(c, b.min_y) && has_y(c, b.max_y));
    } else {
        lemma_bounds_touch_curves(curves, (n - 1) as nat);
    }
    assert(has_x(c, b.min_x) ==> has_x(curves[n - 1], b.min_x));
    assert(has_x(c, b.max_x) ==> has_x(curves[n - 1], b.max_x));
    assert(has_y(c, b.min_y) ==> has_y(curves[n - 1], b.min_y));
    assert(has_y(c, b.max_y) ==> has_y(curves[n - 1], b.max_y));
}

/// A glyph advances by its own record; all glyphs behind the last record
/// advance by that one, and without records there is no advance.
pub proof fn lemma_advances(advances: Seq<u16>, a: u16, b: u16)
    ensures
        advances.len() == 0 <==> advance_in(advances, a) is None,
        a < advances.len() ==> advance_in(advances, a) == Some(advances[a as int]),
        advances.len() > 0 && a + 1 >= advances.len() && b + 1 >= advances.len() ==> advance_in(
            advances,
            a,
        ) == advance_in(advances, b),
{
}

} // verus!
