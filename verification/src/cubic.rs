//! Cubic curves as chains of quadratic curves.
//!
//! A cubic is taken apart piece by piece. For each piece the caller says
//! whether one quadratic fits it, and otherwise where the halves lie. Which
//! pieces there are, in what order they come and when to stop is decided here.

use crate::outline::{Point, QuadCurve};
use vstd::prelude::*;

verus! {

/// How often a cubic is halved at most.
pub const CU2QU_MAX_DEPTH: u32 = 10;

/// The most quadratics that a cubic turns into.
pub const MAX_QUADRATICS: u32 = 1024;

/// A piece of a cubic curve.
#[derive(Clone, Copy, Debug, PartialEq, Eq, Structural)]
pub struct CubicPiece {
    pub c0: Point,
    pub c1: Point,
    pub c2: Point,
    pub c3: Point,
    /// How often the cubic was halved to get this piece.
    pub depth: u32,
}

/// The points at which a cubic is halved.
#[derive(Clone, Copy, Debug, PartialEq, Eq, Structural)]
pub struct Midpoints {
    pub m01: Point,
    pub m012: Point,
    pub mid: Point,
    pub m123: Point,
    pub m23: Point,
}

/// What is known of a piece.
#[derive(Clone, Copy, Debug, PartialEq, Eq, Structural)]
pub enum CubicFit {
    /// A quadratic with this control point fits.
    Quadratic(Point),
    /// No quadratic fits; the piece can be halved here.
    Halves(Midpoints),
}

/// The first half of a piece.
pub open spec fn first_half(piece: CubicPiece, m: Midpoints) -> CubicPiece {
    CubicPiece {
        c0: piece.c0,
        c1: m.m01,
        c2: m.m012,
        c3: m.mid,
        depth: (piece.depth + 1) as u32,
    }
}

/// The second half of a piece.
pub open spec fn second_half(piece: CubicPiece, m: Midpoints) -> CubicPiece {
    CubicPiece {
        c0: m.mid,
        c1: m.m123,
        c2: m.m23,
        c3: piece.c3,
        depth: (piece.depth + 1) as u32,
    }
}

/// The quadratic that a piece turns into, if it turns into one: the fitting
/// quadratic, or a line where a piece cannot be halved any more, unless the
/// line has no length.
pub open spec fn piece_curve(piece: CubicPiece, fit: CubicFit) -> Option<QuadCurve> {
    match fit {
        CubicFit::Quadratic(q) => Some(QuadCurve { p1: piece.c0, p2: q, p3: piece.c3 }),
        CubicFit::Halves(_) => if piece.depth >= CU2QU_MAX_DEPTH && !piece.c0.equal(piece.c3) {
            Some(QuadCurve { p1: piece.c0, p2: piece.c0, p3: piece.c3 })
        } else {
            None
        },
    }
}

/// The pieces that are left when the last of `pending` is dealt with.
pub open spec fn pending_after(pending: Seq<CubicPiece>, fit: CubicFit) -> Seq<CubicPiece> {
    let piece = pending.last();
    let rest = pending.drop_last();
    match fit {
        CubicFit::Halves(m) if piece.depth < CU2QU_MAX_DEPTH => rest.push(
            second_half(piece, m),
        ).push(first_half(piece, m)),
        _ => rest,
    }
}

/// Deals with the last of the pending pieces. Hands back the quadratic that
/// the piece turned into, if it did.
pub fn resolve_piece(pending: &mut Vec<CubicPiece>, fit: CubicFit) -> (r: Option<QuadCurve>)
    requires
        old(pending).len() > 0,
    ensures
        final(pending)@ == pending_after(old(pending)@, fit),
        r == piece_curve(old(pending)@.last(), fit),
{
    let last: usize = pending.len() - 1;
    let piece = pending[last];
    pending.truncate(last);
    assert(pending@ =~= old(pending)@.drop_last());
    match fit {
        CubicFit::Quadratic(q) => Some(QuadCurve { p1: piece.c0, p2: q, p3: piece.c3 }),
        CubicFit::Halves(m) => {
            if piece.depth >= CU2QU_MAX_DEPTH {
                if piece.c0.same(&piece.c3) {
                    None
                } else {
                    Some(QuadCurve { p1: piece.c0, p2: piece.c0, p3: piece.c3 })
                }
            } else {
                pending.push(
                    CubicPiece {
                        c0: m.mid,
                        c1: m.m123,
                        c2: m.m23,
                        c3: piece.c3,
                        depth: piece.depth + 1,
                    },
                );
                pending.push(
                    CubicPiece {
                        c0: piece.c0,
                        c1: m.m01,
                        c2: m.m012,
                        c3: m.mid,
                        depth: piece.depth + 1,
                    },
                );
                None
            }
        },
    }
}

/// The most quadratics that a piece at `depth` turns into.
pub open spec fn leaves(depth: int) -> int
    decreases CU2QU_MAX_DEPTH - depth,
{
    if depth >= CU2QU_MAX_DEPTH {
        1
    } else {
        2 * leaves(depth + 1)
    }
}

/// The most pieces that a piece at `depth` gives, itself among them.
pub open spec fn nodes(depth: int) -> int
    decreases CU2QU_MAX_DEPTH - depth,
{
    if depth >= CU2QU_MAX_DEPTH {
        1
    } else {
        1 + 2 * nodes(depth + 1)
    }
}

/// The most quadratics that the pending pieces turn into.
pub open spec fn leaves_of(pending: Seq<CubicPiece>) -> int
    decreases pending.len(),
{
    if pending.len() == 0 {
        0
    } else {
        leaves_of(pending.drop_last()) + leaves(pending.last().depth as int)
    }
}

/// The most pieces that are still to be dealt with.
pub open spec fn work_left(pending: Seq<CubicPiece>) -> int
    decreases pending.len(),
{
    if pending.len() == 0 {
        0
    } else {
        work_left(pending.drop_last()) + nodes(pending.last().depth as int)
    }
}

/// Whether two points are the same place: the same bits, or equal numbers.
pub open spec fn joined(a: Point, b: Point) -> bool {
    a == b || a.equal(b)
}

/// Where a chain of curves that begins at `start` ends.
pub open spec fn chain_end(start: Point, curves: Seq<QuadCurve>) -> Point {
    if curves.len() == 0 {
        start
    } else {
        curves.last().p3
    }
}

/// Whether each curve begins where the one before it ends, the first at `start`.
pub open spec fn chained(start: Point, curves: Seq<QuadCurve>) -> bool
    decreases curves.len(),
{
    curves.len() > 0 ==> {
        &&& chained(start, curves.drop_last())
        &&& joined(chain_end(start, curves.drop_last()), curves.last().p1)
    }
}

/// Whether each pending piece ends where the one that is dealt with after it
/// begins, and the last ends at `target`.
pub open spec fn pieces_linked(pending: Seq<CubicPiece>, target: Point) -> bool {
    &&& pending.len() > 0 ==> pending[0].c3 == target
    &&& forall|k: int|
        0 < k < pending.len() ==> (#[trigger] pending[k]).c3 == pending[k - 1].c0
    &&& forall|k: int|
        0 <= k < pending.len() ==> (#[trigger] pending[k]).depth <= CU2QU_MAX_DEPTH
}

/// What holds while a cubic from `start` to `target` is taken apart: the
/// quadratics so far are a chain from `start` to where the pending pieces
/// begin, the pieces lead on to `target`, and together they never make more
/// quadratics than a cubic may turn into.
pub open spec fn cubic_run(
    start: Point,
    target: Point,
    emitted: Seq<QuadCurve>,
    pending: Seq<CubicPiece>,
) -> bool {
    &&& chained(start, emitted)
    &&& pieces_linked(pending, target)
    &&& joined(
        chain_end(start, emitted),
        if pending.len() == 0 {
            target
        } else {
            pending.last().c0
        },
    )
    &&& emitted.len() + leaves_of(pending) <= MAX_QUADRATICS
}

/// A cubic that was not touched yet.
pub proof fn lemma_cubic_begins(piece: CubicPiece)
    requires
        piece.depth == 0,
    ensures
        cubic_run(piece.c0, piece.c3, Seq::empty(), seq![piece]),
        work_left(seq![piece]) == 2 * MAX_QUADRATICS - 1,
{
    let pending = seq![piece];
    assert(pending.drop_last() =~= Seq::empty());
    reveal_with_fuel(leaves, 12);
    reveal_with_fuel(nodes, 12);
    assert(leaves(0) == 1024);
    assert(nodes(0) == 2047);
    reveal_with_fuel(leaves_of, 2);
    reveal_with_fuel(work_left, 2);
}

proof fn lemma_leaves_positive(depth: int)
    ensures
        leaves(depth) >= 1,
        nodes(depth) >= 1,
    decreases CU2QU_MAX_DEPTH - depth,
{
    if depth < CU2QU_MAX_DEPTH {
        lemma_leaves_positive(depth + 1);
    }
}

/// Dealing with a piece keeps the quadratics a chain that leads on to the end
/// of the cubic, and the quadratics to come within the limit.
pub proof fn lemma_cubic_step(
    start: Point,
    target: Point,
    emitted: Seq<QuadCurve>,
    pending: Seq<CubicPiece>,
    fit: CubicFit,
)
    requires
        cubic_run(start, target, emitted, pending),
        pending.len() > 0,
    ensures
        ({
            let more = match piece_curve(pending.last(), fit) {
                Some(curve) => emitted.push(curve),
                None => emitted,
            };
            cubic_run(start, target, more, pending_after(pending, fit))
        }),
{
    let piece = pending.last();
    let rest = pending.drop_last();
    let after = pending_after(pending, fit);
    lemma_leaves_positive(piece.depth as int);
    lemma_work_positive(rest);
    match piece_curve(piece, fit) {
        Some(curve) => {
            let more = emitted.push(curve);
            assert(more.drop_last() =~= emitted);
            assert(after =~= rest);
        },
        None => {},
    }
    match fit {
        CubicFit::Halves(m) if piece.depth < CU2QU_MAX_DEPTH => {
            let one = rest.push(second_half(piece, m));
            assert(after.drop_last() =~= one);
            assert(one.drop_last() =~= rest);
            lemma_leaves_positive(piece.depth + 1);
            assert(leaves_of(one) == leaves_of(rest) + leaves(piece.depth + 1));
            assert(leaves_of(after) == leaves_of(rest) + 2 * leaves(piece.depth + 1));
        },
        _ => {
            assert(after =~= rest);
            if rest.len() > 0 {
                assert(pending[pending.len() - 1].c3 == pending[pending.len() - 2].c0);
            }
        },
    }
}

proof fn lemma_work_positive(pending: Seq<CubicPiece>)
    ensures
        work_left(pending) >= 0,
        leaves_of(pending) >= 0,
    decreases pending.len(),
{
    if pending.len() > 0 {
        lemma_work_positive(pending.drop_last());
        lemma_leaves_positive(pending.last().depth as int);
    }
}

/// Dealing with a piece leaves less to be dealt with.
pub proof fn lemma_work_falls(pending: Seq<CubicPiece>, fit: CubicFit)
    requires
        pending.len() > 0,
    ensures
        0 <= work_left(pending_after(pending, fit)) < work_left(pending),
{
    let piece = pending.last();
    let rest = pending.drop_last();
    let after = pending_after(pending, fit);
    lemma_leaves_positive(piece.depth as int);
    lemma_work_positive(rest);
    match fit {
        CubicFit::Halves(m) if piece.depth < CU2QU_MAX_DEPTH => {
            let one = rest.push(second_half(piece, m));
            assert(after.drop_last() =~= one);
            assert(one.drop_last() =~= rest);
            lemma_leaves_positive(piece.depth + 1);
            assert(work_left(one) == work_left(rest) + nodes(piece.depth + 1));
            assert(work_left(after) == work_left(rest) + 2 * nodes(piece.depth + 1));
        },
        _ => {
            assert(after =~= rest);
        },
    }
}

/// When no piece is left, the quadratics are a chain from the start of the
/// cubic to its end, at most 1024 of them, and at least one unless both ends
/// are the same place.
pub proof fn lemma_cubic_ends(start: Point, target: Point, emitted: Seq<QuadCurve>)
    requires
        cubic_run(start, target, emitted, Seq::empty()),
    ensures
        chained(start, emitted),
        joined(chain_end(start, emitted), target),
        emitted.len() <= MAX_QUADRATICS,
        !joined(start, target) ==> emitted.len() > 0,
{
    lemma_work_positive(Seq::empty());
}

/// How often the error of a fit is halved at most.
pub const ERROR_MAX_DEPTH: u32 = 8;

/// A piece of the curve between a cubic and the quadratic that is to fit it.
#[derive(Clone, Copy, Debug, PartialEq, Eq, Structural)]
pub struct ErrorCurve {
    pub p0: Point,
    pub p1: Point,
    pub p2: Point,
    pub p3: Point,
    pub depth: u32,
}

/// The points at which an error curve is halved.
#[derive(Clone, Copy, Debug, PartialEq, Eq, Structural)]
pub struct ErrorMidpoints {
    pub h01: Point,
    pub before_mid: Point,
    pub mid: Point,
    pub after_mid: Point,
    pub h23: Point,
}

/// What is known of a piece of an error curve.
#[derive(Clone, Copy, Debug, PartialEq, Eq, Structural)]
pub enum ErrorSize {
    /// Both of its control points are within tolerance.
    Small,
    /// A control point is not, and neither is its middle.
    Large,
    /// A control point is not, but its middle is; it can be halved here.
    Unknown(ErrorMidpoints),
}

/// The first half of an error curve.
pub open spec fn first_error(e: ErrorCurve, m: ErrorMidpoints) -> ErrorCurve {
    ErrorCurve {
        p0: e.p0,
        p1: m.h01,
        p2: m.before_mid,
        p3: m.mid,
        depth: (e.depth + 1) as u32,
    }
}

/// The second half of an error curve.
pub open spec fn second_error(e: ErrorCurve, m: ErrorMidpoints) -> ErrorCurve {
    ErrorCurve {
        p0: m.mid,
        p1: m.after_mid,
        p2: m.h23,
        p3: e.p3,
        depth: (e.depth + 1) as u32,
    }
}

/// Whether a piece shows that the error is too large: it is, or it cannot be
/// halved any more.
pub open spec fn error_rejects(e: ErrorCurve, size: ErrorSize) -> bool {
    match size {
        ErrorSize::Small => false,
        ErrorSize::Large => true,
        ErrorSize::Unknown(_) => e.depth >= ERROR_MAX_DEPTH,
    }
}

/// The pieces that are left when the last of `pending` was looked at.
pub open spec fn errors_after(pending: Seq<ErrorCurve>, size: ErrorSize) -> Seq<ErrorCurve> {
    let rest = pending.drop_last();
    match size {
        ErrorSize::Unknown(m) => rest.push(second_error(pending.last(), m)).push(
            first_error(pending.last(), m),
        ),
        _ => rest,
    }
}

/// Looks at the last piece of an error curve. Says whether the curve stays
/// within tolerance, once that is known.
pub fn resolve_error(pending: &mut Vec<ErrorCurve>, size: ErrorSize) -> (r: Option<bool>)
    requires
        old(pending).len() > 0,
    ensures
        if error_rejects(old(pending)@.last(), size) {
            r == Some(false) && final(pending)@ == old(pending)@.drop_last()
        } else {
            &&& final(pending)@ == errors_after(old(pending)@, size)
            &&& r == (if errors_after(old(pending)@, size).len() == 0 {
                Some(true)
            } else {
                None
            })
        },
{
    let last: usize = pending.len() - 1;
    let piece = pending[last];
    pending.truncate(last);
    assert(pending@ =~= old(pending)@.drop_last());
    match size {
        ErrorSize::Small => {},
        ErrorSize::Large => {
            return Some(false);
        },
        ErrorSize::Unknown(m) => {
            if piece.depth >= ERROR_MAX_DEPTH {
                return Some(false);
            }
            let depth: u32 = piece.depth + 1;
            pending.push(
                ErrorCurve { p0: m.mid, p1: m.after_mid, p2: m.h23, p3: piece.p3, depth },
            );
            pending.push(
                ErrorCurve { p0: piece.p0, p1: m.h01, p2: m.before_mid, p3: m.mid, depth },
            );
        },
    }
    if pending.len() == 0 {
        Some(true)
    } else {
        None
    }
}

/// The most pieces that an error curve at `depth` gives, itself among them.
pub open spec fn error_nodes(depth: int) -> int
    decreases ERROR_MAX_DEPTH - depth,
{
    if depth >= ERROR_MAX_DEPTH {
        1
    } else {
        1 + 2 * error_nodes(depth + 1)
    }
}

/// The most pieces that are still to be looked at.
pub open spec fn errors_left(pending: Seq<ErrorCurve>) -> int
    decreases pending.len(),
{
    if pending.len() == 0 {
        0
    } else {
        errors_left(pending.drop_last()) + error_nodes(pending.last().depth as int)
    }
}

proof fn lemma_error_nodes_positive(depth: int)
    ensures
        error_nodes(depth) >= 1,
    decreases ERROR_MAX_DEPTH - depth,
{
    if depth < ERROR_MAX_DEPTH {
        lemma_error_nodes_positive(depth + 1);
    }
}

proof fn lemma_errors_left_positive(pending: Seq<ErrorCurve>)
    ensures
        errors_left(pending) >= 0,
    decreases pending.len(),
{
    if pending.len() > 0 {
        lemma_errors_left_positive(pending.drop_last());
        lemma_error_nodes_positive(pending.last().depth as int);
    }
}

/// Looking at a piece that does not reject leaves fewer pieces to be looked
/// at, so that the question whether a quadratic fits is always answered.
pub proof fn lemma_errors_fall(pending: Seq<ErrorCurve>, size: ErrorSize)
    requires
        pending.len() > 0,
        !error_rejects(pending.last(), size),
    ensures
        0 <= errors_left(errors_after(pending, size)) < errors_left(pending),
{
    let e = pending.last();
    let rest = pending.drop_last();
    let after = errors_after(pending, size);
    lemma_errors_left_positive(rest);
    lemma_error_nodes_positive(e.depth as int);
    match size {
        ErrorSize::Unknown(m) => {
            let one = rest.push(second_error(e, m));
            assert(after.drop_last() =~= one);
            assert(one.drop_last() =~= rest);
            lemma_error_nodes_positive(e.depth + 1);
            assert(errors_left(one) == errors_left(rest) + error_nodes(e.depth + 1));
            assert(errors_left(after) == errors_left(rest) + 2 * error_nodes(e.depth + 1));
        },
        _ => {
            assert(after =~= rest);
        },
    }
}

} // verus!
