//! Outlines collected from path commands.
//!
//! Lines become quadratics whose control point is their start, and cubics
//! become chains of quadratics. A path is worked off command by command. Where
//! a decision rests on distances, the builder asks and the caller answers.

use crate::cubic::{
    chain_end, chained, cubic_run, joined, lemma_cubic_begins, lemma_cubic_ends, lemma_cubic_step,
    lemma_work_falls, pending_after, piece_curve, pieces_linked, resolve_piece, work_left, CubicFit,
    CubicPiece, MAX_QUADRATICS,
};
use crate::outline::{
    bounds_numeric, curve_within, lemma_widened, no_bounds, within, Bounds, GlyphOutline, Point,
    QuadCurve,
};
use crate::scalar::Scalar;
use vstd::prelude::*;

verus! {

/// A command of a path.
#[derive(Clone, Copy, Debug, PartialEq, Eq, Structural)]
pub enum PenCommand {
    MoveTo { to: Point },
    LineTo { to: Point },
    QuadTo { c: Point, to: Point },
    CurveTo { c1: Point, c2: Point, to: Point },
    Close,
}

/// A pen that collects quadratic curves.
#[derive(Debug)]
pub struct CollectPen {
    pub curves: Vec<QuadCurve>,
    pub current: Point,
    pub contour_start: Point,
    pub bounds: Bounds,
}

/// What a pen holds.
pub struct PenState {
    pub curves: Seq<QuadCurve>,
    pub current: Point,
    pub contour_start: Point,
    pub bounds: Bounds,
}

impl View for CollectPen {
    type V = PenState;

    open spec fn view(&self) -> PenState {
        PenState {
            curves: self.curves@,
            current: self.current,
            contour_start: self.contour_start,
            bounds: self.bounds,
        }
    }
}

/// The line from `a` to `b` as a quadratic.
pub open spec fn line(a: Point, b: Point) -> QuadCurve {
    QuadCurve { p1: a, p2: a, p3: b }
}

impl PenState {
    /// A pen at the origin that has collected nothing.
    pub open spec fn fresh() -> PenState {
        let origin = Point { x: Scalar { bits: 0 }, y: Scalar { bits: 0 } };
        PenState {
            curves: Seq::empty(),
            current: origin,
            contour_start: origin,
            bounds: no_bounds(),
        }
    }

    pub open spec fn moved_to(self, p: Point) -> PenState {
        PenState { current: p, contour_start: p, bounds: self.bounds.with(p), ..self }
    }

    /// A line to `p`.
    pub open spec fn drew_line(self, p: Point) -> PenState {
        PenState {
            curves: self.curves.push(line(self.current, p)),
            current: p,
            bounds: self.bounds.with(p),
            ..self
        }
    }

    /// A line to `p`, unless it has no length.
    pub open spec fn lined_to(self, p: Point) -> PenState {
        if self.current.equal(p) {
            self
        } else {
            self.drew_line(p)
        }
    }

    pub open spec fn quadded_to(self, c: Point, p: Point) -> PenState {
        PenState {
            curves: self.curves.push(QuadCurve { p1: self.current, p2: c, p3: p }),
            current: p,
            bounds: self.bounds.with(c).with(p),
            ..self
        }
    }

    /// The contour closed by a line where there is a gap. The line leads to a
    /// point that the bounds take in already.
    pub open spec fn closed(self, gap: bool) -> PenState {
        if gap {
            PenState {
                curves: self.curves.push(line(self.current, self.contour_start)),
                current: self.contour_start,
                ..self
            }
        } else {
            self
        }
    }

    /// A piece of a cubic dealt with. The pen moves on once no piece is left.
    pub open spec fn resolved(self, pending: Seq<CubicPiece>, fit: CubicFit) -> PenState {
        let piece = pending.last();
        let (curves, bounds) = match (piece_curve(piece, fit), fit) {
            (Some(curve), CubicFit::Quadratic(q)) => (
                self.curves.push(curve),
                self.bounds.with(q).with(piece.c3),
            ),
            (Some(curve), CubicFit::Halves(_)) => (
                self.curves.push(curve),
                self.bounds.with(piece.c3),
            ),
            (None, _) => (self.curves, self.bounds),
        };
        let current = if pending_after(pending, fit).len() == 0 {
            piece.c3
        } else {
            self.current
        };
        PenState { curves, bounds, current, ..self }
    }
}

impl CollectPen {
    pub fn new() -> (r: CollectPen)
        ensures
            r@ == PenState::fresh(),
    {
        let zero = Scalar::from_bits(0);
        let origin = Point { x: zero, y: zero };
        CollectPen {
            curves: Vec::new(),
            current: origin,
            contour_start: origin,
            bounds: Bounds::empty(),
        }
    }

    pub fn update_bounds(&mut self, p: Point)
        ensures
            final(self)@ == (PenState { bounds: old(self)@.bounds.with(p), ..old(self)@ }),
    {
        self.bounds.extend(p);
    }

    pub fn move_to(&mut self, p: Point)
        ensures
            final(self)@ == old(self)@.moved_to(p),
    {
        self.current = p;
        self.contour_start = p;
        self.update_bounds(p);
    }

    fn push_line(&mut self, p: Point)
        ensures
            final(self)@ == old(self)@.drew_line(p),
    {
        self.curves.push(QuadCurve { p1: self.current, p2: self.current, p3: p });
        self.current = p;
        self.update_bounds(p);
    }

    /// Draws a line, unless it has no length: such a line winds around nothing.
    pub fn line_to(&mut self, p: Point)
        ensures
            final(self)@ == old(self)@.lined_to(p),
    {
        if !self.current.same(&p) {
            self.push_line(p);
        }
    }

    pub fn quad_to(&mut self, c: Point, p: Point)
        ensures
            final(self)@ == old(self)@.quadded_to(c, p),
    {
        self.curves.push(QuadCurve { p1: self.current, p2: c, p3: p });
        self.current = p;
        self.update_bounds(c);
        self.update_bounds(p);
    }

    /// Draws a cubic. `flat` says whether its control points are close enough
    /// to its baseline for a line. A cubic that is to be taken apart is handed
    /// back.
    pub fn curve_to(&mut self, c1: Point, c2: Point, p: Point, flat: bool) -> (r: Option<CubicPiece>)
        ensures
            match r {
                Some(piece) => {
                    &&& !old(self)@.current.equal(p) && !flat
                    &&& piece == (CubicPiece { c0: old(self)@.current, c1, c2, c3: p, depth: 0 })
                    &&& final(self)@ == old(self)@
                },
                None => {
                    &&& old(self)@.current.equal(p) || flat
                    &&& final(self)@ == old(self)@.lined_to(p)
                },
            },
    {
        if self.current.same(&p) {
            return None;
        }
        if flat {
            self.push_line(p);
            return None;
        }
        Some(CubicPiece { c0: self.current, c1, c2, c3: p, depth: 0 })
    }

    /// Deals with the last of the pending pieces of a cubic.
    pub fn resolve(&mut self, pending: &mut Vec<CubicPiece>, fit: CubicFit)
        requires
            old(pending).len() > 0,
        ensures
            final(self)@ == old(self)@.resolved(old(pending)@, fit),
            final(pending)@ == pending_after(old(pending)@, fit),
    {
        let last: usize = pending.len() - 1;
        let end = pending[last].c3;
        let curve = resolve_piece(pending, fit);
        if let Some(curve) = curve {
            self.curves.push(curve);
            if let CubicFit::Quadratic(q) = fit {
                self.update_bounds(q);
            }
            self.update_bounds(end);
        }
        if pending.len() == 0 {
            self.current = end;
        }
    }

    /// Closes the contour. `gap` says whether the pen is away from its start.
    pub fn close(&mut self, gap: bool)
        ensures
            final(self)@ == old(self)@.closed(gap),
    {
        if gap {
            self.curves.push(
                QuadCurve { p1: self.current, p2: self.current, p3: self.contour_start },
            );
            self.current = self.contour_start;
        }
    }
}

/// Works off the commands of a path.
#[derive(Debug)]
pub struct OutlineBuilder {
    commands: Vec<PenCommand>,
    at: usize,
    pen: CollectPen,
    pending: Vec<CubicPiece>,
}

/// What a builder asks its caller.
#[derive(Clone, Copy, Debug, PartialEq, Eq, Structural)]
pub enum Question {
    /// Are both control points of this cubic close to its baseline?
    Flat { cubic: CubicPiece },
    /// Does a quadratic fit this piece of a cubic, and if not, where are its
    /// halves?
    Fit { piece: CubicPiece },
    /// Are these points apart?
    Gap { from: Point, to: Point },
    /// Nothing: the path is worked off.
    Done,
}

/// What a builder holds.
pub struct BuilderState {
    pub commands: Seq<PenCommand>,
    /// The command that comes next.
    pub at: int,
    pub pen: PenState,
    /// Pieces of a cubic that are still to be dealt with.
    pub pending: Seq<CubicPiece>,
}

impl BuilderState {
    /// What the builder asks in this state. Where it can go on by itself, it
    /// asks nothing.
    pub open spec fn question(self) -> Option<Question> {
        if self.pending.len() > 0 {
            Some(Question::Fit { piece: self.pending.last() })
        } else if self.at >= self.commands.len() {
            Some(Question::Done)
        } else {
            match self.commands[self.at] {
                PenCommand::CurveTo { c1, c2, to } if !self.pen.current.equal(to) => Some(
                    Question::Flat {
                        cubic: CubicPiece { c0: self.pen.current, c1, c2, c3: to, depth: 0 },
                    },
                ),
                PenCommand::Close => Some(
                    Question::Gap { from: self.pen.current, to: self.pen.contour_start },
                ),
                _ => None,
            }
        }
    }

    /// The state after a command for which nothing is asked. A cubic among
    /// them ends where it began and draws nothing.
    pub open spec fn stepped(self) -> BuilderState {
        let pen = match self.commands[self.at] {
            PenCommand::MoveTo { to } => self.pen.moved_to(to),
            PenCommand::LineTo { to } => self.pen.lined_to(to),
            PenCommand::QuadTo { c, to } => self.pen.quadded_to(c, to),
            _ => self.pen,
        };
        BuilderState { pen, at: self.at + 1, ..self }
    }

    /// The state in which the builder next asks.
    pub open spec fn settled(self) -> BuilderState
        decreases self.commands.len() - self.at,
    {
        if self.at < self.commands.len() && self.question() is None {
            self.stepped().settled()
        } else {
            self
        }
    }

    /// The state after an answer to `Question::Flat`.
    pub open spec fn after_flat(self, flat: bool) -> BuilderState {
        match self.commands[self.at] {
            PenCommand::CurveTo { c1, c2, to } => if flat {
                BuilderState { pen: self.pen.drew_line(to), at: self.at + 1, ..self }
            } else {
                BuilderState {
                    pending: seq![
                        CubicPiece { c0: self.pen.current, c1, c2, c3: to, depth: 0 },
                    ],
                    at: self.at + 1,
                    ..self
                }
            },
            _ => self,
        }
    }

    /// The state after an answer to `Question::Fit`.
    pub open spec fn after_fit(self, fit: CubicFit) -> BuilderState {
        BuilderState {
            pen: self.pen.resolved(self.pending, fit),
            pending: pending_after(self.pending, fit),
            ..self
        }
    }

    /// The state after an answer to `Question::Gap`.
    pub open spec fn after_gap(self, gap: bool) -> BuilderState {
        BuilderState { pen: self.pen.closed(gap), at: self.at + 1, ..self }
    }
}

impl View for OutlineBuilder {
    type V = BuilderState;

    closed spec fn view(&self) -> BuilderState {
        BuilderState {
            commands: self.commands@,
            at: self.at as int,
            pen: self.pen@,
            pending: self.pending@,
        }
    }
}

impl OutlineBuilder {
    /// Holds of every builder that the functions below return or leave behind:
    /// it asks something.
    pub closed spec fn wf(&self) -> bool {
        &&& self.at <= self.commands.len()
        &&& self@.question() is Some
    }

    /// A builder for a path, at its first question.
    pub fn new(commands: Vec<PenCommand>) -> (r: OutlineBuilder)
        ensures
            r.wf(),
            r@ == (BuilderState {
                commands: commands@,
                at: 0,
                pen: PenState::fresh(),
                pending: Seq::empty(),
            }).settled(),
    {
        let mut r = OutlineBuilder {
            commands,
            at: 0,
            pen: CollectPen::new(),
            pending: Vec::new(),
        };
        r.settle();
        r
    }

    /// What the builder asks.
    pub fn question(&self) -> (r: Question)
        requires
            self.wf(),
        ensures
            self@.question() == Some(r),
    {
        if self.pending.len() > 0 {
            return Question::Fit { piece: self.pending[self.pending.len() - 1] };
        }
        if self.at >= self.commands.len() {
            return Question::Done;
        }
        match self.commands[self.at] {
            PenCommand::CurveTo { c1, c2, to } => Question::Flat {
                cubic: CubicPiece { c0: self.pen.current, c1, c2, c3: to, depth: 0 },
            },
            _ => Question::Gap { from: self.pen.current, to: self.pen.contour_start },
        }
    }

    fn settle(&mut self)
        requires
            old(self)@.at <= old(self)@.commands.len(),
        ensures
            final(self).wf(),
            final(self)@ == old(self)@.settled(),
    {
        while self.at < self.commands.len() && self.pending.len() == 0
            invariant
                self.at <= self.commands.len(),
                self@.settled() == old(self)@.settled(),
            ensures
                self.at <= self.commands.len(),
                self@.question() is Some,
                self@ == old(self)@.settled(),
            decreases self.commands.len() - self.at,
        {
            let ghost before = self@;
            let command = self.commands[self.at];
            match command {
                PenCommand::MoveTo { to } => self.pen.move_to(to),
                PenCommand::LineTo { to } => self.pen.line_to(to),
                PenCommand::QuadTo { c, to } => self.pen.quad_to(c, to),
                PenCommand::CurveTo { c1, c2, to } => {
                    if !self.pen.current.same(&to) {
                        break;
                    }
                },
                PenCommand::Close => {
                    break;
                },
            }
            self.at = self.at + 1;
            assert(self@ == before.stepped());
        }
    }

    /// Answers `Question::Flat`.
    pub fn answer_flat(&mut self, flat: bool)
        requires
            old(self).wf(),
            old(self)@.question() is Some && old(self)@.question()->0 is Flat,
        ensures
            final(self).wf(),
            final(self)@ == old(self)@.after_flat(flat).settled(),
    {
        if let PenCommand::CurveTo { c1, c2, to } = self.commands[self.at] {
            let piece = self.pen.curve_to(c1, c2, to, flat);
            if let Some(piece) = piece {
                self.pending.push(piece);
                assert(self.pending@ =~= seq![piece]);
            }
            self.at = self.at + 1;
        }
        assert(self@ == old(self)@.after_flat(flat));
        self.settle();
    }

    /// Answers `Question::Fit`.
    pub fn answer_fit(&mut self, fit: CubicFit)
        requires
            old(self).wf(),
            old(self)@.question() is Some && old(self)@.question()->0 is Fit,
        ensures
            final(self).wf(),
            final(self)@ == old(self)@.after_fit(fit).settled(),
    {
        self.pen.resolve(&mut self.pending, fit);
        assert(self@ == old(self)@.after_fit(fit));
        self.settle();
    }

    /// Answers `Question::Gap`.
    pub fn answer_gap(&mut self, gap: bool)
        requires
            old(self).wf(),
            old(self)@.question() is Some && old(self)@.question()->0 is Gap,
        ensures
            final(self).wf(),
            final(self)@ == old(self)@.after_gap(gap).settled(),
    {
        self.pen.close(gap);
        self.at = self.at + 1;
        assert(self@ == old(self)@.after_gap(gap));
        self.settle();
    }

    /// The outline of a path that is worked off; a path that drew nothing has
    /// none.
    pub fn finish(self) -> (r: Option<GlyphOutline>)
        requires
            self.wf(),
            self@.question() == Some(Question::Done),
        ensures
            match r {
                Some(outline) => {
                    &&& self@.pen.curves.len() > 0
                    &&& outline.curves@ == self@.pen.curves
                    &&& outline.bounds == self@.pen.bounds
                },
                None => self@.pen.curves.len() == 0,
            },
    {
        if self.pen.curves.len() == 0 {
            None
        } else {
            Some(GlyphOutline { curves: self.pen.curves, bounds: self.pen.bounds })
        }
    }
}

/// Whether `after` comes from `before` by drawing a chain of curves from where
/// the pen was to where it is.
pub open spec fn draws_chain(before: PenState, after: PenState) -> bool {
    let n = before.curves.len() as int;
    &&& n <= after.curves.len()
    &&& after.curves.take(n) == before.curves
    &&& chained(before.current, after.curves.skip(n))
    &&& joined(chain_end(before.current, after.curves.skip(n)), after.current)
}

proof fn lemma_push_chain(before: PenState, after: PenState, curve: QuadCurve)
    requires
        after.curves == before.curves.push(curve),
        curve.p1 == before.current,
        curve.p3 == after.current,
    ensures
        draws_chain(before, after),
{
    let n = before.curves.len() as int;
    assert(after.curves.take(n) =~= before.curves);
    assert(after.curves.skip(n) =~= seq![curve]);
    assert(seq![curve].drop_last() =~= Seq::empty());
    reveal_with_fuel(chained, 2);
}

/// Lines, quadratics and the closing of a contour draw on from where the pen
/// is: no contour has a gap inside.
pub proof fn lemma_pen_draws_chain(pen: PenState, c: Point, p: Point, gap: bool)
    ensures
        draws_chain(pen, pen.lined_to(p)),
        draws_chain(pen, pen.drew_line(p)),
        draws_chain(pen, pen.quadded_to(c, p)),
        draws_chain(pen, pen.closed(gap)),
{
    let n = pen.curves.len() as int;
    assert(pen.curves.take(n) =~= pen.curves);
    assert(pen.curves.skip(n) =~= Seq::empty());
    reveal_with_fuel(chained, 1);
    lemma_push_chain(pen, pen.drew_line(p), line(pen.current, p));
    lemma_push_chain(
        pen,
        pen.quadded_to(c, p),
        QuadCurve { p1: pen.current, p2: c, p3: p },
    );
    lemma_push_chain(pen, pen.closed(true), line(pen.current, pen.contour_start));
}

/// What holds while the builder takes apart a cubic that leads from where the
/// pen was, at `before`, to `target`.
pub open spec fn in_cubic(before: PenState, target: Point, v: BuilderState) -> bool {
    let n = before.curves.len() as int;
    &&& n <= v.pen.curves.len()
    &&& v.pen.curves.take(n) == before.curves
    &&& cubic_run(before.current, target, v.pen.curves.skip(n), v.pending)
    &&& v.pen.current == if v.pending.len() == 0 {
        target
    } else {
        before.current
    }
}

/// A cubic that is not flat draws a chain of at most 1024 quadratics from
/// where the pen is to the end of the cubic, whatever the answers are: this
/// holds when it begins, it is kept by every answer, and it gives the chain
/// when no piece is left.
pub proof fn lemma_cubic_draws_chain(
    before: PenState,
    target: Point,
    v: BuilderState,
    fit: CubicFit,
)
    ensures
        v.question() matches Some(Question::Flat { cubic }) ==> in_cubic(
            v.pen,
            cubic.c3,
            v.after_flat(false),
        ),
        in_cubic(before, target, v) && v.pending.len() > 0 ==> in_cubic(
            before,
            target,
            v.after_fit(fit),
        ),
        in_cubic(before, target, v) && v.pending.len() == 0 ==> {
            &&& draws_chain(before, v.pen)
            &&& v.pen.curves.len() - before.curves.len() <= MAX_QUADRATICS
        },
{
    if let Some(Question::Flat { cubic }) = v.question() {
        let n = v.pen.curves.len() as int;
        assert(v.pen.curves.take(n) =~= v.pen.curves);
        assert(v.pen.curves.skip(n) =~= Seq::empty());
        lemma_cubic_begins(cubic);
    }
    if in_cubic(before, target, v) {
        let n = before.curves.len() as int;
        let emitted = v.pen.curves.skip(n);
        if v.pending.len() > 0 {
            let w = v.after_fit(fit);
            lemma_cubic_step(before.current, target, emitted, v.pending, fit);
            assert(w.pen.curves.take(n) =~= before.curves);
            match piece_curve(v.pending.last(), fit) {
                Some(curve) => {
                    assert(w.pen.curves.skip(n) =~= emitted.push(curve));
                },
                None => {},
            }
            if w.pending.len() == 0 {
                assert(v.pending.len() == 1);
                assert(v.pending[0] == v.pending.last());
            }
        } else {
            assert(v.pending =~= Seq::empty());
            lemma_cubic_ends(before.current, target, emitted);
        }
    }
}

/// Every answer brings the builder closer to its end: fewer commands are left,
/// or as many and less of a cubic.
pub proof fn lemma_answers_end(v: BuilderState, flat: bool, fit: CubicFit, gap: bool)
    requires
        0 <= v.at <= v.commands.len(),
    ensures
        v.question() is Some && v.question()->0 is Flat ==> v.at < v.after_flat(
            flat,
        ).settled().at <= v.commands.len(),
        v.question() is Some && v.question()->0 is Gap ==> v.at < v.after_gap(gap).settled().at
            <= v.commands.len(),
        v.question() is Some && v.question()->0 is Fit ==> {
            let w = v.after_fit(fit).settled();
            &&& v.at <= w.at <= v.commands.len()
            &&& w.at > v.at || work_left(w.pending) < work_left(v.pending)
        },
{
    if let Some(q) = v.question() {
        match q {
            Question::Flat { cubic } => lemma_settled(v.after_flat(flat)),
            Question::Gap { from, to } => lemma_settled(v.after_gap(gap)),
            Question::Fit { piece } => {
                lemma_settled(v.after_fit(fit));
                lemma_work_falls(v.pending, fit);
            },
            Question::Done => {},
        }
    }
}

proof fn lemma_settled(v: BuilderState)
    requires
        0 <= v.at <= v.commands.len(),
    ensures
        v.at <= v.settled().at <= v.commands.len(),
        v.settled().commands == v.commands,
        v.settled().pending == v.pending,
    decreases v.commands.len() - v.at,
{
    if v.at < v.commands.len() && v.question() is None {
        lemma_settled(v.stepped());
    }
}

/// Whether the bounds of a pen take in everything it drew and where it is.
pub open spec fn pen_covered(pen: PenState) -> bool {
    &&& bounds_numeric(pen.bounds)
    &&& within(pen.current, pen.bounds)
    &&& within(pen.contour_start, pen.bounds)
    &&& forall|i: int|
        0 <= i < pen.curves.len() ==> curve_within(#[trigger] pen.curves[i], pen.bounds)
}

/// Whether the bounds of a builder's pen take in everything it drew, where it
/// is, and where the pieces of a cubic that are to be drawn begin.
pub open spec fn covered(v: BuilderState) -> bool {
    &&& pen_covered(v.pen)
    &&& v.pending.len() > 0 ==> {
        &&& within(v.pending.last().c0, v.pen.bounds)
        &&& pieces_linked(v.pending, v.pending[0].c3)
    }
}

proof fn lemma_pen_covered(pen: PenState, p: Point, gap: bool)
    requires
        pen_covered(pen),
    ensures
        pen_covered(pen.moved_to(p)),
        pen_covered(pen.drew_line(p)),
        pen_covered(pen.lined_to(p)),
        pen_covered(pen.closed(gap)),
{
    lemma_widened(pen.bounds, p);
}

proof fn lemma_quad_covered(pen: PenState, c: Point, p: Point)
    requires
        pen_covered(pen),
    ensures
        pen_covered(pen.quadded_to(c, p)),
{
    lemma_widened(pen.bounds, c);
    lemma_widened(pen.bounds.with(c), p);
}

/// A pen that moved to its first point has everything within its bounds.
pub proof fn lemma_first_move_covered(p: Point)
    ensures
        pen_covered(PenState::fresh().moved_to(p)),
{
    lemma_widened(no_bounds(), p);
}

/// From the first `MoveTo` on the bounds take in everything: every command
/// and every answer keeps it so.
pub proof fn lemma_bounds_cover(v: BuilderState, flat: bool, fit: CubicFit, gap: bool)
    requires
        covered(v),
        0 <= v.at <= v.commands.len(),
    ensures
        match v.question() {
            None => covered(v.stepped()),
            Some(Question::Flat { cubic }) => covered(v.after_flat(flat)),
            Some(Question::Fit { piece }) => covered(v.after_fit(fit)),
            Some(Question::Gap { from, to }) => covered(v.after_gap(gap)),
            Some(Question::Done) => true,
        },
{
    if v.pending.len() > 0 {
        lemma_fit_covered(v, fit);
    } else if v.at < v.commands.len() {
        match v.commands[v.at] {
            PenCommand::MoveTo { to } => lemma_pen_covered(v.pen, to, gap),
            PenCommand::LineTo { to } => lemma_pen_covered(v.pen, to, gap),
            PenCommand::QuadTo { c, to } => lemma_quad_covered(v.pen, c, to),
            PenCommand::CurveTo { c1, c2, to } => lemma_pen_covered(v.pen, to, gap),
            PenCommand::Close => lemma_pen_covered(v.pen, v.pen.current, gap),
        }
    }
}

proof fn lemma_fit_covered(v: BuilderState, fit: CubicFit)
    requires
        covered(v),
        v.pending.len() > 0,
    ensures
        covered(v.after_fit(fit)),
{
    let b = v.pen.bounds;
    let w = v.after_fit(fit);
    let piece = v.pending.last();
    let n = v.pending.len() as int;
    if n > 1 {
        assert(v.pending[n - 1].c3 == v.pending[n - 2].c0);
    }
    match fit {
        CubicFit::Quadratic(q) => {
            lemma_widened(b, q);
            lemma_widened(b.with(q), piece.c3);
        },
        CubicFit::Halves(m) => {
            lemma_widened(b, piece.c3);
            assert(piece.depth == v.pending[n - 1].depth);
        },
    }
}

} // verus!
