use sluggrs::cubic::{
    resolve_error, CubicFit, CubicPiece, ErrorCurve, ErrorMidpoints, ErrorSize, Midpoints,
    CU2QU_MAX_DEPTH, ERROR_MAX_DEPTH,
};
use sluggrs::outline::{GlyphOutline, Point, QuadCurve};
use sluggrs::pen::{CollectPen, OutlineBuilder, PenCommand, Question};
use sluggrs::scalar::Scalar;

type P = [f32; 2];

const CU2QU_TOLERANCE: f32 = 0.5;

fn scalar(v: f32) -> Scalar {
    Scalar::from_bits(v.to_bits())
}

fn point(p: P) -> Point {
    Point {
        x: scalar(p[0]),
        y: scalar(p[1]),
    }
}

fn place(p: Point) -> P {
    [f32::from_bits(p.x.bits), f32::from_bits(p.y.bits)]
}

fn lerp(a: P, b: P, t: f32) -> P {
    [a[0] + (b[0] - a[0]) * t, a[1] + (b[1] - a[1]) * t]
}

/// How a piece of an error curve compares with the tolerance.
fn error_size(e: &ErrorCurve, tolerance: f32) -> ErrorSize {
    let [p0, p1, p2, p3] = [e.p0, e.p1, e.p2, e.p3].map(place);
    // Quick accept: both interior control points within tolerance
    if f32::hypot(p1[0], p1[1]) <= tolerance && f32::hypot(p2[0], p2[1]) <= tolerance {
        return ErrorSize::Small;
    }

    // Check midpoint (t=0.5): (p0 + 3*(p1+p2) + p3) / 8
    let mid = [
        (p0[0] + 3.0 * (p1[0] + p2[0]) + p3[0]) * 0.125,
        (p0[1] + 3.0 * (p1[1] + p2[1]) + p3[1]) * 0.125,
    ];
    if f32::hypot(mid[0], mid[1]) > tolerance {
        return ErrorSize::Large;
    }
    let d3 = [
        (p3[0] + p2[0] - p1[0] - p0[0]) * 0.125,
        (p3[1] + p2[1] - p1[1] - p0[1]) * 0.125,
    ];
    ErrorSize::Unknown(ErrorMidpoints {
        h01: point(lerp(p0, p1, 0.5)),
        before_mid: point([mid[0] - d3[0], mid[1] - d3[1]]),
        mid: point(mid),
        after_mid: point([mid[0] + d3[0], mid[1] + d3[1]]),
        h23: point(lerp(p2, p3, 0.5)),
    })
}

/// Whether a cubic error curve with these interior control points stays within
/// tolerance of the origin.
fn cubic_fits_inside(p1: P, p2: P, tolerance: f32) -> bool {
    let mut pending = vec![ErrorCurve {
        p0: point([0.0; 2]),
        p1: point(p1),
        p2: point(p2),
        p3: point([0.0; 2]),
        depth: 0,
    }];
    loop {
        let size = error_size(&pending[pending.len() - 1], tolerance);
        if let Some(fits) = resolve_error(&mut pending, size) {
            return fits;
        }
    }
}

fn approx_quadratic(c0: P, c1: P, c2: P, c3: P, tolerance: f32) -> Option<P> {
    let (ax, ay) = (c1[0] - c0[0], c1[1] - c0[1]);
    let (dx, dy) = (c3[0] - c2[0], c3[1] - c2[1]);
    let (px, py) = (-ay, ax);
    let denom = px * dx + py * dy;
    if denom.abs() < 1e-6 {
        return None;
    }
    let h = (px * (c0[0] - c2[0]) + py * (c0[1] - c2[1])) / denom;
    let q1 = [c2[0] + dx * h, c2[1] + dy * h];
    let two_thirds = 2.0 / 3.0;
    let err1 = [
        c0[0] + (q1[0] - c0[0]) * two_thirds - c1[0],
        c0[1] + (q1[1] - c0[1]) * two_thirds - c1[1],
    ];
    let err2 = [
        c3[0] + (q1[0] - c3[0]) * two_thirds - c2[0],
        c3[1] + (q1[1] - c3[1]) * two_thirds - c2[1],
    ];
    cubic_fits_inside(err1, err2, tolerance).then_some(q1)
}

/// Answers what a piece of a cubic turns into.
fn fit(piece: CubicPiece) -> CubicFit {
    let [c0, c1, c2, c3] = [piece.c0, piece.c1, piece.c2, piece.c3].map(place);
    if let Some(q1) = approx_quadratic(c0, c1, c2, c3, CU2QU_TOLERANCE) {
        return CubicFit::Quadratic(point(q1));
    }
    let m01 = lerp(c0, c1, 0.5);
    let m12 = lerp(c1, c2, 0.5);
    let m23 = lerp(c2, c3, 0.5);
    let m012 = lerp(m01, m12, 0.5);
    let m123 = lerp(m12, m23, 0.5);
    let mid = lerp(m012, m123, 0.5);
    CubicFit::Halves(Midpoints {
        m01: point(m01),
        m012: point(m012),
        mid: point(mid),
        m123: point(m123),
        m23: point(m23),
    })
}

fn is_flat(cubic: CubicPiece) -> bool {
    let [c0, c1, c2, c3] = [cubic.c0, cubic.c1, cubic.c2, cubic.c3].map(place);
    let dx = c3[0] - c0[0];
    let dy = c3[1] - c0[1];
    let len_sq = dx * dx + dy * dy;
    if len_sq <= 1e-12 {
        return false;
    }
    let inv = 1.0 / len_sq;
    let cross1 = (c1[0] - c0[0]) * dy - (c1[1] - c0[1]) * dx;
    let cross2 = (c2[0] - c0[0]) * dy - (c2[1] - c0[1]) * dx;
    cross1 * cross1 * inv <= CU2QU_TOLERANCE * CU2QU_TOLERANCE
        && cross2 * cross2 * inv <= CU2QU_TOLERANCE * CU2QU_TOLERANCE
}

fn has_gap(from: Point, to: Point) -> bool {
    let (from, to) = (place(from), place(to));
    let dx = from[0] - to[0];
    let dy = from[1] - to[1];
    dx * dx + dy * dy > 1e-6
}

fn build(commands: Vec<PenCommand>) -> Option<GlyphOutline> {
    let mut builder = OutlineBuilder::new(commands);
    loop {
        match builder.question() {
            Question::Flat { cubic } => builder.answer_flat(is_flat(cubic)),
            Question::Fit { piece } => builder.answer_fit(fit(piece)),
            Question::Gap { from, to } => builder.answer_gap(has_gap(from, to)),
            Question::Done => return builder.finish(),
        }
    }
}

/// Takes a cubic apart with a pen that is at its start.
fn cubic_to_quadratics(c0: P, c1: P, c2: P, c3: P) -> CollectPen {
    let mut pen = CollectPen::new();
    let mut pending = vec![CubicPiece {
        c0: point(c0),
        c1: point(c1),
        c2: point(c2),
        c3: point(c3),
        depth: 0,
    }];
    while let Some(piece) = pending.last() {
        let fit = fit(*piece);
        pen.resolve(&mut pending, fit);
    }
    pen
}

#[test]
fn cu2qu_produces_at_least_one_quad() {
    let pen = cubic_to_quadratics([0.0, 0.0], [10.0, 100.0], [90.0, 100.0], [100.0, 0.0]);
    let out = pen.curves;
    assert!(!out.is_empty(), "cu2qu must produce at least one curve");
    assert_eq!(place(out[0].p1), [0.0, 0.0]);
    assert_eq!(place(out.last().expect("non-empty").p3), [100.0, 0.0]);
}

#[test]
fn cu2qu_chain_is_continuous() {
    let out = cubic_to_quadratics([0.0, 0.0], [0.0, 100.0], [100.0, 100.0], [100.0, 0.0]).curves;
    for i in 0..out.len() - 1 {
        let (end, start) = (place(out[i].p3), place(out[i + 1].p1));
        let gap_x = (end[0] - start[0]).abs();
        let gap_y = (end[1] - start[1]).abs();
        assert!(
            gap_x < 1e-6 && gap_y < 1e-6,
            "curve chain not continuous at index {i}: gap=({gap_x}, {gap_y})"
        );
    }
}

#[test]
fn cu2qu_terminates_on_complex_cubic() {
    let out = cubic_to_quadratics(
        [0.0, 0.0],
        [0.0, 1000.0],
        [1000.0, 1000.0],
        [1000.0, 0.0],
    )
    .curves;
    assert!(
        out.len() <= 1024,
        "max depth 10 should produce at most 1024 quads, got {}",
        out.len()
    );
    assert!(!out.is_empty());
}

#[test]
fn cu2qu_f32_chain_properties() {
    let cubics: &[(P, P, P, P)] = &[
        // Gentle S-curve
        ([0.0, 0.0], [100.0, 300.0], [200.0, -100.0], [300.0, 200.0]),
        // Near-semicircle (high curvature)
        ([0.0, 0.0], [0.0, 552.0], [448.0, 1000.0], [1000.0, 1000.0]),
        // Typical glyph curve (font-unit scale)
        ([186.0, 0.0], [186.0, 262.0], [398.0, 450.0], [660.0, 450.0]),
        // Small curve (10 units)
        ([0.0, 0.0], [3.0, 8.0], [7.0, 8.0], [10.0, 0.0]),
        // Large CJK-scale (2048 upem)
        (
            [100.0, 200.0],
            [400.0, 1800.0],
            [1600.0, 1800.0],
            [1900.0, 200.0],
        ),
    ];

    for (i, &(c0, c1, c2, c3)) in cubics.iter().enumerate() {
        let pen = cubic_to_quadratics(c0, c1, c2, c3);
        let bounds = pen.bounds;
        let bmin = place(Point {
            x: bounds.min_x,
            y: bounds.min_y,
        });
        let bmax = place(Point {
            x: bounds.max_x,
            y: bounds.max_y,
        });
        let out = pen.curves;

        assert!(!out.is_empty(), "cubic {i} produced no quads");
        // Sharp inflections (e.g. S-curves) legitimately need 20+ quads.
        // Max depth 10 caps at 1024; typical glyphs produce 1-30.
        assert!(
            out.len() <= 64,
            "cubic {i}: excessive subdivisions ({})",
            out.len()
        );

        // Endpoint preservation
        assert_eq!(
            place(out[0].p1),
            c0,
            "cubic {i}: first quad doesn't start at c0"
        );
        assert_eq!(
            place(out.last().expect("non-empty").p3),
            c3,
            "cubic {i}: last quad doesn't end at c3"
        );

        // Chain continuity
        for j in 0..out.len() - 1 {
            let (end, start) = (place(out[j].p3), place(out[j + 1].p1));
            let gap = f32::hypot(end[0] - start[0], end[1] - start[1]);
            assert!(gap < 1e-5, "cubic {i}: chain gap {gap} at quad {j}");
        }

        // Bounds must contain new control points (p2, p3 of each quad).
        // p1 of the first quad is the start point, tracked separately by the pen.
        for q in &out {
            for p in [place(q.p2), place(q.p3)] {
                assert!(
                    p[0] >= bmin[0] - 1e-3 && p[0] <= bmax[0] + 1e-3,
                    "cubic {i}: x={} outside bounds [{}, {}]",
                    p[0],
                    bmin[0],
                    bmax[0]
                );
                assert!(
                    p[1] >= bmin[1] - 1e-3 && p[1] <= bmax[1] + 1e-3,
                    "cubic {i}: y={} outside bounds [{}, {}]",
                    p[1],
                    bmin[1],
                    bmax[1]
                );
            }
        }
    }
}

#[test]
fn collect_pen_line_to_creates_degenerate_quad() {
    let mut pen = CollectPen::new();
    pen.move_to(point([0.0, 0.0]));
    pen.line_to(point([100.0, 0.0]));
    assert_eq!(pen.curves.len(), 1);
    let c = &pen.curves[0];
    // p2 should equal p1 (harfbuzz-style degenerate encoding)
    assert!((place(c.p2)[0] - 0.0).abs() < 1e-6);
    assert!((place(c.p2)[1] - 0.0).abs() < 1e-6);
}

#[test]
fn collect_pen_close_emits_closing_segment() {
    let mut pen = CollectPen::new();
    pen.move_to(point([0.0, 0.0]));
    pen.line_to(point([100.0, 0.0]));
    pen.line_to(point([100.0, 100.0]));
    pen.close(has_gap(pen.current, pen.contour_start));
    // 2 line_to + 1 close = 3 curves
    assert_eq!(pen.curves.len(), 3);
    // Closing segment should end at contour start
    let last = &pen.curves[2];
    assert!((place(last.p3)[0] - 0.0).abs() < 1e-6);
    assert!((place(last.p3)[1] - 0.0).abs() < 1e-6);
}

#[test]
fn collect_pen_close_at_start_no_extra_segment() {
    let mut pen = CollectPen::new();
    pen.move_to(point([50.0, 50.0]));
    pen.line_to(point([100.0, 50.0]));
    pen.line_to(point([50.0, 50.0])); // back to start
    pen.close(has_gap(pen.current, pen.contour_start));
    // close() should not emit an extra segment since we're already at start
    assert_eq!(pen.curves.len(), 2);
}

#[test]
fn collect_pen_bounds_track_all_points() {
    let mut pen = CollectPen::new();
    pen.move_to(point([10.0, 20.0]));
    pen.quad_to(point([5.0, 90.0]), point([80.0, 30.0]));
    let bounds = pen.bounds;
    assert!(f32::from_bits(bounds.min_x.bits) <= 5.0);
    assert!(f32::from_bits(bounds.min_y.bits) <= 20.0);
    assert!(f32::from_bits(bounds.max_x.bits) >= 80.0);
    assert!(f32::from_bits(bounds.max_y.bits) >= 90.0);
}

fn line(p1: P, p3: P) -> QuadCurve {
    QuadCurve {
        p1: point(p1),
        p2: point(p1),
        p3: point(p3),
    }
}

#[test]
fn builder_collects_a_path() {
    let outline = build(vec![
        PenCommand::MoveTo {
            to: point([0.0, 0.0]),
        },
        PenCommand::LineTo {
            to: point([10.0, 0.0]),
        },
        // No length: left out.
        PenCommand::LineTo {
            to: point([10.0, -0.0]),
        },
        PenCommand::QuadTo {
            c: point([20.0, 5.0]),
            to: point([10.0, 10.0]),
        },
        // Flat: becomes a line.
        PenCommand::CurveTo {
            c1: point([7.0, 10.1]),
            c2: point([3.0, 9.9]),
            to: point([0.0, 10.0]),
        },
        // Ends where it begins: left out.
        PenCommand::CurveTo {
            c1: point([7.0, 50.0]),
            c2: point([3.0, 50.0]),
            to: point([0.0, 10.0]),
        },
        PenCommand::Close,
    ])
    .expect("the path draws something");
    assert_eq!(
        outline.curves,
        vec![
            line([0.0, 0.0], [10.0, 0.0]),
            QuadCurve {
                p1: point([10.0, 0.0]),
                p2: point([20.0, 5.0]),
                p3: point([10.0, 10.0]),
            },
            line([10.0, 10.0], [0.0, 10.0]),
            line([0.0, 10.0], [0.0, 0.0]),
        ]
    );
    assert_eq!(
        [
            outline.bounds.min_x,
            outline.bounds.min_y,
            outline.bounds.max_x,
            outline.bounds.max_y
        ],
        [0.0, 0.0, 20.0, 10.0].map(scalar)
    );
}

#[test]
fn builder_takes_cubics_apart_and_goes_on() {
    let outline = build(vec![
        PenCommand::MoveTo {
            to: point([0.0, 0.0]),
        },
        PenCommand::CurveTo {
            c1: point([0.0, 552.0]),
            c2: point([448.0, 1000.0]),
            to: point([1000.0, 1000.0]),
        },
        PenCommand::LineTo {
            to: point([1000.0, 0.0]),
        },
        PenCommand::Close,
    ])
    .expect("the path draws something");
    let n = outline.curves.len();
    assert!(n > 3);
    assert_eq!(outline.curves[n - 2], line([1000.0, 1000.0], [1000.0, 0.0]));
    assert_eq!(outline.curves[n - 1], line([1000.0, 0.0], [0.0, 0.0]));
    for pair in outline.curves.windows(2) {
        assert_eq!(pair[0].p3, pair[1].p1);
    }
}

#[test]
fn paths_that_draw_nothing_have_no_outline() {
    assert!(build(Vec::new()).is_none());
    assert!(build(vec![
        PenCommand::MoveTo {
            to: point([3.0, 4.0])
        },
        PenCommand::LineTo {
            to: point([3.0, 4.0])
        },
        PenCommand::Close,
    ])
    .is_none());
}

#[test]
fn pieces_that_never_fit_become_lines() {
    // Halving at every depth: as many lines as there may be.
    let mut pen = CollectPen::new();
    let mut pending = vec![CubicPiece {
        c0: point([0.0, 0.0]),
        c1: point([0.0, 1.0]),
        c2: point([1.0, 1.0]),
        c3: point([1024.0, 0.0]),
        depth: 0,
    }];
    let mut steps = 0;
    while let Some(piece) = pending.last() {
        let mid = lerp(place(piece.c0), place(piece.c3), 0.5);
        let halves = Midpoints {
            m01: piece.c1,
            m012: piece.c1,
            mid: point(mid),
            m123: piece.c2,
            m23: piece.c2,
        };
        assert!(piece.depth <= CU2QU_MAX_DEPTH);
        pen.resolve(&mut pending, CubicFit::Halves(halves));
        steps += 1;
    }
    assert_eq!(pen.curves.len(), 1024);
    assert_eq!(steps, 2047);
    assert_eq!(pen.curves[17], line([17.0, 0.0], [18.0, 0.0]));
    assert_eq!(place(pen.current), [1024.0, 0.0]);
}

#[test]
fn lines_without_length_are_left_out_at_the_last_depth() {
    let mut pen = CollectPen::new();
    let mut pending = vec![CubicPiece {
        c0: point([5.0, 5.0]),
        c1: point([0.0, 1.0]),
        c2: point([1.0, 1.0]),
        c3: point([5.0, 5.0]),
        depth: CU2QU_MAX_DEPTH,
    }];
    let halves = Midpoints {
        m01: point([0.0, 0.0]),
        m012: point([0.0, 0.0]),
        mid: point([0.0, 0.0]),
        m123: point([0.0, 0.0]),
        m23: point([0.0, 0.0]),
    };
    pen.resolve(&mut pending, CubicFit::Halves(halves));
    assert!(pen.curves.is_empty());
    assert!(pending.is_empty());
}

#[test]
fn errors_are_halved_until_they_are_known() {
    let origin = point([0.0, 0.0]);
    let piece = |depth| ErrorCurve {
        p0: origin,
        p1: origin,
        p2: origin,
        p3: origin,
        depth,
    };
    let halves = ErrorSize::Unknown(ErrorMidpoints {
        h01: origin,
        before_mid: origin,
        mid: origin,
        after_mid: origin,
        h23: origin,
    });
    let mut pending = vec![piece(0)];
    assert_eq!(resolve_error(&mut pending, halves), None);
    assert_eq!(pending.len(), 2);
    assert_eq!(pending[1].depth, 1);
    assert_eq!(resolve_error(&mut pending, ErrorSize::Small), None);
    assert_eq!(resolve_error(&mut pending, ErrorSize::Small), Some(true));
    let mut pending = vec![piece(0), piece(3)];
    assert_eq!(resolve_error(&mut pending, ErrorSize::Large), Some(false));
    let mut pending = vec![piece(ERROR_MAX_DEPTH)];
    assert_eq!(resolve_error(&mut pending, halves), Some(false));
    let mut pending = vec![piece(ERROR_MAX_DEPTH)];
    assert_eq!(resolve_error(&mut pending, ErrorSize::Small), Some(true));
}
