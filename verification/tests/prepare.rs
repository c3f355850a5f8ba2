use sluggrs::colr::AffineTransform;
use sluggrs::outline::{Bounds, GlyphOutline, Point, QuadCurve};
use sluggrs::prepare::{apply_italic_shear, apply_transform};
use sluggrs::scalar::Scalar;

const ITALIC_SHEAR: f32 = 0.2493;

fn scalar(v: f32) -> Scalar {
    Scalar::from_bits(v.to_bits())
}

fn point(p: [f32; 2]) -> Point {
    Point {
        x: scalar(p[0]),
        y: scalar(p[1]),
    }
}

fn place(p: Point) -> [f32; 2] {
    [f32::from_bits(p.x.bits), f32::from_bits(p.y.bits)]
}

fn real_quad(p1: [f32; 2], p2: [f32; 2], p3: [f32; 2]) -> QuadCurve {
    QuadCurve {
        p1: point(p1),
        p2: point(p2),
        p3: point(p3),
    }
}

fn outline(curve: QuadCurve, bounds: [f32; 4]) -> GlyphOutline {
    GlyphOutline {
        curves: vec![curve],
        bounds: Bounds {
            min_x: scalar(bounds[0]),
            min_y: scalar(bounds[1]),
            max_x: scalar(bounds[2]),
            max_y: scalar(bounds[3]),
        },
    }
}

/// Slants an outline by the italic angle.
fn shear(outline: &mut GlyphOutline) {
    let xs = outline
        .curves
        .iter()
        .flat_map(|c| [c.p1, c.p2, c.p3])
        .map(|p| {
            let [x, y] = place(p);
            scalar(x + y * ITALIC_SHEAR)
        })
        .collect();
    apply_italic_shear(outline, &xs);
}

#[test]
fn italic_shear_only_affects_x() {
    let mut outline = outline(
        real_quad([10.0, 100.0], [50.0, 200.0], [90.0, 50.0]),
        [10.0, 50.0, 90.0, 200.0],
    );
    let original_ys: Vec<[f32; 3]> = outline
        .curves
        .iter()
        .map(|c| [place(c.p1)[1], place(c.p2)[1], place(c.p3)[1]])
        .collect();

    shear(&mut outline);

    for (i, c) in outline.curves.iter().enumerate() {
        assert!((place(c.p1)[1] - original_ys[i][0]).abs() < 1e-6);
        assert!((place(c.p2)[1] - original_ys[i][1]).abs() < 1e-6);
        assert!((place(c.p3)[1] - original_ys[i][2]).abs() < 1e-6);
    }
}

#[test]
fn italic_shear_zero_y_unchanged() {
    let mut outline = outline(
        real_quad([10.0, 0.0], [50.0, 0.0], [90.0, 0.0]),
        [10.0, 0.0, 90.0, 0.0],
    );
    let original_xs = [10.0f32, 50.0, 90.0];
    shear(&mut outline);

    let c = &outline.curves[0];
    assert!((place(c.p1)[0] - original_xs[0]).abs() < 1e-6);
    assert!((place(c.p2)[0] - original_xs[1]).abs() < 1e-6);
    assert!((place(c.p3)[0] - original_xs[2]).abs() < 1e-6);
}

#[test]
fn italic_shear_positive_y_shifts_right() {
    let mut outline = outline(
        real_quad([0.0, 100.0], [0.0, 200.0], [0.0, 300.0]),
        [0.0, 100.0, 0.0, 300.0],
    );
    shear(&mut outline);

    let c = &outline.curves[0];
    assert!(place(c.p1)[0] > 0.0, "positive y should shift x right");
    assert!(
        place(c.p2)[0] > place(c.p1)[0],
        "larger y should shift x more"
    );
    assert!(
        place(c.p3)[0] > place(c.p2)[0],
        "largest y should shift x most"
    );
}

#[test]
fn italic_shear_bounds_updated() {
    let mut outline = outline(
        real_quad([0.0, 0.0], [50.0, 500.0], [100.0, 0.0]),
        [0.0, 0.0, 100.0, 500.0],
    );
    shear(&mut outline);

    // The sheared p2 at y=500 should have moved x significantly right
    // so max_x in bounds should reflect that
    assert!(
        f32::from_bits(outline.bounds.max_x.bits) > 100.0,
        "shear should widen max_x bound"
    );
    let slanted = 50.0 + 500.0 * ITALIC_SHEAR;
    assert_eq!(f32::from_bits(outline.bounds.max_x.bits), slanted);
    assert_eq!(f32::from_bits(outline.bounds.min_x.bits), 0.0);
    assert_eq!(f32::from_bits(outline.bounds.max_y.bits), 500.0);
}

#[test]
fn shear_leaves_empty_outlines_alone() {
    let mut empty = outline(
        real_quad([0.0, 0.0], [0.0, 0.0], [0.0, 0.0]),
        [1.0, 2.0, 3.0, 4.0],
    );
    empty.curves.clear();
    apply_italic_shear(&mut empty, &Vec::new());
    assert_eq!(f32::from_bits(empty.bounds.min_x.bits), 1.0);
    assert_eq!(f32::from_bits(empty.bounds.max_y.bits), 4.0);
}

#[test]
fn transforms_move_points_and_bounds() {
    let curve = real_quad([0.0, 0.0], [50.0, 500.0], [100.0, 0.0]);
    let moved = vec![point([1.0, 2.0]), point([51.0, 502.0]), point([101.0, 2.0])];
    let mut transform = AffineTransform::identity();

    let mut kept = outline(curve, [-9.0, -9.0, 9.0, 9.0]);
    apply_transform(&mut kept, &transform, &moved);
    assert_eq!(kept.curves, vec![curve]);
    assert_eq!(f32::from_bits(kept.bounds.min_x.bits), -9.0);

    transform.dx = scalar(1.0);
    let mut shifted = outline(curve, [-9.0, -9.0, 9.0, 9.0]);
    apply_transform(&mut shifted, &transform, &moved);
    assert_eq!(
        shifted.curves,
        vec![real_quad([1.0, 2.0], [51.0, 502.0], [101.0, 2.0])]
    );
    assert_eq!(f32::from_bits(shifted.bounds.min_x.bits), 1.0);
    assert_eq!(f32::from_bits(shifted.bounds.max_y.bits), 502.0);
}
