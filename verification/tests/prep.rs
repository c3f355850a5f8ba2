use sluggrs::band::{BandGeometry, BandTransform};
use sluggrs::band_lists::BandPosition;
use sluggrs::outline::{Bounds, GlyphOutline, Point, QuadCurve};
use sluggrs::prep::{is_outline_quantizable, is_quantizable, prepare_mono, PrepScratch, PreparedMono};
use sluggrs::scalar::Scalar;

fn scalar(v: f32) -> Scalar {
    Scalar::from_bits(v.to_bits())
}

fn number(v: Scalar) -> f32 {
    f32::from_bits(v.bits)
}

fn point(p: [f32; 2]) -> Point {
    Point {
        x: scalar(p[0]),
        y: scalar(p[1]),
    }
}

fn quad(p1: [f32; 2], p2: [f32; 2], p3: [f32; 2]) -> QuadCurve {
    QuadCurve {
        p1: point(p1),
        p2: point(p2),
        p3: point(p3),
    }
}

fn make_outline(curves: Vec<QuadCurve>) -> GlyphOutline {
    let mut bounds = Bounds::empty();
    for c in &curves {
        for p in [c.p1, c.p2, c.p3] {
            bounds.extend(p);
        }
    }
    GlyphOutline { curves, bounds }
}

/// Every curve reaches into the single band of each axis.
fn one_band(outline: &GlyphOutline) -> BandGeometry {
    let zero = scalar(0.0);
    BandGeometry {
        transform: BandTransform {
            scale_x: scalar(1.0),
            scale_y: scalar(2.0),
            offset_x: scalar(3.0),
            offset_y: scalar(4.0),
        },
        middle_x: zero,
        middle_y: zero,
        positions: outline
            .curves
            .iter()
            .map(|_| BandPosition {
                low_x: 0,
                high_x: 0,
                low_y: 0,
                high_y: 0,
            })
            .collect(),
    }
}

fn prepare(outline: &GlyphOutline) -> Option<PreparedMono> {
    let mut scratch = PrepScratch::default();
    prepare_mono(
        outline,
        1,
        1,
        scalar(2000.0),
        &one_band(outline),
        &mut scratch,
    )
}

fn halves(word: i32) -> (i16, i16) {
    (word as i16, (word >> 16) as i16)
}

/// Reads the curves of a band the way a shader does.
fn walk(blob: &[i32], band: usize) -> Vec<[i16; 6]> {
    let (count, start) = halves(blob[2 * band]);
    let start = (start as i32 + 32768) as usize;
    (0..count as usize)
        .map(|p| {
            let (reference, _) = halves(blob[2 * (start + p)]);
            let at = (reference as i32 + 32768) as usize;
            let (x1, y1) = halves(blob[2 * at]);
            let (x2, y2) = halves(blob[2 * at + 1]);
            let (x3, y3) = halves(blob[2 * at + 2]);
            [x1, y1, x2, y2, x3, y3]
        })
        .collect()
}

#[test]
fn blob_gives_the_curves_back() {
    let outline = make_outline(vec![
        quad([0.0, -1000.0], [500.0, 0.0], [0.0, 1000.0]),
        quad([0.0, 1000.0], [0.0, 1000.0], [-1000.0, 1000.0]),
        quad([-1000.0, 1000.0], [-1000.0, 1000.0], [-1000.0, -1000.0]),
        quad([-1000.0, -1000.0], [-1000.0, -1000.0], [0.0, -1000.0]),
    ]);
    let glyph = prepare(&outline).expect("fits sixteen bits");
    // Horizontal band: the two upright curves; vertical band: three curves.
    // 2 headers, 2 * 2 and 2 * 3 references, and one contour of 5 texels.
    assert_eq!(glyph.blob_size, 2 + 4 + 6 + 5);
    assert_eq!(glyph.blob_data.len(), 2 * glyph.blob_size as usize);
    assert_eq!(
        walk(&glyph.blob_data, 0),
        vec![
            [0, -4000, 2000, 0, 0, 4000],
            [-4000, 4000, -4000, 4000, -4000, -4000],
        ]
    );
    let mut vertical = walk(&glyph.blob_data, 1);
    vertical.sort();
    assert_eq!(
        vertical,
        vec![
            [-4000, -4000, -4000, -4000, 0, -4000],
            [0, -4000, 2000, 0, 0, 4000],
            [0, 4000, 0, 4000, -4000, 4000],
        ]
    );
    assert_eq!(number(glyph.units_per_em), 2000.0);
    assert_eq!(number(glyph.band_transform.offset_y), 4.0);
    assert_eq!((glyph.band_count_x, glyph.band_count_y), (1, 1));
    assert_eq!(glyph.bounds, outline.bounds);
}

#[test]
fn contours_share_points_and_breaks_do_not() {
    let closed = make_outline(vec![
        quad([0.0, 0.0], [1.0, 5.0], [2.0, 9.0]),
        quad([2.0, 9.0], [3.0, 5.0], [4.0, 0.0]),
    ]);
    let broken = make_outline(vec![
        quad([0.0, 0.0], [1.0, 5.0], [2.0, 9.0]),
        quad([2.25, 9.0], [3.0, 5.0], [4.0, 0.0]),
    ]);
    // Both list two curves in both bands.
    assert_eq!(prepare(&closed).unwrap().blob_size, 2 + 8 + 3);
    assert_eq!(prepare(&broken).unwrap().blob_size, 2 + 8 + 4);
    let curves = walk(&prepare(&broken).unwrap().blob_data, 1);
    assert!(curves.contains(&[9, 36, 12, 20, 16, 0]));
}

#[test]
fn both_zeros_continue_a_contour() {
    let outline = make_outline(vec![
        quad([1.0, 5.0], [1.0, 2.0], [0.0, 0.0]),
        quad([-0.0, -0.0], [3.0, 2.0], [4.0, 7.0]),
    ]);
    assert_eq!(prepare(&outline).unwrap().blob_size, 2 + 8 + 3);
}

#[test]
fn glyphs_beyond_sixteen_bits_have_no_blob() {
    let fits = make_outline(vec![quad([0.0, 0.0], [1.0, 5.0], [8191.75, 9.0])]);
    let beyond = make_outline(vec![quad([0.0, 0.0], [1.0, 5.0], [8191.8, 9.0])]);
    assert!(is_quantizable(&fits.bounds));
    assert!(!is_quantizable(&beyond.bounds));
    assert!(prepare(&fits).is_some());
    assert!(prepare(&beyond).is_none());
    let below = make_outline(vec![quad([0.0, 0.0], [1.0, -8192.0], [5.0, 9.0])]);
    assert!(prepare(&below).is_none());
}

#[test]
fn control_points_beyond_sixteen_bits_have_no_blob() {
    let mut outline = make_outline(vec![quad([0.0, 0.0], [1.0, 0.0], [1.0, 1.0])]);
    assert!(is_outline_quantizable(&outline));
    outline.curves[0].p2.x = scalar(10_000.0);
    assert!(is_quantizable(&outline.bounds));
    assert!(!is_outline_quantizable(&outline));
    assert!(prepare(&outline).is_none());
    outline.curves[0].p2.x = scalar(8191.75);
    assert!(prepare(&outline).is_some());
    outline.curves[0].p3.y = scalar(-8191.8);
    assert!(prepare(&outline).is_none());
}

#[test]
fn scratch_does_not_leak_between_glyphs() {
    let mut scratch = PrepScratch::default();
    let large = make_outline(
        (0..20)
            .map(|i| {
                let x = i as f32 * 10.0;
                quad([x, 0.0], [x + 1.0, 50.0], [x + 5.0, 100.0])
            })
            .collect(),
    );
    let small = make_outline(vec![quad([0.0, 0.0], [1.0, 5.0], [2.0, 9.0])]);
    let alone = prepare(&small).unwrap();
    prepare_mono(
        &large,
        1,
        1,
        scalar(1.0),
        &one_band(&large),
        &mut scratch,
    )
    .unwrap();
    let after = prepare_mono(
        &small,
        1,
        1,
        scalar(2000.0),
        &one_band(&small),
        &mut scratch,
    )
    .unwrap();
    assert_eq!(after.blob_data, alone.blob_data);
}
