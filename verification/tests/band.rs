use sluggrs::band::{
    build_bands, build_leading_bands, encode_offset, BandData, BandGeometry, BandTransform,
    CurveLocation,
};
use sluggrs::band_lists::BandPosition;
use sluggrs::outline::{Bounds, GlyphOutline, Point, QuadCurve};
use sluggrs::scalar::Scalar;

fn scalar(v: f32) -> Scalar {
    Scalar::from_bits(v.to_bits())
}

fn number(v: Scalar) -> f32 {
    f32::from_bits(v.bits)
}

fn point(p: [f32; 2]) -> Point {
    Point {
        x: scalar(p[0]),
        y: scalar(p[1]),
    }
}

fn quad(p1: [f32; 2], p2: [f32; 2], p3: [f32; 2]) -> QuadCurve {
    QuadCurve {
        p1: point(p1),
        p2: point(p2),
        p3: point(p3),
    }
}

fn make_outline(curves: Vec<QuadCurve>) -> GlyphOutline {
    let mut bounds = Bounds::empty();
    for c in &curves {
        for p in [c.p1, c.p2, c.p3] {
            bounds.extend(p);
        }
    }
    GlyphOutline { curves, bounds }
}

/// The band transform of an outline, and where its curves lie.
fn geometry(outline: &GlyphOutline, band_count_x: u32, band_count_y: u32) -> BandGeometry {
    let min_x = number(outline.bounds.min_x);
    let min_y = number(outline.bounds.min_y);
    let max_x = number(outline.bounds.max_x);
    let max_y = number(outline.bounds.max_y);
    let width = max_x - min_x;
    let height = max_y - min_y;
    let safe_width = if width < 1e-6 { 1.0 } else { width };
    let safe_height = if height < 1e-6 { 1.0 } else { height };
    let scale_x = band_count_x as f32 / safe_width;
    let scale_y = band_count_y as f32 / safe_height;
    let offset_x = -min_x * scale_x;
    let offset_y = -min_y * scale_y;
    let positions = outline
        .curves
        .iter()
        .map(|c| {
            let xs = [number(c.p1.x), number(c.p2.x), number(c.p3.x)];
            let ys = [number(c.p1.y), number(c.p2.y), number(c.p3.y)];
            let least = |v: [f32; 3]| v[0].min(v[1]).min(v[2]);
            let greatest = |v: [f32; 3]| v[0].max(v[1]).max(v[2]);
            BandPosition {
                low_x: (least(xs) * scale_x + offset_x).floor() as i32,
                high_x: (greatest(xs) * scale_x + offset_x - 1e-5).floor() as i32,
                low_y: (least(ys) * scale_y + offset_y).floor() as i32,
                high_y: (greatest(ys) * scale_y + offset_y - 1e-5).floor() as i32,
            }
        })
        .collect();
    BandGeometry {
        transform: BandTransform {
            scale_x: scalar(scale_x),
            scale_y: scalar(scale_y),
            offset_x: scalar(offset_x),
            offset_y: scalar(offset_y),
        },
        middle_x: scalar((min_x + max_x) * 0.5),
        middle_y: scalar((min_y + max_y) * 0.5),
        positions,
    }
}

fn sequential_locations(n: usize) -> Vec<CurveLocation> {
    (0..n)
        .map(|i| CurveLocation {
            offset: i as u32 * 2,
        })
        .collect()
}

fn bands_of(outline: &GlyphOutline, band_count_x: u32, band_count_y: u32) -> BandData {
    let locations = sequential_locations(outline.curves.len());
    let geometry = geometry(outline, band_count_x, band_count_y);
    build_bands(
        outline,
        &locations,
        band_count_x,
        band_count_y,
        &geometry,
        Vec::new(),
    )
}

#[test]
fn degenerate_glyph_zero_size() {
    // A glyph with zero width/height (all points at same location)
    let outline = make_outline(vec![quad([50.0, 50.0], [50.0, 50.0], [50.0, 50.0])]);
    let data = bands_of(&outline, 4, 4);

    // Should not panic, should produce valid band data
    assert!(!data.entries.is_empty());
    assert!(number(data.band_transform.scale_x).is_finite());
    assert!(number(data.band_transform.scale_y).is_finite());
}

#[test]
fn single_curve_appears_in_all_1x1_bands() {
    let outline = make_outline(vec![quad([0.0, 0.0], [50.0, 100.0], [100.0, 0.0])]);
    let data = bands_of(&outline, 1, 1);

    // 2 band headers (h + v) * 4 numbers each = 8
    // 1 curve * 2 bands * 2 lists (desc+asc) * 4 numbers each = 16
    assert_eq!(data.entries.len(), 24);
    // h-band should have count=1
    assert_eq!(data.entries[0], 1);
    // v-band should have count=1
    assert_eq!(data.entries[4], 1);
}

#[test]
fn curve_in_correct_horizontal_band() {
    // Two curves: one in bottom half, one in top half
    let outline = make_outline(vec![
        quad([0.0, 0.0], [50.0, 20.0], [100.0, 0.0]),
        quad([0.0, 80.0], [50.0, 100.0], [100.0, 80.0]),
    ]);
    let data = bands_of(&outline, 1, 2);

    // 3 band headers (2 hbands + 1 vband) * 4 numbers = 12
    // h-band 0 (bottom) should contain curve 0
    // h-band 1 (top) should contain curve 1
    let hband0_count = data.entries[0];
    let hband1_count = data.entries[4];
    assert!(
        hband0_count >= 1,
        "bottom h-band should contain bottom curve"
    );
    assert!(hband1_count >= 1, "top h-band should contain top curve");
}

#[test]
fn band_transform_maps_bounds_to_band_range() {
    let outline = make_outline(vec![quad([10.0, 20.0], [50.0, 80.0], [90.0, 20.0])]);
    let data = bands_of(&outline, 4, 4);

    let scale_x = number(data.band_transform.scale_x);
    let scale_y = number(data.band_transform.scale_y);
    let offset_x = number(data.band_transform.offset_x);
    let offset_y = number(data.band_transform.offset_y);

    // min_x mapped should give 0, max_x mapped should give band_count_x
    let mapped_min_x = number(outline.bounds.min_x) * scale_x + offset_x;
    let mapped_max_x = number(outline.bounds.max_x) * scale_x + offset_x;
    assert!(
        (mapped_min_x).abs() < 1e-4,
        "min_x should map to ~0, got {mapped_min_x}"
    );
    assert!(
        (mapped_max_x - 4.0).abs() < 1e-4,
        "max_x should map to ~4, got {mapped_max_x}"
    );

    let mapped_min_y = number(outline.bounds.min_y) * scale_y + offset_y;
    let mapped_max_y = number(outline.bounds.max_y) * scale_y + offset_y;
    assert!(
        (mapped_min_y).abs() < 1e-4,
        "min_y should map to ~0, got {mapped_min_y}"
    );
    assert!(
        (mapped_max_y - 4.0).abs() < 1e-4,
        "max_y should map to ~4, got {mapped_max_y}"
    );
}

#[test]
fn wide_curve_spans_multiple_vertical_bands() {
    // A curve spanning the full width should appear in all vertical bands
    let outline = make_outline(vec![quad([0.0, 0.0], [50.0, 50.0], [100.0, 0.0])]);
    let data = bands_of(&outline, 4, 1);

    // 1 h-band header + 4 v-band headers = 5 * 4 = 20 numbers
    // The curve appears in hband (1 ref * 2 lists) + all 4 vbands (4 refs * 2 lists)
    // = 10 refs * 4 numbers = 40
    let total_expected = 20 + 40;
    assert_eq!(data.entries.len(), total_expected);
}

#[test]
fn entries_are_aligned_to_uint4() {
    // Every entry in the band data should be a multiple of 4 numbers
    let outline = make_outline(vec![
        quad([0.0, 0.0], [25.0, 50.0], [50.0, 0.0]),
        quad([50.0, 50.0], [75.0, 100.0], [100.0, 50.0]),
    ]);
    let data = bands_of(&outline, 3, 3);
    assert_eq!(data.entries.len() % 4, 0, "entries must be uint4-aligned");
}

#[test]
fn offsets_are_biased() {
    assert_eq!(encode_offset(0), -32768);
    assert_eq!(encode_offset(32768), 0);
    assert_eq!(encode_offset(65535), 32767);
    assert_eq!(encode_offset(65536), -32768);
    assert_eq!(encode_offset(0x7fff_ffff), 32767);
}

#[test]
fn exact_entries_of_two_curves() {
    // Curve 0 covers x 0..40, curve 1 covers x 60..100; both span all of y.
    let outline = make_outline(vec![
        quad([0.0, 0.0], [20.0, 50.0], [40.0, 100.0]),
        quad([60.0, 0.0], [80.0, 50.0], [100.0, 100.0]),
    ]);
    let mut used = vec![7i16; 3];
    used.push(9);
    let data = build_bands(
        &outline,
        &[CurveLocation { offset: 10 }, CurveLocation { offset: 20 }].to_vec(),
        2,
        1,
        &geometry(&outline, 2, 1),
        used,
    );
    let bias = |n: i32| (n - 32768) as i16;
    let reference = |n: i32| [bias(n), 0, 0, 0];
    let mut expected: Vec<i16> = Vec::new();
    // The horizontal band lists both curves. Either candidate, x = 100 or
    // x = 40, leaves two curves to one side, so the middle splits.
    expected.extend([2, bias(3), bias(5), 200]);
    // Vertical band 0 lists curve 0, band 1 lists curve 1: no split, middle y.
    expected.extend([1, bias(7), bias(8), 200]);
    expected.extend([1, bias(9), bias(10), 200]);
    // Falling by greatest x: curve 1, curve 0; rising by least x: curve 0, 1.
    expected.extend(reference(20));
    expected.extend(reference(10));
    expected.extend(reference(10));
    expected.extend(reference(20));
    expected.extend(reference(10));
    expected.extend(reference(10));
    expected.extend(reference(20));
    expected.extend(reference(20));
    assert_eq!(data.entries, expected);
    assert_eq!(data.band_count_x, 2);
    assert_eq!(data.band_count_y, 1);
}

#[test]
fn split_keeps_the_longer_side_shortest() {
    // Four upright curves side by side: the second from the right splits.
    let outline = make_outline(vec![
        quad([0.0, 0.0], [5.0, 50.0], [10.0, 100.0]),
        quad([30.0, 0.0], [35.0, 50.0], [40.0, 100.0]),
        quad([60.0, 0.0], [65.0, 50.0], [70.0, 100.0]),
        quad([90.0, 0.0], [95.0, 50.0], [100.0, 100.0]),
    ]);
    let data = bands_of(&outline, 1, 1);
    assert_eq!(data.entries[0], 4);
    // Candidates 100, 70, 40, 10 leave 4, 3, 3, 4 curves: 70 comes first.
    assert_eq!(data.entries[3], 280);
}

#[test]
fn flat_curves_are_left_out() {
    // A horizontal line is in no horizontal band, a vertical one in no
    // vertical band.
    let outline = make_outline(vec![
        quad([0.0, 0.0], [0.0, 0.0], [100.0, 0.0]),
        quad([100.0, 0.0], [100.0, 0.0], [100.0, 100.0]),
        quad([100.0, 100.0], [50.0, 50.0], [0.0, 0.0]),
    ]);
    let data = bands_of(&outline, 1, 1);
    assert_eq!(data.entries[0], 2);
    assert_eq!(data.entries[4], 2);
}

#[test]
fn leading_bands_refer_behind_themselves() {
    let outline = make_outline(vec![quad([0.0, 0.0], [50.0, 100.0], [100.0, 0.0])]);
    let data = build_leading_bands(
        &outline,
        &vec![CurveLocation { offset: 0 }],
        1,
        1,
        &geometry(&outline, 1, 1),
        Vec::new(),
    );
    // Two headers and four references: the curves begin at texel 6.
    assert_eq!(data.entries.len(), 24);
    for texel in 2..6 {
        assert_eq!(data.entries[4 * texel] as i32 + 32768, 6);
    }
}
