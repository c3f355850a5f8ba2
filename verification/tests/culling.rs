use sluggrs::culling::{
    classify_placement, clipped_bounds, is_same_place, re_cull_vector_instances, select_runs,
    PlacementClass,
};
use sluggrs::instance::Rect;
use sluggrs::outline::Rgba;
use sluggrs::scalar::Scalar;
use sluggrs::{GlyphInstance, Resolution, TextBounds};

fn scalar(v: f32) -> Scalar {
    Scalar::from_bits(v.to_bits())
}

fn rect(v: [f32; 4]) -> Rect {
    Rect {
        x: scalar(v[0]),
        y: scalar(v[1]),
        width: scalar(v[2]),
        height: scalar(v[3]),
    }
}

fn instance(v: [f32; 4]) -> GlyphInstance {
    let zero = scalar(0.0);
    GlyphInstance {
        screen_rect: rect(v),
        color: Rgba {
            r: zero,
            g: zero,
            b: zero,
            a: zero,
        },
        glyph_offset: 0,
        cmd_texel_count: 0,
        depth: zero,
        ppem: zero,
    }
}

/// Whether a rectangle is visible with a margin of one pixel.
fn visible(v: [f32; 4], scroll: [f32; 2], bounds: [i32; 4]) -> bool {
    let x = v[0] + scroll[0];
    let y = v[1] + scroll[1];
    x + v[2] + 1.0 >= bounds[0] as f32
        && x - 1.0 <= bounds[2] as f32
        && y + v[3] + 1.0 >= bounds[1] as f32
        && y - 1.0 <= bounds[3] as f32
}

/// Shifts an instance and culls it anew.
fn re_cull(v: [f32; 4], dx: f32, dy: f32) -> (Vec<GlyphInstance>, bool) {
    let shifted = [v[0] + dx, v[1] + dy, v[2], v[3]];
    re_cull_vector_instances(
        &vec![instance(v)],
        true,
        &vec![rect(shifted)],
        &vec![visible(shifted, [0.0, 0.0], [0, 0, 10, 10])],
    )
}

#[test]
fn placement_classification_covers_all_transitions() {
    let classify = |dx, dy, scroll, complete, raster| {
        classify_placement(scalar(dx), scalar(dy), scroll, complete, raster)
    };
    // Exact placement: direct hit regardless of completeness or raster.
    assert!(matches!(
        classify(0.0, 0.0, true, false, true),
        PlacementClass::Direct
    ));
    // Scroll-only change: re-cull, even with raster candidates.
    assert!(matches!(
        classify(0.0, 0.0, false, true, true),
        PlacementClass::ReCull
    ));
    // Position change, complete, vector-only: re-cull.
    assert!(matches!(
        classify(2.5, -1.0, true, true, false),
        PlacementClass::ReCull
    ));
    // Position change with raster candidates: miss.
    assert!(matches!(
        classify(0.0, 1.0, true, true, true),
        PlacementClass::Miss
    ));
    // Incomplete cache: any placement change is a miss.
    assert!(matches!(
        classify(1.0, 0.0, true, false, false),
        PlacementClass::Miss
    ));
    assert!(matches!(
        classify(0.0, 0.0, false, false, false),
        PlacementClass::Miss
    ));
    // A distance that is not a number is a change.
    assert!(matches!(
        classify(f32::NAN, 0.0, true, false, false),
        PlacementClass::Miss
    ));
    assert!(matches!(
        classify(-0.0, 0.0, true, false, true),
        PlacementClass::Direct
    ));
}

#[test]
fn re_cull_keeps_completeness_only_when_every_vector_survives() {
    let (kept, complete) = re_cull([2.0, 2.0, 2.0, 2.0], 1.5, -0.5);
    assert!(complete);
    assert_eq!(kept[0].screen_rect.x, scalar(3.5));
    assert_eq!(kept[0].screen_rect.y, scalar(1.5));

    let (kept, complete) = re_cull([2.0, 2.0, 2.0, 2.0], -10.0, 0.0);
    assert!(kept.is_empty());
    assert!(!complete);
}

#[test]
fn re_cull_keeps_the_order_of_what_stays() {
    let all: Vec<GlyphInstance> = (0..4).map(|i| instance([i as f32; 4])).collect();
    let rects: Vec<Rect> = (0..4).map(|i| rect([10.0 + i as f32; 4])).collect();
    let (kept, complete) =
        re_cull_vector_instances(&all, true, &rects, &vec![true, false, true, true]);
    let xs: Vec<f32> = kept
        .iter()
        .map(|i| f32::from_bits(i.screen_rect.x.bits))
        .collect();
    assert_eq!(xs, vec![10.0, 12.0, 13.0]);
    assert!(!complete);
    let (_, complete) = re_cull_vector_instances(&all, false, &rects, &vec![true; 4]);
    assert!(!complete, "what was incomplete stays so");
}

#[test]
fn bounds_are_clipped_to_the_screen() {
    let resolution = Resolution {
        width: 800,
        height: 600,
    };
    assert_eq!(
        clipped_bounds(TextBounds::default(), resolution),
        [0, 0, 800, 600]
    );
    let inside = TextBounds {
        left: 10,
        top: 20,
        right: 30,
        bottom: 40,
    };
    assert_eq!(clipped_bounds(inside, resolution), [10, 20, 30, 40]);
    let outside = TextBounds {
        left: -5,
        top: 700,
        right: -1,
        bottom: 900,
    };
    assert_eq!(clipped_bounds(outside, resolution), [0, 700, -1, 600]);
    let huge = Resolution {
        width: u32::MAX,
        height: 0x8000_0000,
    };
    assert_eq!(
        clipped_bounds(TextBounds::default(), huge),
        [0, 0, -1, i32::MIN]
    );
}

#[test]
fn the_first_visible_block_of_runs_is_laid_out() {
    let select = |flags: &[bool]| {
        let s = select_runs(&flags.to_vec());
        (s.start, s.end, s.all_included)
    };
    assert_eq!(select(&[]), (0, 0, true));
    assert_eq!(select(&[true, true]), (0, 2, true));
    assert_eq!(select(&[false, true, true, false]), (1, 3, false));
    assert_eq!(select(&[true, false, true]), (0, 1, false));
    assert_eq!(select(&[false, false]), (2, 2, false));
}

#[test]
fn coordinates_are_compared_like_differences() {
    let values = [
        0.0,
        -0.0,
        1.5,
        -1.5,
        1.0e-45,
        f32::MIN_POSITIVE,
        f32::MAX,
        f32::MIN,
        f32::INFINITY,
        f32::NEG_INFINITY,
        f32::NAN,
    ];
    for a in values {
        for b in values {
            assert_eq!(is_same_place(scalar(a), scalar(b)), a - b == 0.0, "{a} {b}");
        }
    }
}
