use sluggrs::scalar::Scalar;
use sluggrs::types::{
    physical_border_width, ColorMode, PrepareError, RenderError, Resolution, TextBorder, TextBounds,
};

fn scalar(v: f32) -> Scalar {
    Scalar::from_bits(v.to_bits())
}

#[test]
fn text_bounds_default_is_unbounded() {
    let bounds = TextBounds::default();
    assert_eq!(bounds.left, i32::MIN);
    assert_eq!(bounds.top, i32::MIN);
    assert_eq!(bounds.right, i32::MAX);
    assert_eq!(bounds.bottom, i32::MAX);
}

#[test]
fn prepare_error_display() {
    let err = PrepareError::AtlasFull;
    let msg = err.message();
    assert!(msg.contains("atlas"), "Display should mention atlas: {msg}");
    assert_eq!(msg, "Prepare error: glyph texture atlas is full");
}

#[test]
fn render_error_display_variants() {
    let msg1 = RenderError::RemovedFromAtlas.message();
    assert!(msg1.contains("atlas"), "Should mention atlas: {msg1}");
    assert_eq!(
        msg1,
        "Render error: prepared atlas data is invalid or unavailable"
    );

    let msg2 = RenderError::ScreenResolutionChanged.message();
    assert!(
        msg2.contains("resolution"),
        "Should mention resolution: {msg2}"
    );
    assert_eq!(
        msg2,
        "Render error: screen resolution changed since last prepare call"
    );
}

#[test]
fn error_types_are_copy() {
    let e1 = PrepareError::AtlasFull;
    let e2 = e1; // Copy
    assert_eq!(e1, e2);

    let r1 = RenderError::RemovedFromAtlas;
    let r2 = r1; // Copy
    assert_eq!(r1, r2);
}

#[test]
fn resolution_equality() {
    let a = Resolution {
        width: 1920,
        height: 1080,
    };
    let b = Resolution {
        width: 1920,
        height: 1080,
    };
    let c = Resolution {
        width: 1280,
        height: 720,
    };
    assert_eq!(a, b);
    assert_ne!(a, c);
}

#[test]
fn color_mode_equality() {
    assert_eq!(ColorMode::Accurate, ColorMode::Accurate);
    assert_ne!(ColorMode::Accurate, ColorMode::Web);
}

/// The product is the caller's: the library takes it as an argument.
fn border_width_of(border: Option<f32>, scale: f32) -> Option<f32> {
    let product = border.map_or(0.0, |width| width * scale);
    let border = border.map(|width| TextBorder {
        color: 0xffff_ffff,
        width: scalar(width),
    });
    physical_border_width(border, scalar(scale), scalar(product)).map(|w| f32::from_bits(w.bits))
}

#[test]
fn physical_border_width_validation() {
    assert_eq!(border_width_of(Some(2.0), 1.5), Some(3.0));
    for width in [f32::NAN, f32::INFINITY, f32::NEG_INFINITY, -1.0, 0.0] {
        assert_eq!(border_width_of(Some(width), 1.0), None);
    }
    assert_eq!(border_width_of(Some(f32::MAX), 2.0), None);
    assert_eq!(border_width_of(Some(-2.0), -3.0), None);
    assert_eq!(border_width_of(None, 1.0), None);
}
