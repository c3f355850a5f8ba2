//! Types of the public interface.

use crate::scalar::Scalar;
use vstd::prelude::*;

verus! {

/// The screen resolution to use when rendering text.
#[derive(Clone, Copy, Debug, PartialEq, Eq, Structural)]
pub struct Resolution {
    pub width: u32,
    pub height: u32,
}

/// Controls the visible area of the text. Text outside of it is clipped.
#[derive(Clone, Copy, Debug, PartialEq, Eq, Structural)]
pub struct TextBounds {
    pub left: i32,
    pub top: i32,
    pub right: i32,
    pub bottom: i32,
}

impl Default for TextBounds {
    fn default() -> (r: TextBounds)
        ensures
            r.left == i32::MIN,
            r.top == i32::MIN,
            r.right == i32::MAX,
            r.bottom == i32::MAX,
    {
        TextBounds { left: i32::MIN, top: i32::MIN, right: i32::MAX, bottom: i32::MAX }
    }
}

/// A solid outline drawn underneath monochrome vector glyphs. Colour glyphs
/// and raster fallback glyphs have none.
#[derive(Clone, Copy, Debug, PartialEq, Eq, Structural)]
pub struct TextBorder {
    /// Packed colour: alpha, red, green, blue from the highest byte down.
    pub color: u32,
    /// Width in logical pixels. Widths that are not finite, zero or negative
    /// are ignored.
    pub width: Scalar,
}

/// A text area: where a text buffer is to be drawn, and how.
#[derive(Clone, Copy, Debug, PartialEq, Eq, Structural)]
pub struct TextArea {
    /// A number that stands for the text buffer.
    pub buffer: u64,
    /// Whether the buffer changed since it was last drawn.
    pub redraw: bool,
    pub left: Scalar,
    pub top: Scalar,
    pub scale: Scalar,
    pub bounds: TextBounds,
    /// Packed colour of glyphs that have none of their own.
    pub default_color: u32,
    pub border: Option<TextBorder>,
}

/// Whether a number is finite and above zero.
pub open spec fn usable(v: Scalar) -> bool {
    v.finite() && v.order() > 0
}

fn is_usable(v: Scalar) -> (r: bool)
    ensures
        r == usable(v),
{
    v.is_finite() && v.is_positive()
}

/// The border width in physical pixels: `product`, which is the logical width
/// times the scale, where the logical width, the scale and the product are
/// all finite and above zero.
pub open spec fn border_width(border: Option<TextBorder>, scale: Scalar, product: Scalar) -> Option<
    Scalar,
> {
    match border {
        Some(b) if usable(b.width) && usable(scale) && usable(product) => Some(product),
        _ => None,
    }
}

/// Validates a border width in physical pixels. `product` is the logical
/// width times the scale.
pub fn physical_border_width(
    border: Option<TextBorder>,
    scale: Scalar,
    product: Scalar,
) -> (r: Option<Scalar>)
    ensures
        r == border_width(border, scale, product),
{
    match border {
        Some(b) => {
            if is_usable(b.width) && is_usable(scale) && is_usable(product) {
                Some(product)
            } else {
                None
            }
        },
        None => None,
    }
}

impl TextArea {
    /// The validated border width of this area; `product` is the logical
    /// width of its border times its scale.
    pub fn physical_border_width(&self, product: Scalar) -> (r: Option<Scalar>)
        ensures
            r == border_width(self.border, self.scale, product),
    {
        physical_border_width(self.border, self.scale, product)
    }
}

/// The color mode of the text atlas.
#[derive(Clone, Copy, Debug, PartialEq, Eq, Structural)]
pub enum ColorMode {
    /// Accurate color management (sRGB texture for colored glyphs).
    Accurate,
    /// Web color management (linear RGB texture with sRGB colors).
    Web,
}

/// An error that occurred while preparing text for rendering.
#[derive(Clone, Copy, Debug, PartialEq, Eq, Structural)]
pub enum PrepareError {
    AtlasFull,
}

impl PrepareError {
    /// A description for people.
    pub fn message(&self) -> (r: String)
        ensures
            r@ == "Prepare error: glyph texture atlas is full"@,
    {
        "Prepare error: glyph texture atlas is full".to_string()
    }
}

/// An error that occurred while rendering text.
///
/// Rendering gives `RemovedFromAtlas` when the identity or the generation of
/// the prepared atlas no longer matches the atlas that is drawn from.
#[derive(Clone, Copy, Debug, PartialEq, Eq, Structural)]
pub enum RenderError {
    RemovedFromAtlas,
    ScreenResolutionChanged,
}

impl RenderError {
    /// A description for people.
    pub fn message(&self) -> (r: String)
        ensures
            r@ == match self {
                RenderError::RemovedFromAtlas =>
                    "Render error: prepared atlas data is invalid or unavailable"@,
                RenderError::ScreenResolutionChanged =>
                    "Render error: screen resolution changed since last prepare call"@,
            },
    {
        match self {
            RenderError::RemovedFromAtlas =>
                "Render error: prepared atlas data is invalid or unavailable".to_string(),
            RenderError::ScreenResolutionChanged =>
                "Render error: screen resolution changed since last prepare call".to_string(),
        }
    }
}

} // verus!
