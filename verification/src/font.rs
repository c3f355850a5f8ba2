//! What is read from font files, by way of `skrifa`.

use crate::outline::Point;
use crate::pen::{BuilderState, OutlineBuilder, PenCommand, PenState};
use crate::scalar::Scalar;
use skrifa::outline::pen::PathElement;
use skrifa::raw::TableProvider;
use skrifa::MetadataProvider;
use vstd::prelude::*;

verus! {

/// A value for an axis of a variable font.
#[derive(Clone, Copy, Debug, PartialEq, Eq, Structural)]
pub struct VariationSetting {
    /// The tag of the axis, its first letter in the highest byte.
    pub tag: u32,
    pub value: Scalar,
}

/// An entry of a colour palette.
#[derive(Clone, Copy, Debug, PartialEq, Eq, Structural)]
pub struct PaletteColor {
    pub red: u8,
    pub green: u8,
    pub blue: u8,
    pub alpha: u8,
}

/// How a font describes a colour glyph.
#[derive(Clone, Copy, Debug, PartialEq, Eq, Structural)]
pub enum ColorFormat {
    /// Solid layers.
    Layers,
    /// A graph of paints.
    Paints,
}

/// `skrifa::outline::pen::PathElement`: one element of a drawn path.
#[verifier::external_type_specification]
#[verifier::external_body]
pub struct ExPathElement(skrifa::outline::pen::PathElement);

/// What a drawn path holds: for each element the command of the same name, with
/// the bits of the same coordinates.
pub uninterp spec fn path_contents(path: Vec<PathElement>) -> Seq<PenCommand>;

/// The path of a glyph as `skrifa` draws it: unhinted and in font units, at
/// the place in variation space that the settings give. There is none for
/// bytes that are no font, for a face or glyph that the font does not have,
/// and for a glyph that cannot be drawn.
pub uninterp spec fn drawn_path(
    font_data: Seq<u8>,
    face_index: u32,
    glyph_id: u16,
    location: Seq<VariationSetting>,
) -> Option<Seq<PenCommand>>;

/// The glyph that the character map of a font face gives for a character.
pub uninterp spec fn mapped_char(font_data: Seq<u8>, face_index: u32, ch: char) -> Option<u32>;

/// The colours of the first palette of a font face.
pub uninterp spec fn palette_colors(font_data: Seq<u8>, face_index: u32) -> Option<
    Seq<PaletteColor>,
>;

/// How a font face describes a glyph in colour.
pub uninterp spec fn glyph_format(font_data: Seq<u8>, face_index: u32, glyph_id: u16) -> Option<
    ColorFormat,
>;

/// The units per em in the head table of a font face.
pub uninterp spec fn head_units_per_em(font_data: Seq<u8>, face_index: u32) -> Option<u16>;

/// The advance widths in the horizontal metrics of a font face.
pub uninterp spec fn metric_advances(font_data: Seq<u8>, face_index: u32) -> Option<Seq<u16>>;

/// `skrifa::outline::OutlineGlyph::draw` into a `Vec<PathElement>`, which
/// collects the elements in the order in which they are drawn. What the path
/// holds is a function of the font, the face, the glyph and the settings.
#[verifier::external_body]
fn draw_glyph(
    font_data: &[u8],
    face_index: u32,
    glyph_id: u16,
    location: &Vec<VariationSetting>,
) -> (r: Option<Vec<PathElement>>)
    ensures
        match r {
            Some(path) => {
                &&& drawn_path(font_data@, face_index, glyph_id, location@) == Some(
                    path_contents(path),
                )
                &&& path@.len() == path_contents(path).len()
            },
            None => drawn_path(font_data@, face_index, glyph_id, location@) is None,
        },
{
    let font = skrifa::FontRef::from_index(font_data, face_index).ok()?;
    let place = font.axes().location(location.iter().map(|s| {
        let tag = skrifa::Tag::from_u32(s.tag);
        skrifa::setting::VariationSetting::new(tag, bytemuck::cast(s.value.bits))
    }));
    let glyph = font.outline_glyphs().get(skrifa::GlyphId::new(glyph_id.into()))?;
    let size = skrifa::instance::Size::unscaled();
    let settings = skrifa::outline::DrawSettings::unhinted(size, &place);
    let mut path: Vec<PathElement> = Vec::new();
    glyph.draw(settings, &mut path).ok()?;
    Some(path)
}

fn at(x: u32, y: u32) -> (r: Point)
    ensures
        r == (Point { x: Scalar { bits: x }, y: Scalar { bits: y } }),
{
    Point { x: Scalar::from_bits(x), y: Scalar::from_bits(y) }
}

fn cubic(v: [u32; 6]) -> (r: PenCommand)
    ensures
        r == (PenCommand::CurveTo {
            c1: Point { x: Scalar { bits: v[0] }, y: Scalar { bits: v[1] } },
            c2: Point { x: Scalar { bits: v[2] }, y: Scalar { bits: v[3] } },
            to: Point { x: Scalar { bits: v[4] }, y: Scalar { bits: v[5] } },
        }),
{
    PenCommand::CurveTo { c1: at(v[0], v[1]), c2: at(v[2], v[3]), to: at(v[4], v[5]) }
}

/// Element `i` of a drawn path: `skrifa::outline::pen::PathElement` told apart,
/// each variant becoming the command of the same name.
#[verifier::external_body]
fn path_command(path: &Vec<PathElement>, i: usize) -> (r: PenCommand)
    requires
        i < path@.len(),
    ensures
        r == path_contents(*path)[i as int],
{
    match &path[i] {
        PathElement::MoveTo { x, y } => PenCommand::MoveTo { to: at(x.to_bits(), y.to_bits()) },
        PathElement::LineTo { x, y } => PenCommand::LineTo { to: at(x.to_bits(), y.to_bits()) },
        PathElement::QuadTo { cx0, cy0, x, y } => PenCommand::QuadTo {
            c: at(cx0.to_bits(), cy0.to_bits()),
            to: at(x.to_bits(), y.to_bits()),
        },
        PathElement::CurveTo { cx0, cy0, cx1, cy1, x, y } => cubic(
            [cx0, cy0, cx1, cy1, x, y].map(|v| v.to_bits()),
        ),
        PathElement::Close => PenCommand::Close,
    }
}

/// `skrifa::charmap::Charmap::map`: the nominal glyph of a character. It is a
/// function of the font, the face and the character.
#[verifier::external_body]
fn map_char(font_data: &[u8], face_index: u32, ch: char) -> (r: Option<u32>)
    ensures
        r == mapped_char(font_data@, face_index, ch),
{
    let font = skrifa::FontRef::from_index(font_data, face_index).ok()?;
    Some(font.charmap().map(ch)?.to_u32())
}

/// `skrifa::color::ColorPalettes::get` of palette 0, and
/// `skrifa::color::ColorPalette::colors`: the colour records of the palette in
/// their order. They are a function of the font and the face.
#[verifier::external_body]
pub(crate) fn first_palette(font_data: &[u8], face_index: u32) -> (r: Option<Vec<PaletteColor>>)
    ensures
        match r {
            Some(colors) => palette_colors(font_data@, face_index) == Some(colors@),
            None => palette_colors(font_data@, face_index) is None,
        },
{
    let font = skrifa::FontRef::from_index(font_data, face_index).ok()?;
    let palettes = font.color_palettes();
    let palette = palettes.get(0)?;
    let colors = palette.colors().iter().map(|c| PaletteColor {
        red: c.red,
        green: c.green,
        blue: c.blue,
        alpha: c.alpha,
    });
    Some(colors.collect())
}

/// `skrifa::color::ColorGlyphCollection::get` and
/// `skrifa::color::ColorGlyph::format`: whether a glyph is described in colour,
/// and how. It is a function of the font, the face and the glyph.
#[verifier::external_body]
pub(crate) fn format_of(font_data: &[u8], face_index: u32, glyph_id: u16) -> (r: Option<ColorFormat>)
    ensures
        r == glyph_format(font_data@, face_index, glyph_id),
{
    let font = skrifa::FontRef::from_index(font_data, face_index).ok()?;
    let glyph = font.color_glyphs().get(skrifa::GlyphId::new(glyph_id.into()))?;
    match glyph.format() {
        skrifa::color::ColorGlyphFormat::ColrV0 => Some(ColorFormat::Layers),
        skrifa::color::ColorGlyphFormat::ColrV1 => Some(ColorFormat::Paints),
    }
}

/// The path commands of a glyph, in font units. There are none for bytes that
/// are no font, for a face or glyph that the font does not have, and for a
/// glyph that cannot be drawn.
///
/// `face_index` is the index within a font collection, 0 for single fonts;
/// `location` holds the variation settings.
pub fn glyph_path(
    font_data: &[u8],
    face_index: u32,
    glyph_id: u16,
    location: &Vec<VariationSetting>,
) -> (r: Option<Vec<PenCommand>>)
    ensures
        match r {
            Some(commands) => drawn_path(font_data@, face_index, glyph_id, location@) == Some(
                commands@,
            ),
            None => drawn_path(font_data@, face_index, glyph_id, location@) is None,
        },
{
    match draw_glyph(font_data, face_index, glyph_id, location) {
        None => None,
        Some(path) => {
            let ghost all = path_contents(path);
            let mut commands: Vec<PenCommand> = Vec::new();
            let mut i: usize = 0;
            while i < path.len()
                invariant
                    i <= path.len(),
                    all == path_contents(path),
                    all.len() == path.len(),
                    commands@ == all.take(i as int),
                decreases path.len() - i,
            {
                commands.push(path_command(&path, i));
                i = i + 1;
                assert(commands@ =~= all.take(i as int));
            }
            assert(commands@ =~= all);
            Some(commands)
        },
    }
}

/// The low sixteen bits of a mapped glyph, which is what glyph ids hold.
pub fn narrow_glyph_id(mapped: Option<u32>) -> (r: Option<u16>)
    ensures
        r == match mapped {
            Some(id) => Some((id % 0x1_0000) as u16),
            None => None,
        },
{
    match mapped {
        Some(id) => Some((id % 0x1_0000) as u16),
        None => None,
    }
}

/// Maps a character to a glyph id by the character map of a font.
pub fn char_to_glyph_id(font_data: &[u8], face_index: u32, ch: char) -> (r: Option<u16>)
    ensures
        r == match mapped_char(font_data@, face_index, ch) {
            Some(id) => Some((id % 0x1_0000) as u16),
            None => None,
        },
{
    narrow_glyph_id(map_char(font_data, face_index, ch))
}

/// `skrifa::raw::tables::head::Head::units_per_em`. It is a function of the
/// font and the face.
#[verifier::external_body]
fn read_units_per_em(font_data: &[u8], face_index: u32) -> (r: Option<u16>)
    ensures
        r == head_units_per_em(font_data@, face_index),
{
    let font = skrifa::FontRef::from_index(font_data, face_index).ok()?;
    Some(font.head().ok()?.units_per_em())
}

/// `skrifa::raw::tables::hmtx::Hmtx::h_metrics`: the advance of each record, in
/// their order. They are a function of the font and the face.
#[verifier::external_body]
fn read_advances(font_data: &[u8], face_index: u32) -> (r: Option<Vec<u16>>)
    ensures
        match r {
            Some(advances) => metric_advances(font_data@, face_index) == Some(advances@),
            None => metric_advances(font_data@, face_index) is None,
        },
{
    let font = skrifa::FontRef::from_index(font_data, face_index).ok()?;
    let metrics = font.hmtx().ok()?;
    Some(metrics.h_metrics().iter().map(|m| m.advance()).collect())
}

/// Font units per em of a font face, if its head table can be read.
pub fn units_per_em(font_data: &[u8], face_index: u32) -> (r: Option<u16>)
    ensures
        r == head_units_per_em(font_data@, face_index),
{
    read_units_per_em(font_data, face_index)
}

/// The advance of a glyph: its own record, or the last one, which stands for
/// all glyphs behind it.
pub open spec fn advance_in(advances: Seq<u16>, glyph_id: u16) -> Option<u16> {
    if glyph_id < advances.len() {
        Some(advances[glyph_id as int])
    } else if advances.len() > 0 {
        Some(advances.last())
    } else {
        None
    }
}

/// Looks up the advance of a glyph.
pub fn advance_of(advances: &Vec<u16>, glyph_id: u16) -> (r: Option<u16>)
    ensures
        r == advance_in(advances@, glyph_id),
{
    if (glyph_id as usize) < advances.len() {
        Some(advances[glyph_id as usize])
    } else if advances.len() > 0 {
        Some(advances[advances.len() - 1])
    } else {
        None
    }
}

/// The advance widths of a font face, if its horizontal metrics can be read.
pub fn advance_widths(font_data: &[u8], face_index: u32) -> (r: Option<Vec<u16>>)
    ensures
        match r {
            Some(advances) => metric_advances(font_data@, face_index) == Some(advances@),
            None => metric_advances(font_data@, face_index) is None,
        },
{
    read_advances(font_data, face_index)
}

/// The builder of a path at its first question.
pub open spec fn path_begun(commands: Seq<PenCommand>) -> BuilderState {
    (BuilderState { commands, at: 0, pen: PenState::fresh(), pending: Seq::empty() }).settled()
}

/// Begins to extract the outline of a glyph, in font units. Whoever answers
/// the questions of the builder gets the outline from it in the end.
pub fn begin_outline(
    font_data: &[u8],
    face_index: u32,
    glyph_id: u16,
    location: &Vec<VariationSetting>,
) -> (r: Option<OutlineBuilder>)
    ensures
        match drawn_path(font_data@, face_index, glyph_id, location@) {
            Some(commands) => r matches Some(builder) && builder.wf() && builder@ == path_begun(
                commands,
            ),
            None => r is None,
        },
{
    match glyph_path(font_data, face_index, glyph_id, location) {
        Some(commands) => Some(OutlineBuilder::new(commands)),
        None => None,
    }
}

} // verus!
