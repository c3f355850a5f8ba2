//! Colour glyphs drawn by commands.

use crate::bytes::{signed, to_signed};
use crate::commands::{draws_numbered, lemma_numbered_fill, lemma_numbered_push};
use crate::font::{
    first_palette, format_of, glyph_format, palette_colors, ColorFormat, PaletteColor,
};
use crate::outline::{GlyphOutline, Rgba};
use crate::scalar::Scalar;
use vstd::prelude::*;

verus! {

/// Opens a group that is drawn on its own.
pub const CMD_PUSH_GROUP: i32 = 1;

/// Fills an outline with one colour.
pub const CMD_DRAW_SOLID: i32 = 2;

/// Fills an outline with a gradient.
pub const CMD_DRAW_GRADIENT: i32 = 3;

/// Closes a group and blends it with what is below.
pub const CMD_POP_GROUP: i32 = 4;

/// One entry of a command sequence: an opcode with its operands, or four
/// numbers that belong to the command before it.
#[derive(Clone, Copy, Debug, PartialEq, Eq, Structural)]
pub struct Command {
    pub opcode: i32,
    pub x: i32,
    pub y: i32,
    pub z: i32,
}

/// An outline that commands refer to.
#[derive(Debug)]
pub struct ColorV1SubGlyph {
    pub outline: GlyphOutline,
    /// Texel of the glyph blob at which this outline begins, once it is placed.
    pub blob_offset: u32,
}

/// A colour glyph as a command sequence.
#[derive(Debug)]
pub struct ColorV1Data {
    pub commands: Vec<Command>,
    /// The outlines, in the order of the commands that first name them.
    pub sub_glyphs: Vec<ColorV1SubGlyph>,
    /// Number of commands.
    pub cmd_count: u32,
}

/// A layer of a colour glyph that is made of solid layers.
#[derive(Clone, Copy, Debug, PartialEq, Eq, Structural)]
pub struct ColorLayer {
    /// The glyph whose outline the layer fills.
    pub glyph_id: u16,
    /// The colour of the layer; all zeros where it takes the colour of the text.
    pub color: Rgba,
    /// Whether the layer takes the colour of the text.
    pub use_foreground: bool,
}

/// A glyph in colour.
#[derive(Debug)]
pub enum ColorGlyphInfo {
    /// Solid layers from the back to the front.
    V0Layers(Vec<ColorLayer>),
    /// Commands and the outlines they draw.
    V1(ColorV1Data),
}

/// The palette index that stands for the colour of the text.
pub const FOREGROUND: u16 = 0xffff;

/// What a palette index stands for.
#[derive(Clone, Copy, Debug, PartialEq, Eq, Structural)]
pub enum PaletteEntry {
    /// The colour of the text.
    Foreground,
    Color(PaletteColor),
    /// The palette has no such colour, or there is no palette.
    Missing,
}

/// What a palette index stands for.
pub open spec fn palette_entry(palette: Option<Seq<PaletteColor>>, index: u16) -> PaletteEntry {
    if index == FOREGROUND {
        PaletteEntry::Foreground
    } else {
        match palette {
            Some(colors) if index < colors.len() => PaletteEntry::Color(colors[index as int]),
            _ => PaletteEntry::Missing,
        }
    }
}

/// The view of a palette that may be missing.
pub open spec fn palette_view(palette: Option<Vec<PaletteColor>>) -> Option<Seq<PaletteColor>> {
    match palette {
        Some(colors) => Some(colors@),
        None => None,
    }
}

/// Looks up a palette index.
pub fn resolve_palette(palette: &Option<Vec<PaletteColor>>, index: u16) -> (r: PaletteEntry)
    ensures
        r == palette_entry(palette_view(*palette), index),
{
    if index == FOREGROUND {
        return PaletteEntry::Foreground;
    }
    match palette {
        Some(colors) => {
            if (index as usize) < colors.len() {
                PaletteEntry::Color(colors[index as usize])
            } else {
                PaletteEntry::Missing
            }
        },
        None => PaletteEntry::Missing,
    }
}

/// Collects the layers of a glyph that is made of solid layers.
#[derive(Debug)]
pub struct ColrV0Collector {
    pub layers: Vec<ColorLayer>,
    pub palette: Option<Vec<PaletteColor>>,
}

/// A solid brush: a palette index and the colour that it gives.
#[derive(Clone, Copy, Debug, PartialEq, Eq, Structural)]
pub struct SolidBrush {
    pub palette_index: u16,
    pub color: Rgba,
}

/// The layer that filling a glyph with a solid brush gives.
pub open spec fn solid_layer(glyph_id: u32, brush: SolidBrush) -> ColorLayer {
    let zero = Scalar { bits: 0 };
    let use_foreground = brush.palette_index == FOREGROUND;
    ColorLayer {
        glyph_id: (glyph_id % 0x1_0000) as u16,
        color: if use_foreground {
            Rgba { r: zero, g: zero, b: zero, a: zero }
        } else {
            brush.color
        },
        use_foreground,
    }
}

impl ColrV0Collector {
    pub fn new(palette: Option<Vec<PaletteColor>>) -> (r: ColrV0Collector)
        ensures
            r.layers@ == Seq::<ColorLayer>::empty(),
            r.palette == palette,
    {
        ColrV0Collector { layers: Vec::new(), palette }
    }

    /// Fills a glyph. Only solid brushes make layers.
    pub fn fill_glyph(&mut self, glyph_id: u32, brush: Option<SolidBrush>)
        ensures
            final(self).palette == old(self).palette,
            final(self).layers@ == match brush {
                Some(b) => old(self).layers@.push(solid_layer(glyph_id, b)),
                None => old(self).layers@,
            },
    {
        if let Some(b) = brush {
            let zero = Scalar::from_bits(0);
            let use_foreground: bool = b.palette_index == FOREGROUND;
            let color = if use_foreground {
                Rgba { r: zero, g: zero, b: zero, a: zero }
            } else {
                b.color
            };
            self.layers.push(
                ColorLayer { glyph_id: (glyph_id % 0x1_0000) as u16, color, use_foreground },
            );
        }
    }

    /// The layers, unless painting failed or there is none.
    pub fn finish(self, painted: bool) -> (r: Option<ColorGlyphInfo>)
        ensures
            match r {
                Some(info) => {
                    &&& painted && self.layers@.len() > 0
                    &&& info == ColorGlyphInfo::V0Layers(self.layers)
                },
                None => !painted || self.layers@.len() == 0,
            },
    {
        if !painted || self.layers.len() == 0 {
            None
        } else {
            Some(ColorGlyphInfo::V0Layers(self.layers))
        }
    }
}

/// An affine transform: x' = xx x + xy y + dx, y' = yx x + yy y + dy.
#[derive(Clone, Copy, Debug, PartialEq, Eq, Structural)]
pub struct AffineTransform {
    pub xx: Scalar,
    pub yx: Scalar,
    pub xy: Scalar,
    pub yy: Scalar,
    pub dx: Scalar,
    pub dy: Scalar,
}

/// The bit pattern of 1.
pub const ONE: u32 = 0x3f80_0000;

impl AffineTransform {
    pub open spec fn unit() -> AffineTransform {
        let one = Scalar { bits: ONE };
        let zero = Scalar { bits: 0 };
        AffineTransform { xx: one, yx: zero, xy: zero, yy: one, dx: zero, dy: zero }
    }

    /// Whether this transform leaves every point where it is.
    pub open spec fn moves_nothing(self) -> bool {
        let unit = AffineTransform::unit();
        &&& self.xx.equal(unit.xx) && self.xy.equal(unit.xy) && self.yx.equal(unit.yx)
        &&& self.yy.equal(unit.yy) && self.dx.equal(unit.dx) && self.dy.equal(unit.dy)
    }

    pub fn identity() -> (r: AffineTransform)
        ensures
            r == AffineTransform::unit(),
    {
        let one = Scalar::from_bits(ONE);
        let zero = Scalar::from_bits(0);
        AffineTransform { xx: one, yx: zero, xy: zero, yy: one, dx: zero, dy: zero }
    }

    pub fn is_identity(&self) -> (r: bool)
        ensures
            r == self.moves_nothing(),
    {
        let unit = AffineTransform::identity();
        self.xx.same(unit.xx) && self.xy.same(unit.xy) && self.yx.same(unit.yx) && self.yy.same(
            unit.yy,
        ) && self.dx.same(unit.dx) && self.dy.same(unit.dy)
    }
}

/// A fixed-point number: the whole part, and the rest in units of 2^-15.
#[derive(Clone, Copy, Debug, PartialEq, Eq, Structural)]
pub struct Fixed {
    pub integer: i32,
    pub fraction: i32,
}

impl Fixed {
    /// The number in units of 2^-15.
    pub open spec fn units(self) -> int {
        self.integer * 0x8000 + self.fraction
    }

    /// The number with this whole part and a rest that may have been rounded up
    /// to a whole. What is rounded up is carried, so that the rest fits sixteen
    /// bits.
    pub fn carried(integer: i32, rest: i32) -> (r: Fixed)
        requires
            0 <= rest <= 0x8000,
            rest == 0x8000 ==> integer < i32::MAX,
        ensures
            r.units() == integer * 0x8000 + rest,
            0 <= r.fraction < 0x8000,
    {
        if rest == 0x8000 {
            Fixed { integer: integer + 1, fraction: 0 }
        } else {
            Fixed { integer, fraction: rest }
        }
    }
}

/// A transform in fixed-point numbers.
#[derive(Clone, Copy, Debug, PartialEq, Eq, Structural)]
pub struct FixedTransform {
    pub xx: Fixed,
    pub yx: Fixed,
    pub xy: Fixed,
    pub yy: Fixed,
    pub dx: Fixed,
    pub dy: Fixed,
}

/// A colour in bytes.
#[derive(Clone, Copy, Debug, PartialEq, Eq, Structural)]
pub struct ByteColor {
    pub r: u8,
    pub g: u8,
    pub b: u8,
    pub a: u8,
}

impl ByteColor {
    /// Red and green in one number.
    pub open spec fn red_green(self) -> i32 {
        (self.r * 0x100 + self.g) as i32
    }

    /// Blue and alpha in one number.
    pub open spec fn blue_alpha(self) -> i32 {
        (self.b * 0x100 + self.a) as i32
    }
}

/// Packs a colour into two numbers: red with green, blue with alpha.
pub fn pack_color_i32(c: ByteColor) -> (r: (i32, i32))
    ensures
        r == (c.red_green(), c.blue_alpha()),
{
    (c.r as i32 * 0x100 + c.g as i32, c.b as i32 * 0x100 + c.a as i32)
}

/// A colour at a place along a gradient.
#[derive(Clone, Copy, Debug, PartialEq, Eq, Structural)]
pub struct GradientStop {
    pub offset: Fixed,
    pub color: ByteColor,
}

/// The geometry of a gradient.
#[derive(Clone, Copy, Debug, PartialEq, Eq, Structural)]
pub enum Gradient {
    Linear { p0x: Fixed, p0y: Fixed, p1x: Fixed, p1y: Fixed },
    Radial { c0x: Fixed, c0y: Fixed, r0: Fixed, c1x: Fixed, c1y: Fixed, r1: Fixed },
    Sweep { cx: Fixed, cy: Fixed, start_angle: Fixed, end_angle: Fixed },
}

/// What an outline is filled with.
#[derive(Debug)]
pub enum Paint {
    Solid(ByteColor),
    /// A gradient with the transform from glyph space to gradient space.
    Gradient { inverse: FixedTransform, gradient: Gradient, stops: Vec<GradientStop> },
}

/// Two fixed-point numbers as an entry of a command sequence.
pub open spec fn fixed_pair(a: Fixed, b: Fixed) -> Command {
    Command { opcode: a.integer, x: a.fraction, y: b.integer, z: b.fraction }
}

/// The entries that hold a transform.
pub open spec fn transform_entries(t: FixedTransform) -> Seq<Command> {
    seq![fixed_pair(t.xx, t.xy), fixed_pair(t.yx, t.yy), fixed_pair(t.dx, t.dy)]
}

/// The number that tells gradients apart.
pub open spec fn gradient_number(g: Gradient) -> i32 {
    match g {
        Gradient::Linear { p0x, p0y, p1x, p1y } => 0,
        Gradient::Radial { c0x, c0y, r0, c1x, c1y, r1 } => 1,
        Gradient::Sweep { cx, cy, start_angle, end_angle } => 2,
    }
}

/// The entries that hold the geometry of a gradient.
pub open spec fn gradient_entries(g: Gradient) -> Seq<Command> {
    match g {
        Gradient::Linear { p0x, p0y, p1x, p1y } => seq![
            fixed_pair(p0x, p0y),
            fixed_pair(p1x, p1y),
        ],
        Gradient::Radial { c0x, c0y, r0, c1x, c1y, r1 } => seq![
            fixed_pair(c0x, c0y),
            fixed_pair(r0, c1x),
            fixed_pair(c1y, r1),
        ],
        Gradient::Sweep { cx, cy, start_angle, end_angle } => seq![
            fixed_pair(cx, cy),
            fixed_pair(start_angle, end_angle),
        ],
    }
}

/// The entry that holds a colour stop.
pub open spec fn stop_entry(stop: GradientStop) -> Command {
    Command {
        opcode: stop.offset.integer,
        x: stop.offset.fraction,
        y: stop.color.red_green(),
        z: stop.color.blue_alpha(),
    }
}

/// The entries that fill outline `index` with a paint.
pub open spec fn paint_entries(index: u32, paint: Paint) -> Seq<Command> {
    match paint {
        Paint::Solid(c) => seq![
            Command {
                opcode: CMD_DRAW_SOLID,
                x: signed(index),
                y: c.red_green(),
                z: c.blue_alpha(),
            },
        ],
        Paint::Gradient { inverse, gradient, stops } => seq![
            Command {
                opcode: CMD_DRAW_GRADIENT,
                x: signed(index),
                y: gradient_number(gradient),
                z: signed((stops.len() as int % 0x1_0000_0000) as u32),
            },
        ] + transform_entries(inverse) + gradient_entries(gradient) + stops@.map_values(
            |s: GradientStop| stop_entry(s),
        ),
    }
}

fn pair(a: Fixed, b: Fixed) -> (r: Command)
    ensures
        r == fixed_pair(a, b),
{
    Command { opcode: a.integer, x: a.fraction, y: b.integer, z: b.fraction }
}

fn low_u32(n: usize) -> (r: u32)
    ensures
        r == n as int % 0x1_0000_0000,
{
    (n as u64 % 0x1_0000_0000) as u32
}

/// Turns the painting of a glyph into a command sequence.
#[derive(Debug)]
pub struct CommandEncoder {
    palette: Option<Vec<PaletteColor>>,
    commands: Vec<Command>,
    sub_glyphs: Vec<ColorV1SubGlyph>,
    transform_stack: Vec<AffineTransform>,
    clip_glyph: Option<u32>,
    composite_mode_stack: Vec<i32>,
}

/// What an encoder holds.
pub struct EncoderState {
    pub palette: Option<Seq<PaletteColor>>,
    pub commands: Seq<Command>,
    pub sub_glyphs: Seq<ColorV1SubGlyph>,
    /// Transforms in effect, the innermost last.
    pub transforms: Seq<AffineTransform>,
    /// The glyph that a fill without a shape fills.
    pub clip: Option<u32>,
    /// Composite modes of the open groups, the innermost last.
    pub modes: Seq<i32>,
}

impl EncoderState {
    pub open spec fn fresh(palette: Option<Seq<PaletteColor>>) -> EncoderState {
        EncoderState {
            palette,
            commands: Seq::empty(),
            sub_glyphs: Seq::empty(),
            transforms: seq![AffineTransform::unit()],
            clip: None,
            modes: Seq::empty(),
        }
    }

    pub open spec fn pushed_transform(self, combined: AffineTransform) -> EncoderState {
        EncoderState { transforms: self.transforms.push(combined), ..self }
    }

    /// The outermost transform stays.
    pub open spec fn popped_transform(self) -> EncoderState {
        if self.transforms.len() > 1 {
            EncoderState { transforms: self.transforms.drop_last(), ..self }
        } else {
            self
        }
    }

    pub open spec fn pushed_layer(self, mode: i32) -> EncoderState {
        EncoderState {
            commands: self.commands.push(
                Command { opcode: CMD_PUSH_GROUP, x: 0, y: 0, z: 0 },
            ),
            modes: self.modes.push(mode),
            ..self
        }
    }

    /// A group closed with `mode`.
    pub open spec fn popped_layer(self, mode: i32) -> EncoderState {
        EncoderState {
            commands: self.commands.push(
                Command { opcode: CMD_POP_GROUP, x: mode, y: 0, z: 0 },
            ),
            modes: if self.modes.len() > 0 {
                self.modes.drop_last()
            } else {
                self.modes
            },
            ..self
        }
    }

    /// The mode that the innermost group was opened with.
    pub open spec fn group_mode(self) -> i32 {
        if self.modes.len() > 0 {
            self.modes.last()
        } else {
            SOURCE_OVER
        }
    }

    /// An outline added and filled.
    pub open spec fn filled(self, outline: GlyphOutline, paint: Paint) -> EncoderState {
        EncoderState {
            commands: self.commands + paint_entries(
                (self.sub_glyphs.len() % 0x1_0000_0000) as u32,
                paint,
            ),
            sub_glyphs: self.sub_glyphs.push(ColorV1SubGlyph { outline, blob_offset: 0 }),
            ..self
        }
    }
}

/// The composite mode of a group that was never opened.
pub const SOURCE_OVER: i32 = 3;

impl View for CommandEncoder {
    type V = EncoderState;

    closed spec fn view(&self) -> EncoderState {
        EncoderState {
            palette: palette_view(self.palette),
            commands: self.commands@,
            sub_glyphs: self.sub_glyphs@,
            transforms: self.transform_stack@,
            clip: self.clip_glyph,
            modes: self.composite_mode_stack@,
        }
    }
}

impl CommandEncoder {
    /// Some transform is always in effect, and the commands draw the outlines
    /// one after the other, each once.
    pub open spec fn wf(&self) -> bool {
        &&& self@.transforms.len() > 0
        &&& draws_numbered(self@.commands, self@.sub_glyphs.len())
    }

    pub fn new(palette: Option<Vec<PaletteColor>>) -> (r: CommandEncoder)
        ensures
            r.wf(),
            r@ == EncoderState::fresh(palette_view(palette)),
    {
        let mut transform_stack: Vec<AffineTransform> = Vec::new();
        transform_stack.push(AffineTransform::identity());
        let r = CommandEncoder {
            palette,
            commands: Vec::new(),
            sub_glyphs: Vec::new(),
            transform_stack,
            clip_glyph: None,
            composite_mode_stack: Vec::new(),
        };
        assert(r@.transforms =~= seq![AffineTransform::unit()]);
        r
    }

    pub fn current_transform(&self) -> (r: AffineTransform)
        requires
            self.wf(),
        ensures
            r == self@.transforms.last(),
    {
        self.transform_stack[self.transform_stack.len() - 1]
    }

    /// Puts a transform into effect: the current one applied after a new one.
    pub fn push_transform(&mut self, combined: AffineTransform)
        requires
            old(self).wf(),
        ensures
            final(self).wf(),
            final(self)@ == old(self)@.pushed_transform(combined),
    {
        self.transform_stack.push(combined);
    }

    pub fn pop_transform(&mut self)
        requires
            old(self).wf(),
        ensures
            final(self).wf(),
            final(self)@ == old(self)@.popped_transform(),
    {
        if self.transform_stack.len() > 1 {
            self.transform_stack.pop();
        }
    }

    pub fn push_clip_glyph(&mut self, glyph_id: u32)
        requires
            old(self).wf(),
        ensures
            final(self).wf(),
            final(self)@ == (EncoderState { clip: Some(glyph_id), ..old(self)@ }),
    {
        self.clip_glyph = Some(glyph_id);
    }

    pub fn pop_clip(&mut self)
        requires
            old(self).wf(),
        ensures
            final(self).wf(),
            final(self)@ == (EncoderState { clip: None, ..old(self)@ }),
    {
        self.clip_glyph = None;
    }

    /// The shape of a fill that names none.
    pub fn clip_glyph(&self) -> (r: Option<u32>)
        ensures
            r == self@.clip,
    {
        self.clip_glyph
    }

    /// What a palette index stands for.
    pub fn resolve_color(&self, palette_index: u16) -> (r: PaletteEntry)
        ensures
            r == palette_entry(self@.palette, palette_index),
    {
        resolve_palette(&self.palette, palette_index)
    }

    /// Opens a group.
    pub fn push_layer(&mut self, mode: i32)
        requires
            old(self).wf(),
        ensures
            final(self).wf(),
            final(self)@ == old(self)@.pushed_layer(mode),
    {
        proof {
            lemma_numbered_push(
                self@.commands,
                self@.sub_glyphs.len(),
                Command { opcode: CMD_PUSH_GROUP, x: 0, y: 0, z: 0 },
            );
        }
        self.commands.push(Command { opcode: CMD_PUSH_GROUP, x: 0, y: 0, z: 0 });
        self.composite_mode_stack.push(mode);
    }

    /// Closes the innermost group with the mode that it was opened with.
    pub fn pop_layer(&mut self)
        requires
            old(self).wf(),
        ensures
            final(self).wf(),
            final(self)@ == old(self)@.popped_layer(old(self)@.group_mode()),
    {
        let mode: i32 = match self.composite_mode_stack.pop() {
            Some(mode) => mode,
            None => SOURCE_OVER,
        };
        proof {
            lemma_numbered_push(
                self@.commands,
                self@.sub_glyphs.len(),
                Command { opcode: CMD_POP_GROUP, x: mode, y: 0, z: 0 },
            );
        }
        self.commands.push(Command { opcode: CMD_POP_GROUP, x: mode, y: 0, z: 0 });
    }

    /// Closes the innermost group with a mode of its own.
    pub fn pop_layer_with_mode(&mut self, mode: i32)
        requires
            old(self).wf(),
        ensures
            final(self).wf(),
            final(self)@ == old(self)@.popped_layer(mode),
    {
        self.composite_mode_stack.pop();
        proof {
            lemma_numbered_push(
                self@.commands,
                self@.sub_glyphs.len(),
                Command { opcode: CMD_POP_GROUP, x: mode, y: 0, z: 0 },
            );
        }
        self.commands.push(Command { opcode: CMD_POP_GROUP, x: mode, y: 0, z: 0 });
    }

    fn emit_draw_solid(&mut self, index: u32, color: ByteColor)
        ensures
            final(self)@ == (EncoderState {
                commands: old(self)@.commands + paint_entries(index, Paint::Solid(color)),
                ..old(self)@
            }),
    {
        let (rg, ba): (i32, i32) = pack_color_i32(color);
        self.commands.push(
            Command { opcode: CMD_DRAW_SOLID, x: to_signed(index), y: rg, z: ba },
        );
        assert(self@.commands =~= old(self)@.commands + paint_entries(index, Paint::Solid(color)));
    }

    fn emit_draw_gradient(
        &mut self,
        index: u32,
        inverse: &FixedTransform,
        gradient: &Gradient,
        stops: &Vec<GradientStop>,
    )
        ensures
            final(self)@ == (EncoderState {
                commands: old(self)@.commands + paint_entries(
                    index,
                    Paint::Gradient { inverse: *inverse, gradient: *gradient, stops: *stops },
                ),
                ..old(self)@
            }),
    {
        let count: i32 = to_signed(low_u32(stops.len()));
        let number: i32 = match gradient {
            Gradient::Linear { p0x, p0y, p1x, p1y } => 0,
            Gradient::Radial { c0x, c0y, r0, c1x, c1y, r1 } => 1,
            Gradient::Sweep { cx, cy, start_angle, end_angle } => 2,
        };
        let header = Command {
            opcode: CMD_DRAW_GRADIENT,
            x: to_signed(index),
            y: number,
            z: count,
        };
        self.commands.push(header);
        self.commands.push(pair(inverse.xx, inverse.xy));
        self.commands.push(pair(inverse.yx, inverse.yy));
        self.commands.push(pair(inverse.dx, inverse.dy));
        assert(self.commands@ =~= old(self).commands@ + (seq![header] + transform_entries(
            *inverse,
        )));
        match gradient {
            Gradient::Linear { p0x, p0y, p1x, p1y } => {
                self.commands.push(pair(*p0x, *p0y));
                self.commands.push(pair(*p1x, *p1y));
            },
            Gradient::Radial { c0x, c0y, r0, c1x, c1y, r1 } => {
                self.commands.push(pair(*c0x, *c0y));
                self.commands.push(pair(*r0, *c1x));
                self.commands.push(pair(*c1y, *r1));
            },
            Gradient::Sweep { cx, cy, start_angle, end_angle } => {
                self.commands.push(pair(*cx, *cy));
                self.commands.push(pair(*start_angle, *end_angle));
            },
        }
        let ghost head = seq![header] + transform_entries(*inverse) + gradient_entries(*gradient);
        assert(self.commands@ =~= old(self).commands@ + head);
        push_stops(&mut self.commands, stops);
        assert(self@.commands =~= old(self)@.commands + paint_entries(
            index,
            Paint::Gradient { inverse: *inverse, gradient: *gradient, stops: *stops },
        ));
    }

    /// Fills a shape. A shape that has no outline is left out. The header of a
    /// gradient counts its colour stops in one signed number.
    pub fn fill(&mut self, outline: Option<GlyphOutline>, paint: &Paint)
        requires
            old(self).wf(),
            *paint matches Paint::Gradient { inverse, gradient, stops } ==> stops.len() <= i32::MAX,
        ensures
            final(self).wf(),
            final(self)@ == match outline {
                Some(shape) => old(self)@.filled(shape, *paint),
                None => old(self)@,
            },
    {
        if let Some(shape) = outline {
            proof {
                lemma_numbered_fill(self@.commands, self@.sub_glyphs.len(), *paint);
            }
            let index: u32 = self.add_sub_glyph(shape);
            match paint {
                Paint::Solid(color) => self.emit_draw_solid(index, *color),
                Paint::Gradient { inverse, gradient, stops } => self.emit_draw_gradient(
                    index,
                    inverse,
                    gradient,
                    stops,
                ),
            }
        }
    }

    /// Adds an outline and gives its index. Where it lies is known once it is
    /// placed.
    fn add_sub_glyph(&mut self, outline: GlyphOutline) -> (r: u32)
        ensures
            r == old(self)@.sub_glyphs.len() % 0x1_0000_0000,
            final(self)@ == (EncoderState {
                sub_glyphs: old(self)@.sub_glyphs.push(
                    ColorV1SubGlyph { outline, blob_offset: 0 },
                ),
                ..old(self)@
            }),
    {
        let index: u32 = low_u32(self.sub_glyphs.len());
        self.sub_glyphs.push(ColorV1SubGlyph { outline, blob_offset: 0 });
        index
    }

    /// The command sequence, unless painting failed or it is empty.
    pub fn finish(self, painted: bool) -> (r: Option<ColorGlyphInfo>)
        ensures
            match r {
                Some(ColorGlyphInfo::V1(data)) => {
                    &&& painted && self@.commands.len() > 0
                    &&& data.commands@ == self@.commands
                    &&& data.sub_glyphs@ == self@.sub_glyphs
                    &&& data.cmd_count == self@.commands.len() % 0x1_0000_0000
                },
                Some(_) => false,
                None => !painted || self@.commands.len() == 0,
            },
    {
        if !painted || self.commands.len() == 0 {
            return None;
        }
        let cmd_count: u32 = low_u32(self.commands.len());
        Some(
            ColorGlyphInfo::V1(
                ColorV1Data { commands: self.commands, sub_glyphs: self.sub_glyphs, cmd_count },
            ),
        )
    }
}

fn push_stops(commands: &mut Vec<Command>, stops: &Vec<GradientStop>)
    ensures
        final(commands)@ == old(commands)@ + stops@.map_values(|s: GradientStop| stop_entry(s)),
{
    let ghost all = stops@.map_values(|s: GradientStop| stop_entry(s));
    let mut i: usize = 0;
    assert(commands@ =~= old(commands)@ + all.take(0));
    while i < stops.len()
        invariant
            i <= stops.len(),
            all == stops@.map_values(|s: GradientStop| stop_entry(s)),
            commands@ == old(commands)@ + all.take(i as int),
        decreases stops.len() - i,
    {
        let stop = stops[i];
        let (rg, ba): (i32, i32) = pack_color_i32(stop.color);
        commands.push(
            Command { opcode: stop.offset.integer, x: stop.offset.fraction, y: rg, z: ba },
        );
        i = i + 1;
        assert(commands@ =~= old(commands)@ + all.take(i as int));
    }
    assert(all.take(all.len() as int) =~= all);
}

/// Closing a transform takes back what opening it did.
pub proof fn lemma_transforms_nest(e: EncoderState, combined: AffineTransform)
    requires
        e.transforms.len() > 0,
    ensures
        e.pushed_transform(combined).popped_transform() == e,
{
    assert(e.pushed_transform(combined).popped_transform().transforms =~= e.transforms);
}

/// A group closes with the mode that it was opened with, and leaves the groups
/// around it as they were.
pub proof fn lemma_groups_nest(e: EncoderState, mode: i32)
    ensures
        e.pushed_layer(mode).group_mode() == mode,
        e.pushed_layer(mode).popped_layer(mode).modes == e.modes,
{
    assert(e.pushed_layer(mode).popped_layer(mode).modes =~= e.modes);
}

/// Collects a colour glyph while it is painted.
#[derive(Debug)]
pub enum ColorCollector {
    Layers(ColrV0Collector),
    Paints(CommandEncoder),
}

/// Begins to collect a colour glyph of a known format.
pub fn begin_collecting(format: Option<ColorFormat>, palette: Option<Vec<PaletteColor>>) -> (r:
    Option<ColorCollector>)
    ensures
        match format {
            None => r is None,
            Some(ColorFormat::Layers) => r matches Some(ColorCollector::Layers(c)) && c.layers@
                == Seq::<ColorLayer>::empty() && c.palette == palette,
            Some(ColorFormat::Paints) => r matches Some(ColorCollector::Paints(e)) && e.wf() && e@
                == EncoderState::fresh(palette_view(palette)),
        },
{
    match format {
        None => None,
        Some(ColorFormat::Layers) => Some(
            ColorCollector::Layers(ColrV0Collector::new(palette)),
        ),
        Some(ColorFormat::Paints) => Some(ColorCollector::Paints(CommandEncoder::new(palette))),
    }
}

/// Begins to collect a glyph of a font in colour, if the font describes it so.
/// Whoever paints the glyph feeds the collector and finishes it.
pub fn begin_color_info(font_data: &[u8], face_index: u32, glyph_id: u16) -> (r: Option<
    ColorCollector,
>)
    ensures
        match glyph_format(font_data@, face_index, glyph_id) {
            None => r is None,
            Some(ColorFormat::Layers) => r matches Some(ColorCollector::Layers(c)) && c.layers@
                == Seq::<ColorLayer>::empty() && palette_view(c.palette) == palette_colors(
                font_data@,
                face_index,
            ),
            Some(ColorFormat::Paints) => r matches Some(ColorCollector::Paints(e)) && e.wf() && e@
                == EncoderState::fresh(palette_colors(font_data@, face_index)),
        },
{
    let format = format_of(font_data, face_index, glyph_id);
    let palette = first_palette(font_data, face_index);
    begin_collecting(format, palette)
}

} // verus!
