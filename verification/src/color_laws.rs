//! What the painting of a colour glyph becomes, number by number, and how it is
//! read.

use crate::colr::{
    paint_entries, palette_entry, palette_view, solid_layer, AffineTransform, ByteColor, Command,
    EncoderState, Fixed, FixedTransform, Gradient, GradientStop, Paint, PaletteEntry, SolidBrush,
};
use crate::commands::{is_draw, is_header, lemma_payload_passed, payload_len};
use crate::font::PaletteColor;
use crate::number_laws::{lemma_exponent_doubles, lemma_small_bits_are_units};
use crate::outline::GlyphOutline;
use crate::scalar::{lemma_order_is_value_order, Scalar};
use vstd::arithmetic::power2::{lemma2_to64, lemma_pow2_unfold, pow2};
use vstd::prelude::*;

verus! {

/// All four bytes of a colour are read back from the two numbers that it is
/// packed into, so that colours that differ are packed differently.
pub proof fn lemma_color_is_read_back(c: ByteColor, d: ByteColor)
    ensures
        0 <= c.red_green() < 0x1_0000,
        0 <= c.blue_alpha() < 0x1_0000,
        c.red_green() / 256 == c.r,
        c.red_green() % 256 == c.g,
        c.blue_alpha() / 256 == c.b,
        c.blue_alpha() % 256 == c.a,
        c.red_green() == d.red_green() && c.blue_alpha() == d.blue_alpha() ==> c == d,
{
    let r = c.r as int;
    let g = c.g as int;
    let b = c.b as int;
    let a = c.a as int;
    assert((r * 0x100 + g) / 256 == r && (r * 0x100 + g) % 256 == g);
    assert((b * 0x100 + a) / 256 == b && (b * 0x100 + a) % 256 == a);
    let s = d.r as int;
    let h = d.g as int;
    let e = d.b as int;
    let f = d.a as int;
    assert((s * 0x100 + h) / 256 == s && (s * 0x100 + h) % 256 == h);
    assert((e * 0x100 + f) / 256 == e && (e * 0x100 + f) % 256 == f);
}

/// Whether the last two numbers of an entry are a colour.
pub open spec fn holds_color(e: Command, c: ByteColor) -> bool {
    &&& e.y as int / 256 == c.r
    &&& e.y as int % 256 == c.g
    &&& e.z as int / 256 == c.b
    &&& e.z as int % 256 == c.a
}

/// A solid fill is one command: it says that it is one, which outline it fills,
/// and with what colour.
pub proof fn lemma_solid_fill(index: u32, c: ByteColor)
    ensures
        ({
            let e = paint_entries(index, Paint::Solid(c));
            &&& e.len() == 1
            &&& e[0].opcode == 2
            &&& (e[0].x - index) % 0x1_0000_0000 == 0
            &&& index <= i32::MAX ==> e[0].x == index
            &&& holds_color(e[0], c)
        }),
{
    lemma_color_is_read_back(c, c);
}

/// Whether the first two numbers of an entry are a fixed-point number.
pub open spec fn first_fixed(e: Command, f: Fixed) -> bool {
    e.opcode == f.integer && e.x == f.fraction
}

/// Whether the last two numbers of an entry are a fixed-point number.
pub open spec fn second_fixed(e: Command, f: Fixed) -> bool {
    e.y == f.integer && e.z == f.fraction
}

/// A gradient fill is a command with its entries. The command says that it is
/// one, which outline it fills, what kind of gradient it is and how many colour
/// stops it has. Behind it come the transform, row by row and then its shift,
/// the geometry, and the stops in their order.
pub proof fn lemma_gradient_fill(
    index: u32,
    inverse: FixedTransform,
    gradient: Gradient,
    stops: Vec<GradientStop>,
    j: int,
)
    requires
        stops.len() <= i32::MAX,
    ensures
        ({
            let e = paint_entries(index, Paint::Gradient { inverse, gradient, stops });
            &&& e[0].opcode == 3
            &&& (e[0].x - index) % 0x1_0000_0000 == 0
            &&& index <= i32::MAX ==> e[0].x == index
            &&& e[0].z == stops.len()
            &&& first_fixed(e[1], inverse.xx) && second_fixed(e[1], inverse.xy)
            &&& first_fixed(e[2], inverse.yx) && second_fixed(e[2], inverse.yy)
            &&& first_fixed(e[3], inverse.dx) && second_fixed(e[3], inverse.dy)
            &&& match gradient {
                Gradient::Linear { p0x, p0y, p1x, p1y } => {
                    &&& e[0].y == 0
                    &&& first_fixed(e[4], p0x) && second_fixed(e[4], p0y)
                    &&& first_fixed(e[5], p1x) && second_fixed(e[5], p1y)
                    &&& e.len() == 6 + stops.len()
                    &&& 0 <= j < stops.len() ==> first_fixed(e[6 + j], stops@[j].offset)
                        && holds_color(e[6 + j], stops@[j].color)
                },
                Gradient::Radial { c0x, c0y, r0, c1x, c1y, r1 } => {
                    &&& e[0].y == 1
                    &&& first_fixed(e[4], c0x) && second_fixed(e[4], c0y)
                    &&& first_fixed(e[5], r0) && second_fixed(e[5], c1x)
                    &&& first_fixed(e[6], c1y) && second_fixed(e[6], r1)
                    &&& e.len() == 7 + stops.len()
                    &&& 0 <= j < stops.len() ==> first_fixed(e[7 + j], stops@[j].offset)
                        && holds_color(e[7 + j], stops@[j].color)
                },
                Gradient::Sweep { cx, cy, start_angle, end_angle } => {
                    &&& e[0].y == 2
                    &&& first_fixed(e[4], cx) && second_fixed(e[4], cy)
                    &&& first_fixed(e[5], start_angle) && second_fixed(e[5], end_angle)
                    &&& e.len() == 6 + stops.len()
                    &&& 0 <= j < stops.len() ==> first_fixed(e[6 + j], stops@[j].offset)
                        && holds_color(e[6 + j], stops@[j].color)
                },
            }
        }),
{
    lemma_color_is_read_back(stops@[j].color, stops@[j].color);
    assert(stops@.len() == stops.len());
}

/// Filling an outline takes it in behind the others, and adds the entries of
/// the fill behind the commands before, with the number of the outline.
pub proof fn lemma_fill_takes_outline_in(e: EncoderState, outline: GlyphOutline, paint: Paint)
    ensures
        ({
            let w = e.filled(outline, paint);
            let n = e.commands.len();
            let k = e.sub_glyphs.len();
            let index = (k % 0x1_0000_0000) as u32;
            &&& w.sub_glyphs.len() == k + 1
            &&& w.sub_glyphs.last().outline == outline
            &&& forall|i: int| 0 <= i < k ==> #[trigger] w.sub_glyphs[i] == e.sub_glyphs[i]
            &&& forall|i: int| 0 <= i < n ==> #[trigger] w.commands[i] == e.commands[i]
            &&& w.commands.len() == n + paint_entries(index, paint).len()
            &&& w.commands.skip(n as int) == paint_entries(index, paint)
            &&& w.transforms == e.transforms && w.modes == e.modes && w.clip == e.clip
            &&& w.palette == e.palette
        }),
{
    let w = e.filled(outline, paint);
    let index = (e.sub_glyphs.len() % 0x1_0000_0000) as u32;
    assert(w.commands.skip(e.commands.len() as int) =~= paint_entries(index, paint));
}

/// Opening a group adds one command that says so and notes the mode. Closing one
/// adds one command that says so with a mode, and forgets what was noted last. A
/// group that was never opened closes with source-over.
pub proof fn lemma_groups_become_commands(e: EncoderState, mode: i32)
    ensures
        ({
            let w = e.pushed_layer(mode);
            let n = e.commands.len();
            &&& w.commands.len() == n + 1
            &&& forall|i: int| 0 <= i < n ==> #[trigger] w.commands[i] == e.commands[i]
            &&& w.commands.last().opcode == 1
            &&& w.modes.len() == e.modes.len() + 1
            &&& w.modes.last() == mode
            &&& w.group_mode() == mode
            &&& w.sub_glyphs == e.sub_glyphs && w.transforms == e.transforms && w.clip == e.clip
        }),
        ({
            let w = e.popped_layer(mode);
            let n = e.commands.len();
            &&& w.commands.len() == n + 1
            &&& forall|i: int| 0 <= i < n ==> #[trigger] w.commands[i] == e.commands[i]
            &&& w.commands.last().opcode == 4
            &&& w.commands.last().x == mode
            &&& e.modes.len() > 0 ==> w.modes.len() == e.modes.len() - 1
            &&& forall|i: int| 0 <= i < w.modes.len() ==> #[trigger] w.modes[i] == e.modes[i]
            &&& w.sub_glyphs == e.sub_glyphs && w.transforms == e.transforms && w.clip == e.clip
        }),
        e.modes.len() == 0 ==> e.group_mode() == 3,
        e.modes.len() > 0 ==> e.group_mode() == e.modes[e.modes.len() - 1],
{
}

/// A transform that is put into effect is in effect; one that is taken back
/// leaves the one before it in effect, and the outermost is never taken back.
/// Neither draws anything.
pub proof fn lemma_transforms_take_effect(e: EncoderState, combined: AffineTransform)
    requires
        e.transforms.len() > 0,
    ensures
        e.pushed_transform(combined).transforms.last() == combined,
        e.pushed_transform(combined).transforms.len() == e.transforms.len() + 1,
        e.pushed_transform(combined).commands == e.commands,
        e.pushed_transform(combined).sub_glyphs == e.sub_glyphs,
        e.popped_transform().commands == e.commands,
        e.popped_transform().sub_glyphs == e.sub_glyphs,
        e.transforms.len() > 1 ==> e.popped_transform().transforms.len() == e.transforms.len() - 1
            && e.popped_transform().transforms.last() == e.transforms[e.transforms.len() - 2],
        e.transforms.len() == 1 ==> e.popped_transform() == e,
{
}

/// An encoder begins with nothing drawn and the identity in effect.
pub proof fn lemma_encoder_begins(palette: Option<Seq<PaletteColor>>)
    ensures
        ({
            let e = EncoderState::fresh(palette);
            &&& e.palette == palette
            &&& e.commands.len() == 0
            &&& e.sub_glyphs.len() == 0
            &&& e.modes.len() == 0
            &&& e.clip is None
            &&& e.transforms.len() == 1
            &&& e.transforms[0].moves_nothing()
        }),
{
}

/// The number one in units of the smallest number.
proof fn lemma_one_is_worth()
    ensures
        (Scalar { bits: 0x3f80_0000 }).value() == pow2(149),
{
    lemma_power_is_worth(127);
}

proof fn lemma_power_is_worth(e: nat)
    requires
        1 <= e <= 200,
    ensures
        (Scalar { bits: (e * 0x80_0000) as u32 }).value() == pow2((e + 22) as nat),
    decreases e,
{
    let v = Scalar { bits: (e * 0x80_0000) as u32 };
    if e == 1 {
        lemma_small_bits_are_units(v);
        lemma2_to64();
        assert(pow2(23) == 0x80_0000);
    } else {
        let w = Scalar { bits: ((e - 1) * 0x80_0000) as u32 };
        lemma_power_is_worth((e - 1) as nat);
        lemma_exponent_doubles(w, v);
        lemma_pow2_unfold((e + 22) as nat);
    }
}

/// Whether a number is worth one.
pub open spec fn worth_one(v: Scalar) -> bool {
    v.finite() && v.value() == pow2(149)
}

/// Whether a number is worth nothing.
pub open spec fn worth_nothing(v: Scalar) -> bool {
    v.finite() && v.value() == 0
}

/// A transform leaves every point where it is exactly when it is worth one on
/// its diagonal and nothing elsewhere.
pub proof fn lemma_identity_by_value(t: AffineTransform)
    ensures
        t.moves_nothing() <==> worth_one(t.xx) && worth_one(t.yy) && worth_nothing(t.xy)
            && worth_nothing(t.yx) && worth_nothing(t.dx) && worth_nothing(t.dy),
        AffineTransform::unit().moves_nothing(),
{
    let one = Scalar { bits: 0x3f80_0000 };
    let zero = Scalar { bits: 0 };
    lemma_one_is_worth();
    lemma_small_bits_are_units(zero);
    lemma_compared(t.xx, one);
    lemma_compared(t.yy, one);
    lemma_compared(t.xy, zero);
    lemma_compared(t.yx, zero);
    lemma_compared(t.dx, zero);
    lemma_compared(t.dy, zero);
}

proof fn lemma_compared(v: Scalar, w: Scalar)
    requires
        w.finite(),
    ensures
        v.equal(w) <==> v.finite() && v.value() == w.value(),
{
    if v.finite() {
        lemma_order_is_value_order(v, w);
    }
}

/// A palette index stands for the colour of the text if it is the greatest there
/// is, for its entry if there is one, and otherwise for nothing.
pub proof fn lemma_palette_lookup(palette: Option<Seq<PaletteColor>>, index: u16)
    ensures
        palette_entry(palette, index) is Foreground <==> index == 65535,
        match palette_entry(palette, index) {
            PaletteEntry::Foreground => true,
            PaletteEntry::Color(c) => palette is Some && index < palette->0.len() && c
                == palette->0[index as int],
            PaletteEntry::Missing => palette is None || index >= palette->0.len(),
        },
{
}

/// A solid fill of a layered glyph is a layer of the glyph that is filled, in the
/// colour of the brush, or in that of the text.
pub proof fn lemma_layer_of_fill(glyph_id: u32, brush: SolidBrush)
    ensures
        ({
            let layer = solid_layer(glyph_id, brush);
            &&& layer.use_foreground <==> brush.palette_index == 65535
            &&& brush.palette_index != 65535 ==> layer.color == brush.color
            &&& brush.palette_index == 65535 ==> layer.color.r.bits == 0 && layer.color.g.bits == 0
                && layer.color.b.bits == 0 && layer.color.a.bits == 0
            &&& glyph_id < 0x1_0000 ==> layer.glyph_id == glyph_id
            &&& (glyph_id - layer.glyph_id) % 0x1_0000 == 0
        }),
{
}

/// A fixed-point number counts its whole part in units of 2^-15 along with its
/// rest, and with a rest below one it is told by its units.
pub proof fn lemma_fixed_units(a: Fixed, b: Fixed)
    ensures
        a.integer == b.integer ==> a.units() - b.units() == a.fraction - b.fraction,
        a.fraction == b.fraction ==> a.units() - b.units() == 0x8000 * (a.integer - b.integer),
        a.integer == 0 ==> a.units() == a.fraction,
        a.units() == b.units() && 0 <= a.fraction < 0x8000 && 0 <= b.fraction < 0x8000 ==> a == b,
{
}

/// How many entries belong to a command: none, except to a gradient, which has
/// three for its transform, two for its geometry, three if it is radial, and one
/// for each colour stop.
pub proof fn lemma_entries_of_command(header: Command)
    ensures
        header.opcode != 3 ==> payload_len(header) == 0,
        header.opcode == 3 && header.z >= 0 ==> payload_len(header) == (if header.y == 1 {
            6int
        } else {
            5
        }) + header.z,
        header.opcode == 3 && header.z < 0 ==> payload_len(header) == payload_len(
            Command { z: 0, ..header },
        ),
{
}

/// What belongs to a command is no command, whatever it looks like, and behind
/// it comes the next command.
pub proof fn lemma_entries_are_no_commands(commands: Seq<Command>, n: nat, k: nat)
    requires
        is_header(commands, n as int),
        commands[n as int].z >= 0,
        commands[n as int].opcode == 3,
    ensures
        ({
            let all = if commands[n as int].y == 1 {
                6 + commands[n as int].z
            } else {
                5 + commands[n as int].z
            };
            &&& 1 <= k <= all ==> !is_header(commands, (n + k) as int) && !is_draw(
                commands,
                (n + k) as int,
            )
            &&& is_header(commands, n + all + 1)
        }),
{
    let all = payload_len(commands[n as int]);
    if 1 <= k <= all {
        lemma_payload_passed(commands, n, (k - 1) as nat);
    }
    lemma_payload_passed(commands, n, all as nat);
}

/// A command without entries is followed by a command, and a sequence begins
/// with one. A command draws an outline exactly when it is a solid or a gradient
/// fill.
pub proof fn lemma_commands_follow(commands: Seq<Command>, n: nat)
    ensures
        is_header(commands, 0),
        is_header(commands, n as int) && commands[n as int].opcode != 3 ==> is_header(
            commands,
            (n + 1) as int,
        ),
        is_draw(commands, n as int) <==> is_header(commands, n as int) && (
        commands[n as int].opcode == 2 || commands[n as int].opcode == 3),
{
}

/// A palette is looked up as it is, and none as none.
pub proof fn lemma_palette_as_it_is(colors: Vec<PaletteColor>)
    ensures
        palette_view(Some(colors)) == Some(colors@),
        palette_view(None) is None,
{
}

} // verus!
