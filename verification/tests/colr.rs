use sluggrs::colr::{
    pack_color_i32, resolve_palette, AffineTransform, ByteColor, ColorGlyphInfo, ColorV1Data,
    ColrV0Collector, Command, CommandEncoder, Fixed, FixedTransform, Gradient, GradientStop,
    Paint, PaletteEntry, SolidBrush, CMD_DRAW_GRADIENT, CMD_DRAW_SOLID, CMD_POP_GROUP,
    CMD_PUSH_GROUP,
};
use sluggrs::font::PaletteColor;
use sluggrs::outline::{Bounds, GlyphOutline, Rgba};
use sluggrs::scalar::Scalar;

fn scalar(v: f32) -> Scalar {
    Scalar::from_bits(v.to_bits())
}

fn rgba(v: [f32; 4]) -> Rgba {
    Rgba {
        r: scalar(v[0]),
        g: scalar(v[1]),
        b: scalar(v[2]),
        a: scalar(v[3]),
    }
}

fn empty_outline() -> GlyphOutline {
    GlyphOutline {
        curves: Vec::new(),
        bounds: Bounds::empty(),
    }
}

fn fixed(integer: i32) -> Fixed {
    Fixed {
        integer,
        fraction: -integer,
    }
}

fn command(opcode: i32, x: i32, y: i32, z: i32) -> Command {
    Command { opcode, x, y, z }
}

fn finish(encoder: CommandEncoder) -> ColorV1Data {
    match encoder.finish(true) {
        Some(ColorGlyphInfo::V1(data)) => data,
        _ => panic!("expected commands"),
    }
}

const COLOR: ByteColor = ByteColor {
    r: 1,
    g: 2,
    b: 3,
    a: 255,
};

#[test]
fn palette_indices_are_resolved() {
    let color = PaletteColor {
        red: 1,
        green: 2,
        blue: 3,
        alpha: 4,
    };
    let palette = Some(vec![color]);
    assert_eq!(resolve_palette(&palette, 0), PaletteEntry::Color(color));
    assert_eq!(resolve_palette(&palette, 1), PaletteEntry::Missing);
    assert_eq!(resolve_palette(&None, 0), PaletteEntry::Missing);
    assert_eq!(resolve_palette(&palette, 0xffff), PaletteEntry::Foreground);
    assert_eq!(resolve_palette(&None, 0xffff), PaletteEntry::Foreground);
}

#[test]
fn solid_fills_become_layers() {
    let mut collector = ColrV0Collector::new(None);
    collector.fill_glyph(
        7,
        Some(SolidBrush {
            palette_index: 3,
            color: rgba([0.1, 0.2, 0.3, 0.4]),
        }),
    );
    collector.fill_glyph(8, None);
    collector.fill_glyph(
        0x1_0009,
        Some(SolidBrush {
            palette_index: 0xffff,
            color: rgba([0.1, 0.2, 0.3, 0.4]),
        }),
    );
    assert_eq!(collector.layers.len(), 2);
    assert_eq!(collector.layers[0].glyph_id, 7);
    assert_eq!(collector.layers[0].color, rgba([0.1, 0.2, 0.3, 0.4]));
    assert!(!collector.layers[0].use_foreground);
    assert_eq!(collector.layers[1].glyph_id, 9);
    assert_eq!(collector.layers[1].color, rgba([0.0; 4]));
    assert!(collector.layers[1].use_foreground);
    match collector.finish(true) {
        Some(ColorGlyphInfo::V0Layers(layers)) => assert_eq!(layers.len(), 2),
        _ => panic!("expected layers"),
    }
    assert!(ColrV0Collector::new(None).finish(true).is_none());
}

#[test]
fn failed_painting_gives_nothing() {
    let mut collector = ColrV0Collector::new(None);
    collector.fill_glyph(
        7,
        Some(SolidBrush {
            palette_index: 3,
            color: rgba([1.0; 4]),
        }),
    );
    assert!(collector.finish(false).is_none());
    let mut encoder = CommandEncoder::new(None);
    encoder.push_layer(3);
    assert!(encoder.finish(false).is_none());
    assert!(CommandEncoder::new(None).finish(true).is_none());
}

#[test]
fn transforms_nest_and_the_outermost_stays() {
    let mut encoder = CommandEncoder::new(None);
    assert!(encoder.current_transform().is_identity());
    encoder.pop_transform();
    assert!(encoder.current_transform().is_identity());
    let mut shifted = AffineTransform::identity();
    shifted.dx = scalar(5.0);
    assert!(!shifted.is_identity());
    encoder.push_transform(shifted);
    assert_eq!(encoder.current_transform(), shifted);
    encoder.pop_transform();
    assert_eq!(encoder.current_transform(), AffineTransform::identity());
    let mut negative_zero = AffineTransform::identity();
    negative_zero.xy = scalar(-0.0);
    assert!(negative_zero.is_identity());
}

#[test]
fn groups_close_with_their_mode() {
    let mut encoder = CommandEncoder::new(None);
    encoder.push_layer(7);
    encoder.push_layer(9);
    encoder.pop_layer();
    encoder.pop_layer_with_mode(11);
    encoder.pop_layer();
    let data = finish(encoder);
    assert_eq!(
        data.commands,
        vec![
            command(CMD_PUSH_GROUP, 0, 0, 0),
            command(CMD_PUSH_GROUP, 0, 0, 0),
            command(CMD_POP_GROUP, 9, 0, 0),
            command(CMD_POP_GROUP, 11, 0, 0),
            // No group is open: the default mode.
            command(CMD_POP_GROUP, 3, 0, 0),
        ]
    );
    assert_eq!(data.cmd_count, 5);
}

#[test]
fn clip_glyph_is_the_shape_of_bare_fills() {
    let mut encoder = CommandEncoder::new(None);
    assert_eq!(encoder.clip_glyph(), None);
    encoder.push_clip_glyph(12);
    assert_eq!(encoder.clip_glyph(), Some(12));
    encoder.pop_clip();
    assert_eq!(encoder.clip_glyph(), None);
}

#[test]
fn fills_draw_their_own_outline() {
    let mut encoder = CommandEncoder::new(None);
    encoder.fill(Some(empty_outline()), &Paint::Solid(COLOR));
    encoder.fill(None, &Paint::Solid(COLOR));
    encoder.fill(Some(empty_outline()), &Paint::Solid(COLOR));
    let data = finish(encoder);
    assert_eq!(data.sub_glyphs.len(), 2);
    assert_eq!(
        data.commands,
        vec![
            command(CMD_DRAW_SOLID, 0, 0x0102, 0x03ff),
            command(CMD_DRAW_SOLID, 1, 0x0102, 0x03ff),
        ]
    );
    assert_eq!(pack_color_i32(COLOR), (0x0102, 0x03ff));
}

fn gradient_commands(gradient: Gradient) -> Vec<Command> {
    let mut encoder = CommandEncoder::new(None);
    encoder.fill(
        Some(empty_outline()),
        &Paint::Gradient {
            inverse: FixedTransform {
                xx: fixed(1),
                yx: fixed(2),
                xy: fixed(3),
                yy: fixed(4),
                dx: fixed(5),
                dy: fixed(6),
            },
            gradient,
            stops: vec![
                GradientStop {
                    offset: fixed(0),
                    color: COLOR,
                },
                GradientStop {
                    offset: fixed(1),
                    color: COLOR,
                },
            ],
        },
    );
    finish(encoder).commands
}

fn expected_gradient(number: i32, params: Vec<Command>) -> Vec<Command> {
    let mut commands = vec![
        command(CMD_DRAW_GRADIENT, 0, number, 2),
        command(1, -1, 3, -3),
        command(2, -2, 4, -4),
        command(5, -5, 6, -6),
    ];
    commands.extend(params);
    commands.push(command(0, 0, 0x0102, 0x03ff));
    commands.push(command(1, -1, 0x0102, 0x03ff));
    commands
}

#[test]
fn gradients_are_written_out() {
    assert_eq!(
        gradient_commands(Gradient::Linear {
            p0x: fixed(10),
            p0y: fixed(11),
            p1x: fixed(12),
            p1y: fixed(13),
        }),
        expected_gradient(
            0,
            vec![command(10, -10, 11, -11), command(12, -12, 13, -13)]
        )
    );
    assert_eq!(
        gradient_commands(Gradient::Radial {
            c0x: fixed(10),
            c0y: fixed(11),
            r0: fixed(12),
            c1x: fixed(13),
            c1y: fixed(14),
            r1: fixed(15),
        }),
        expected_gradient(
            1,
            vec![
                command(10, -10, 11, -11),
                command(12, -12, 13, -13),
                command(14, -14, 15, -15),
            ]
        )
    );
    assert_eq!(
        gradient_commands(Gradient::Sweep {
            cx: fixed(10),
            cy: fixed(11),
            start_angle: fixed(12),
            end_angle: fixed(13),
        }),
        expected_gradient(
            2,
            vec![command(10, -10, 11, -11), command(12, -12, 13, -13)]
        )
    );
}

#[test]
fn rests_that_round_up_are_carried() {
    assert_eq!(
        Fixed::carried(4, 0x7fff),
        Fixed {
            integer: 4,
            fraction: 0x7fff
        }
    );
    assert_eq!(
        Fixed::carried(-1, 0x8000),
        Fixed {
            integer: 0,
            fraction: 0
        }
    );
}

#[test]
fn outlines_are_drawn_one_after_the_other() {
    let mut encoder = CommandEncoder::new(None);
    let gradient = || Paint::Gradient {
        inverse: FixedTransform {
            xx: fixed(1),
            yx: fixed(2),
            xy: fixed(3),
            yy: fixed(2),
            dx: fixed(3),
            dy: fixed(2),
        },
        gradient: Gradient::Linear {
            p0x: fixed(2),
            p0y: fixed(2),
            p1x: fixed(3),
            p1y: fixed(3),
        },
        stops: vec![GradientStop {
            offset: fixed(2),
            color: COLOR,
        }],
    };
    encoder.fill(Some(empty_outline()), &Paint::Solid(COLOR));
    encoder.push_layer(3);
    encoder.fill(Some(empty_outline()), &gradient());
    encoder.fill(None, &Paint::Solid(COLOR));
    encoder.fill(Some(empty_outline()), &Paint::Solid(COLOR));
    encoder.pop_layer();
    encoder.fill(Some(empty_outline()), &gradient());
    let data = finish(encoder);
    assert_eq!(data.sub_glyphs.len(), 4);
    // One entry, one, seven with the header, one, one, seven.
    assert_eq!(data.commands.len(), 18);
    let drawn: Vec<(i32, i32)> = [0, 2, 9, 11]
        .iter()
        .map(|i| (data.commands[*i].opcode, data.commands[*i].x))
        .collect();
    assert_eq!(
        drawn,
        vec![
            (CMD_DRAW_SOLID, 0),
            (CMD_DRAW_GRADIENT, 1),
            (CMD_DRAW_SOLID, 2),
            (CMD_DRAW_GRADIENT, 3)
        ]
    );
}
