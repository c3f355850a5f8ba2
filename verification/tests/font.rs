use sluggrs::colr::{begin_color_info, begin_collecting, ColorCollector, PaletteEntry};
use sluggrs::font::{
    advance_of, advance_widths, begin_outline, char_to_glyph_id, glyph_path, narrow_glyph_id,
    units_per_em, ColorFormat, VariationSetting,
};
use sluggrs::outline::Point;
use sluggrs::pen::{PenCommand, Question};
use sluggrs::scalar::Scalar;

fn point(x: f32, y: f32) -> Point {
    Point {
        x: Scalar::from_bits(x.to_bits()),
        y: Scalar::from_bits(y.to_bits()),
    }
}

fn be16(values: &[i32]) -> Vec<u8> {
    values
        .iter()
        .flat_map(|v| (*v as u16).to_be_bytes())
        .collect()
}

fn be32(values: &[u32]) -> Vec<u8> {
    values.iter().flat_map(|v| v.to_be_bytes()).collect()
}

/// A font file made of tables.
fn sfnt(version: u32, mut tables: Vec<(&[u8; 4], Vec<u8>)>) -> Vec<u8> {
    tables.sort_by_key(|t| *t.0);
    let mut font = be32(&[version]);
    font.extend(be16(&[tables.len() as i32, 0, 0, 0]));
    let mut offset = 12 + 16 * tables.len();
    for (tag, data) in &tables {
        font.extend(tag.iter());
        font.extend(be32(&[0, offset as u32, data.len() as u32]));
        offset += data.len().next_multiple_of(4);
    }
    for (_, data) in &tables {
        font.extend(data);
        font.resize(font.len().next_multiple_of(4), 0);
    }
    font
}

fn head() -> Vec<u8> {
    let mut t = be32(&[0x0001_0000, 0, 0, 0x5f0f_3cf5]);
    t.extend(be16(&[0, 2048]));
    t.extend([0; 16]);
    t.extend(be16(&[0, 0, 100, 200, 0, 8, 2, 0, 0]));
    t
}

fn maxp(glyphs: i32) -> Vec<u8> {
    let mut t = be32(&[0x0001_0000]);
    t.extend(be16(&[glyphs, 8, 2, 0, 0, 1, 0, 0, 0, 0, 0, 0, 0, 0]));
    t
}

fn hhea(metrics: i32) -> Vec<u8> {
    let mut t = be32(&[0x0001_0000]);
    t.extend([0; 30]);
    t.extend(be16(&[metrics]));
    t
}

/// Maps 'A' to glyph 1 and 'B' to glyph 2.
fn cmap() -> Vec<u8> {
    let mut t = be16(&[0, 1, 3, 1]);
    t.extend(be32(&[12]));
    t.extend(be16(&[4, 32, 0, 4, 4, 1, 0]));
    t.extend(be16(&[66, 0xffff, 0, 65, 0xffff, 1 - 65, 1, 0, 0]));
    t
}

/// A glyph of one contour: on-curve flags, then the steps between points.
fn simple_glyph(on_curve: &[u8], xs: &[i32], ys: &[i32]) -> Vec<u8> {
    let mut t = be16(&[1, 0, 0, 100, 200, on_curve.len() as i32 - 1, 0]);
    t.extend(on_curve);
    t.extend(be16(xs));
    t.extend(be16(ys));
    t.resize(t.len().next_multiple_of(2), 0);
    t
}

/// Glyph 0 is empty, glyph 1 a triangle, glyph 2 has a curved side.
fn truetype_tables() -> Vec<(&'static [u8; 4], Vec<u8>)> {
    let triangle = simple_glyph(&[1, 1, 1], &[0, 100, -100], &[0, 0, 200]);
    let curved = simple_glyph(&[1, 0, 1], &[10, 40, -40], &[20, 50, 50]);
    let first = triangle.len() as i32;
    let second = first + curved.len() as i32;
    let glyf = [triangle, curved].concat();
    vec![
        (b"head", head()),
        (b"maxp", maxp(3)),
        (b"hhea", hhea(2)),
        (b"hmtx", be16(&[500, 0, 600, 0, 0])),
        (b"cmap", cmap()),
        (b"loca", be16(&[0, 0, first / 2, second / 2])),
        (b"glyf", glyf),
    ]
}

fn truetype() -> Vec<u8> {
    sfnt(0x0001_0000, truetype_tables())
}

/// Glyph 1 of the font above moves its second point by 10 units at the heavy
/// end of its weight axis.
fn variable() -> Vec<u8> {
    let mut fvar = be16(&[1, 0, 16, 2, 1, 20, 0, 8]);
    fvar.extend(b"wght");
    fvar.extend(be32(&[100 << 16, 400 << 16, 900 << 16]));
    fvar.extend(be16(&[0, 256]));
    // One tuple with a peak of its own; deltas for three points and four
    // phantom points, all in x.
    let mut data = be16(&[1, 10, 10, 0xa000, 0x4000]);
    data.extend([0x00, 0x06, 0, 10, 0, 0, 0, 0, 0, 0x86]);
    let mut gvar = be16(&[1, 0, 1, 0]);
    gvar.extend(be32(&[28]));
    gvar.extend(be16(&[3, 0]));
    gvar.extend(be32(&[28]));
    let end = data.len() as i32 / 2;
    gvar.extend(be16(&[0, 0, end, end]));
    gvar.extend(data);
    let mut tables = truetype_tables();
    tables.push((b"fvar", fvar));
    tables.push((b"gvar", gvar));
    sfnt(0x0001_0000, tables)
}

/// A font whose glyph 1 is one cubic curve.
fn postscript() -> Vec<u8> {
    let mut cff = vec![1, 0, 4, 1];
    cff.extend([0, 1, 1, 1, 2, b'A']);
    cff.extend([0, 1, 1, 1, 12]);
    cff.extend([0x1c, 0, 30, 0x11]);
    cff.extend([0x1c, 0, 0, 0x1c, 0, 30, 0x12]);
    cff.extend([0, 0]);
    cff.extend([0, 0]);
    // 10 20 rmoveto, then 0 50 50 50 50 0 rrcurveto.
    let curve = [149, 159, 0x15, 139, 189, 189, 189, 189, 139, 0x08, 0x0e];
    cff.extend([0, 2, 1, 1, 2, 2 + curve.len() as u8]);
    cff.push(0x0e);
    cff.extend(curve);
    let mut maxp = be32(&[0x0000_5000]);
    maxp.extend(be16(&[2]));
    sfnt(
        0x4f54_544f,
        vec![
            (b"head", head()),
            (b"maxp", maxp),
            (b"hhea", hhea(1)),
            (b"hmtx", be16(&[500, 0, 0])),
            (b"cmap", cmap()),
            (b"CFF ", cff),
        ],
    )
}

/// Glyph 1 of the font above is made of two layers, with a palette of two.
fn layered() -> Vec<u8> {
    let mut colr = be16(&[0, 1]);
    colr.extend(be32(&[14, 20]));
    colr.extend(be16(&[2]));
    colr.extend(be16(&[1, 0, 2]));
    colr.extend(be16(&[1, 1, 2, 0xffff]));
    let mut cpal = be16(&[0, 2, 1, 2]);
    cpal.extend(be32(&[14]));
    cpal.extend(be16(&[0]));
    // Blue, green, red, alpha.
    cpal.extend([1, 2, 3, 4, 10, 20, 30, 40]);
    let mut tables = truetype_tables();
    tables.push((b"COLR", colr));
    tables.push((b"CPAL", cpal));
    sfnt(0x0001_0000, tables)
}

/// Glyph 1 of the font above is described by a graph of one solid paint.
fn painted() -> Vec<u8> {
    let mut colr = be16(&[1, 0]);
    colr.extend(be32(&[0, 0]));
    colr.extend(be16(&[0]));
    colr.extend(be32(&[34, 0, 0, 0, 0]));
    colr.extend(be32(&[1]));
    colr.extend(be16(&[1]));
    colr.extend(be32(&[10]));
    colr.extend([2, 0, 1, 0x40, 0]);
    let mut tables = truetype_tables();
    tables.push((b"COLR", colr));
    sfnt(0x0001_0000, tables)
}

#[test]
fn characters_are_mapped_to_glyphs() {
    let font = truetype();
    assert_eq!(char_to_glyph_id(&font, 0, 'A'), Some(1));
    assert_eq!(char_to_glyph_id(&font, 0, 'B'), Some(2));
    assert_eq!(char_to_glyph_id(&font, 0, 'C'), None);
    assert_eq!(char_to_glyph_id(&font, 1, 'A'), None);
    assert_eq!(char_to_glyph_id(b"no font", 0, 'A'), None);
    assert_eq!(narrow_glyph_id(Some(0x1_0005)), Some(5));
    assert_eq!(narrow_glyph_id(None), None);
}

#[test]
fn paths_are_drawn_in_font_units() {
    let font = truetype();
    let none = Vec::new();
    assert_eq!(
        glyph_path(&font, 0, 1, &none),
        Some(vec![
            PenCommand::MoveTo {
                to: point(0.0, 0.0)
            },
            PenCommand::LineTo {
                to: point(100.0, 0.0)
            },
            PenCommand::LineTo {
                to: point(0.0, 200.0)
            },
            PenCommand::Close,
        ])
    );
    assert_eq!(
        glyph_path(&font, 0, 2, &none),
        Some(vec![
            PenCommand::MoveTo {
                to: point(10.0, 20.0)
            },
            PenCommand::QuadTo {
                c: point(50.0, 70.0),
                to: point(10.0, 120.0)
            },
            PenCommand::Close,
        ])
    );
    assert_eq!(glyph_path(&font, 0, 0, &none), Some(Vec::new()));
    assert_eq!(glyph_path(&font, 0, 9, &none), None);
    assert_eq!(glyph_path(&font, 3, 1, &none), None);
    assert_eq!(glyph_path(b"no font", 0, 1, &none), None);
}

#[test]
fn cubic_curves_are_drawn_as_such() {
    let path = glyph_path(&postscript(), 0, 1, &Vec::new()).expect("glyph 1 can be drawn");
    assert_eq!(
        path[..2],
        [
            PenCommand::MoveTo {
                to: point(10.0, 20.0)
            },
            PenCommand::CurveTo {
                c1: point(10.0, 70.0),
                c2: point(60.0, 120.0),
                to: point(110.0, 120.0)
            },
        ]
    );
    assert_eq!(path.last(), Some(&PenCommand::Close));
}

#[test]
fn variation_settings_move_points() {
    let font = variable();
    let second_x = |location: &Vec<VariationSetting>| {
        let path = glyph_path(&font, 0, 1, location).expect("glyph 1 can be drawn");
        match path[1] {
            PenCommand::LineTo { to } => f32::from_bits(to.x.bits),
            _ => panic!("expected a line"),
        }
    };
    let weight = |value: f32| VariationSetting {
        tag: u32::from_be_bytes(*b"wght"),
        value: Scalar::from_bits(value.to_bits()),
    };
    assert_eq!(second_x(&Vec::new()), 100.0);
    assert_eq!(second_x(&vec![weight(400.0)]), 100.0);
    assert_eq!(second_x(&vec![weight(650.0)]), 105.0);
    assert_eq!(second_x(&vec![weight(900.0)]), 110.0);
    // Axes that the font does not have are passed over.
    let width = VariationSetting {
        tag: u32::from_be_bytes(*b"wdth"),
        value: Scalar::from_bits(900.0f32.to_bits()),
    };
    assert_eq!(second_x(&vec![width]), 100.0);
}

#[test]
fn outlines_begin_with_the_first_question() {
    let builder = begin_outline(&truetype(), 0, 1, &Vec::new()).expect("glyph 1 can be drawn");
    // The triangle is closed from (0, 200) to (0, 0).
    assert_eq!(
        builder.question(),
        Question::Gap {
            from: point(0.0, 200.0),
            to: point(0.0, 0.0)
        }
    );
    assert!(begin_outline(&truetype(), 0, 9, &Vec::new()).is_none());
    let empty = begin_outline(&truetype(), 0, 0, &Vec::new()).expect("glyph 0 is empty");
    assert_eq!(empty.question(), Question::Done);
    assert!(empty.finish().is_none());
}

#[test]
fn metrics_are_read() {
    let font = truetype();
    assert_eq!(units_per_em(&font, 0), Some(2048));
    assert_eq!(units_per_em(b"no font", 0), None);
    let advances = advance_widths(&font, 0).expect("metrics can be read");
    assert_eq!(advances, vec![500, 600]);
    assert_eq!(advance_of(&advances, 0), Some(500));
    assert_eq!(advance_of(&advances, 1), Some(600));
    // The last record stands for all glyphs behind it.
    assert_eq!(advance_of(&advances, 2), Some(600));
    assert_eq!(advance_of(&Vec::new(), 2), None);
    assert_eq!(advance_widths(b"no font", 0), None);
}

#[test]
fn color_glyphs_are_recognized() {
    let font = layered();
    match begin_color_info(&font, 0, 1) {
        Some(ColorCollector::Layers(collector)) => {
            assert!(collector.layers.is_empty());
            let palette = collector.palette.expect("the font has a palette");
            assert_eq!(palette.len(), 2);
            let first = palette[0];
            assert_eq!(
                (first.red, first.green, first.blue, first.alpha),
                (3, 2, 1, 4)
            );
            assert_eq!(palette[1].red, 30);
        }
        _ => panic!("expected layers"),
    }
    assert!(begin_color_info(&font, 0, 2).is_none());
    match begin_color_info(&painted(), 0, 1) {
        Some(ColorCollector::Paints(encoder)) => {
            assert!(encoder.current_transform().is_identity());
            assert_eq!(encoder.resolve_color(0xffff), PaletteEntry::Foreground);
            assert_eq!(encoder.resolve_color(0), PaletteEntry::Missing);
        }
        _ => panic!("expected paints"),
    }
    assert!(begin_color_info(&truetype(), 0, 1).is_none());
    assert!(begin_color_info(b"no font", 0, 1).is_none());
}

#[test]
fn collectors_follow_the_format() {
    assert!(begin_collecting(None, None).is_none());
    assert!(matches!(
        begin_collecting(Some(ColorFormat::Layers), None),
        Some(ColorCollector::Layers(_))
    ));
    match begin_collecting(Some(ColorFormat::Paints), None) {
        Some(ColorCollector::Paints(encoder)) => {
            assert_eq!(encoder.resolve_color(0), PaletteEntry::Missing);
        }
        _ => panic!("expected paints"),
    }
}
