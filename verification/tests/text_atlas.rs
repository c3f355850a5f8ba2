use sluggrs::band::{BandGeometry, BandTransform};
use sluggrs::band_lists::BandPosition;
use sluggrs::colr::{
    ColorV1Data, ColorV1SubGlyph, Command, CMD_DRAW_GRADIENT, CMD_DRAW_SOLID, CMD_POP_GROUP,
    CMD_PUSH_GROUP,
};
use sluggrs::culling::PlacementClass;
use sluggrs::emit::{PlacedRect, WorkItem};
use sluggrs::glyph_cache::{ColorGlyphEntry, GlyphKey};
use sluggrs::instance::Rect;
use sluggrs::outline::{Bounds, GlyphOutline, Point, QuadCurve, Rgba};
use sluggrs::prep::{prepare_mono, PrepScratch};
use sluggrs::scalar::Scalar;
use sluggrs::text_renderer::Placement;
use sluggrs::{
    ColorMode, PrepareError, Resolution, TextArea, TextAtlas, TextBounds, TextRenderer,
};

fn scalar(v: f32) -> Scalar {
    Scalar::from_bits(v.to_bits())
}

fn key(glyph_id: u16) -> GlyphKey {
    GlyphKey {
        font_id: 1,
        glyph_id,
        font_weight: 400,
        cache_key_flags: 0,
    }
}

/// An outline of `n` slanted strokes, none of which continues another.
fn strokes(n: usize) -> GlyphOutline {
    let mut bounds = Bounds::empty();
    let curves = (0..n)
        .map(|i| {
            let x = (i % 1000) as f32;
            let p = |x: f32, y: f32| Point {
                x: scalar(x),
                y: scalar(y),
            };
            let curve = QuadCurve {
                p1: p(x, 0.0),
                p2: p(x + 1.0, 50.0),
                p3: p(x + 3.0, 100.0),
            };
            for p in [curve.p1, curve.p2, curve.p3] {
                bounds.extend(p);
            }
            curve
        })
        .collect();
    GlyphOutline { curves, bounds }
}

fn geometry(outline: &GlyphOutline) -> BandGeometry {
    let zero = scalar(0.0);
    BandGeometry {
        transform: BandTransform {
            scale_x: scalar(1.5),
            scale_y: scalar(2.5),
            offset_x: scalar(3.5),
            offset_y: scalar(4.5),
        },
        middle_x: zero,
        middle_y: zero,
        positions: outline
            .curves
            .iter()
            .map(|_| BandPosition {
                low_x: 0,
                high_x: 0,
                low_y: 0,
                high_y: 0,
            })
            .collect(),
    }
}

const PLENTY: u64 = 128 << 20;

/// Brings a glyph of `n` strokes into the atlas. With one band per axis it
/// takes 2 + 4 n + 2 n texels.
fn add(atlas: &mut TextAtlas, glyph_id: u16, n: usize) -> Result<u32, PrepareError> {
    let outline = strokes(n);
    let entry = atlas.upload_glyph(&outline, 1, 1, scalar(1000.0), &geometry(&outline), PLENTY)?;
    atlas.insert_glyph(key(glyph_id), entry);
    Ok(entry.band_offset)
}

fn words(bytes: &[u8]) -> Vec<i32> {
    bytes
        .chunks(4)
        .map(|c| i32::from_ne_bytes([c[0], c[1], c[2], c[3]]))
        .collect()
}

#[test]
fn fresh_atlas_is_empty() {
    let mut atlas = TextAtlas::new(17);
    assert_eq!(atlas.id(), 17);
    assert_eq!(atlas.color_mode(), ColorMode::Accurate);
    assert_eq!(
        TextAtlas::with_color_mode(1, ColorMode::Web).color_mode(),
        ColorMode::Web
    );
    assert_eq!(atlas.glyph_count(), 0);
    assert_eq!(atlas.generation(), 0);
    assert_eq!(atlas.buffer_elements_used(), 0);
    assert_eq!(atlas.buffer_capacity(), 8192);
    assert!(atlas.flush_uploads().is_none());
    assert!(atlas.glyph_map().is_empty());
}

#[test]
fn uploads_are_appended_and_flushed_once() {
    let mut atlas = TextAtlas::new(1);
    let outline = strokes(2);
    let entry = atlas
        .upload_glyph(&outline, 1, 1, scalar(1000.0), &geometry(&outline), PLENTY)
        .unwrap();
    assert_eq!(entry.band_offset, 0);
    assert_eq!((entry.band_max_x, entry.band_max_y), (0, 0));
    assert_eq!(entry.bounds, outline.bounds);
    assert_eq!(f32::from_bits(entry.band_transform.offset_x.bits), 3.5);
    assert_eq!(atlas.buffer_elements_used(), 14);
    assert_eq!(add(&mut atlas, 2, 3), Ok(14));
    assert_eq!(atlas.buffer_elements_used(), 34);

    let mut scratch = PrepScratch::default();
    let expected: Vec<i32> = [2, 3]
        .iter()
        .flat_map(|n| {
            let outline = strokes(*n);
            prepare_mono(
                &outline,
                1,
                1,
                scalar(1000.0),
                &geometry(&outline),
                &mut scratch,
            )
            .unwrap()
            .blob_data
        })
        .collect();
    let upload = atlas.flush_uploads().expect("something to flush");
    assert_eq!(upload.byte_offset, 0);
    assert_eq!(words(&upload.bytes), expected);
    assert!(atlas.flush_uploads().is_none());

    assert_eq!(add(&mut atlas, 3, 2), Ok(34));
    let upload = atlas.flush_uploads().expect("something to flush");
    assert_eq!(upload.byte_offset, 34 * 8);
    assert_eq!(upload.bytes.len(), 14 * 8);
    assert_eq!(words(&upload.bytes), expected[..28].to_vec());
}

#[test]
fn outlines_beyond_sixteen_bits_are_left_to_raster() {
    let mut atlas = TextAtlas::new(1);
    let mut outline = strokes(2);
    outline.bounds.max_y = scalar(9000.0);
    let entry = atlas
        .upload_glyph(&outline, 1, 1, scalar(1000.0), &geometry(&outline), PLENTY)
        .unwrap();
    assert!(entry.is_non_vector());
    assert_eq!(atlas.buffer_elements_used(), 0);
}

#[test]
fn atlas_full_when_a_blob_is_too_large() {
    let mut atlas = TextAtlas::new(1);
    // 2 + 6 * 10922 = 65534 texels fit; one stroke more does not.
    let outline = strokes(10_923);
    let result = atlas.upload_glyph(&outline, 1, 1, scalar(1.0), &geometry(&outline), PLENTY);
    assert_eq!(result, Err(PrepareError::AtlasFull));
    assert_eq!(atlas.buffer_elements_used(), 0);
    assert_eq!(add(&mut atlas, 1, 10_922), Ok(0));
    assert_eq!(atlas.buffer_elements_used(), 65534);
    assert_eq!(atlas.buffer_capacity(), 65536);
}

#[test]
fn atlas_full_when_the_device_allows_no_more() {
    let mut atlas = TextAtlas::new(1);
    let outline = strokes(2000);
    // 12002 texels need 96016 bytes.
    let full = atlas.upload_glyph(&outline, 1, 1, scalar(1.0), &geometry(&outline), 96_015);
    assert_eq!(full, Err(PrepareError::AtlasFull));
    assert_eq!(atlas.buffer_capacity(), 8192);
    let fits = atlas.upload_glyph(&outline, 1, 1, scalar(1.0), &geometry(&outline), 96_016);
    assert!(fits.is_ok());
    assert_eq!(atlas.buffer_capacity(), 16384);
    // What fits the buffer needs no leave of the device.
    let small = strokes(2);
    assert!(atlas
        .upload_glyph(&small, 1, 1, scalar(1.0), &geometry(&small), 0)
        .is_ok());
}

/// Prepares text with a renderer the way a program with a device does. Every
/// character is a glyph of forty strokes.
struct Harness {
    atlas: TextAtlas,
    renderer: TextRenderer,
}

impl Harness {
    fn new() -> Self {
        let atlas = TextAtlas::with_color_mode(1, ColorMode::Accurate);
        let renderer = TextRenderer::new(atlas.id());
        Self { atlas, renderer }
    }

    fn prepare_text(&mut self, text: &str) -> Result<(), PrepareError> {
        let zero = scalar(0.0);
        let origin = Point { x: zero, y: zero };
        let black = Rgba {
            r: zero,
            g: zero,
            b: zero,
            a: scalar(1.0),
        };
        self.renderer.begin_prepare(
            &mut self.atlas,
            Resolution {
                width: 800,
                height: 600,
            },
        );
        let area = TextArea {
            buffer: 1,
            redraw: true,
            left: zero,
            top: zero,
            scale: scalar(1.0),
            bounds: TextBounds {
                left: 0,
                top: 0,
                right: 800,
                bottom: 600,
            },
            default_color: 0xff00_0000,
            border: None,
        };
        let placement = Placement {
            scroll: origin,
            border_product: zero,
            border_color: black,
        };
        let plan = self.renderer.plan_area(&mut self.atlas, &area, &placement);
        assert_eq!(plan.class, PlacementClass::Miss);
        let keys: Vec<GlyphKey> = text.chars().map(|c| key(c as u16)).collect();
        self.renderer.collect_glyphs(&mut self.atlas, &keys);
        for missing in self.renderer.distinct_misses() {
            add(&mut self.atlas, missing.glyph_id, 40)?;
        }
        let items = keys
            .iter()
            .map(|key| WorkItem {
                key: *key,
                rects: vec![PlacedRect {
                    rect: Rect {
                        x: zero,
                        y: zero,
                        width: scalar(5.0),
                        height: scalar(5.0),
                    },
                    visible: true,
                }],
                color: None,
                depth: zero,
                ppem: scalar(16.0),
                raster: None,
            })
            .collect();
        self.renderer.emit_miss(&self.atlas, &items, black, true);
        self.renderer.finish_prepare(&self.atlas, 0);
        Ok(())
    }
}

#[test]
fn trim_retains_cached_glyphs() {
    let mut h = Harness::new();

    h.prepare_text("Hello")
        .expect("First prepare should succeed");

    h.atlas.trim();

    h.prepare_text("Hello")
        .expect("Prepare after trim() should succeed");

    h.prepare_text("lo world")
        .expect("Prepare with overlapping glyphs after trim() should succeed");
}

#[test]
fn texture_growth_preserves_offsets() {
    let mut h = Harness::new();

    h.prepare_text("ABCDEFGHIJ")
        .expect("Initial prepare should succeed");

    let growth_text = "ABCDEFGHIJKLMNOPQRSTUVWXYZ\
        abcdefghijklmnopqrstuvwxyz\
        0123456789\
        !@#$%^&*()_+-=[]{}|;':\",./<>?\
        \u{00C0}\u{00C1}\u{00C2}\u{00C3}\u{00C4}\u{00C5}\u{00C6}\u{00C7}\
        \u{00C8}\u{00C9}\u{00CA}\u{00CB}\u{00CC}\u{00CD}\u{00CE}\u{00CF}\
        \u{00D0}\u{00D1}\u{00D2}\u{00D3}\u{00D4}\u{00D5}\u{00D6}\u{00D8}\
        \u{00D9}\u{00DA}\u{00DB}\u{00DC}\u{00DD}\u{00DE}\u{00DF}\
        \u{00E0}\u{00E1}\u{00E2}\u{00E3}\u{00E4}\u{00E5}\u{00E6}\u{00E7}\
        \u{00E8}\u{00E9}\u{00EA}\u{00EB}\u{00EC}\u{00ED}\u{00EE}\u{00EF}\
        \u{00F0}\u{00F1}\u{00F2}\u{00F3}\u{00F4}\u{00F5}\u{00F6}\u{00F8}\
        \u{00F9}\u{00FA}\u{00FB}\u{00FC}\u{00FD}\u{00FE}\u{00FF}";

    h.prepare_text(growth_text)
        .expect("Growth prepare should succeed");

    h.prepare_text("ABCDEFGHIJ")
        .expect("Re-prepare after growth should succeed");
}

#[test]
fn multiple_trim_cycles_stable() {
    let mut h = Harness::new();

    for i in 0..5 {
        let text = match i % 3 {
            0 => "Frame zero text",
            1 => "Different frame one",
            _ => "Yet another frame",
        };

        h.prepare_text(text)
            .unwrap_or_else(|_| panic!("Prepare at cycle {i} should succeed"));
        h.atlas.trim();
    }

    h.prepare_text("Final text after many trims")
        .expect("Final prepare should succeed");
}

#[test]
fn trim_empty_atlas_is_safe() {
    let mut h = Harness::new();

    h.atlas.trim();

    h.prepare_text("Works after empty trim")
        .expect("Prepare after trimming empty atlas should succeed");
}

#[test]
fn growth_then_trim_then_more_glyphs() {
    let mut h = Harness::new();

    let many_chars: String = ('A'..='z').collect();
    h.prepare_text(&many_chars)
        .expect("Initial large prepare should succeed");

    h.atlas.trim();

    h.prepare_text("0123456789!@#$%")
        .expect("Prepare after growth+trim should succeed");

    h.atlas.trim();

    h.prepare_text("Final check")
        .expect("Final prepare should succeed");
}

#[test]
fn trim_does_not_reset_without_texture_growth() {
    let mut h = Harness::new();

    h.prepare_text("Hi").expect("Prepare should succeed");

    let glyph_count_before = h.atlas.glyph_count();
    assert!(glyph_count_before > 0);

    h.atlas.trim();

    assert_eq!(
        h.atlas.glyph_count(),
        glyph_count_before,
        "trim() should not evict when textures haven't grown"
    );
}

#[test]
fn trim_resets_when_textures_grew_and_working_set_shifted() {
    let mut h = Harness::new();

    let many_chars = "ABCDEFGHIJKLMNOPQRSTUVWXYZ\
        abcdefghijklmnopqrstuvwxyz\
        0123456789\
        !@#$%^&*()_+-=[]{}|;':\",./<>?\
        \u{00C0}\u{00C1}\u{00C2}\u{00C3}\u{00C4}\u{00C5}\u{00C6}\u{00C7}\
        \u{00C8}\u{00C9}\u{00CA}\u{00CB}\u{00CC}\u{00CD}\u{00CE}\u{00CF}\
        \u{00D0}\u{00D1}\u{00D2}\u{00D3}\u{00D4}\u{00D5}\u{00D6}\u{00D8}\
        \u{00D9}\u{00DA}\u{00DB}\u{00DC}\u{00DD}\u{00DE}\u{00DF}\
        \u{00E0}\u{00E1}\u{00E2}\u{00E3}\u{00E4}\u{00E5}\u{00E6}\u{00E7}\
        \u{00E8}\u{00E9}\u{00EA}\u{00EB}\u{00EC}\u{00ED}\u{00EE}\u{00EF}";
    h.prepare_text(many_chars)
        .expect("Growth prepare should succeed");

    let cached_after_growth = h.atlas.glyph_count();
    assert!(cached_after_growth > 50, "Should have cached many glyphs");

    h.prepare_text("AB").expect("Small prepare should succeed");

    h.atlas.trim();

    assert_eq!(
        h.atlas.glyph_count(),
        0,
        "trim() should reset when textures grew and working set shifted"
    );

    assert_eq!(
        h.atlas.buffer_elements_used(),
        0,
        "buffer cursor should be reset"
    );

    h.prepare_text("AB")
        .expect("Prepare after reset should succeed");
    assert!(
        h.atlas.glyph_count() > 0,
        "Glyphs should be re-uploaded after reset"
    );
}

#[test]
fn trim_does_not_reset_when_working_set_stable() {
    let mut h = Harness::new();

    let many_chars = "ABCDEFGHIJKLMNOPQRSTUVWXYZ\
        abcdefghijklmnopqrstuvwxyz\
        0123456789\
        !@#$%^&*()_+-=[]{}|;':\",./<>?\
        \u{00C0}\u{00C1}\u{00C2}\u{00C3}\u{00C4}\u{00C5}\u{00C6}\u{00C7}\
        \u{00C8}\u{00C9}\u{00CA}\u{00CB}\u{00CC}\u{00CD}\u{00CE}\u{00CF}\
        \u{00D0}\u{00D1}\u{00D2}\u{00D3}\u{00D4}\u{00D5}\u{00D6}\u{00D8}\
        \u{00D9}\u{00DA}\u{00DB}\u{00DC}\u{00DD}\u{00DE}\u{00DF}\
        \u{00E0}\u{00E1}\u{00E2}\u{00E3}\u{00E4}\u{00E5}\u{00E6}\u{00E7}\
        \u{00E8}\u{00E9}\u{00EA}\u{00EB}\u{00EC}\u{00ED}\u{00EE}\u{00EF}";
    h.prepare_text(many_chars)
        .expect("Growth prepare should succeed");

    let cached_after_growth = h.atlas.glyph_count();

    h.prepare_text(many_chars)
        .expect("Repeat prepare should succeed");

    h.atlas.trim();

    assert_eq!(
        h.atlas.glyph_count(),
        cached_after_growth,
        "trim() should not evict when working set is stable (all glyphs in use)"
    );
}

#[test]
fn grown_buffers_keep_entries_and_are_flushed_anew() {
    let mut atlas = TextAtlas::new(1);
    for g in 0..10 {
        add(&mut atlas, g, 20).unwrap();
    }
    let before: Vec<_> = (0..10).map(|g| atlas.glyph(&key(g)).unwrap()).collect();
    let first = atlas.flush_uploads().unwrap();
    for g in 10..200 {
        add(&mut atlas, g, 20).unwrap();
    }
    assert!(atlas.buffer_capacity() > 8192);
    for g in 0..10 {
        assert_eq!(atlas.glyph(&key(g)).unwrap(), before[g as usize]);
    }
    // A grown buffer is empty: all of it is flushed again, old texels first.
    let all = atlas.flush_uploads().unwrap();
    assert_eq!(all.byte_offset, 0);
    assert_eq!(all.bytes.len(), atlas.buffer_elements_used() as usize * 8);
    assert_eq!(all.bytes[..first.bytes.len()], first.bytes);
}

#[test]
fn a_reset_goes_back_to_the_initial_size() {
    let mut h = Harness::new();
    let many: String = ('!'..='z').collect();
    h.prepare_text(&many).unwrap();
    assert_eq!(h.atlas.buffer_capacity(), 32768);
    h.prepare_text("AB").unwrap();
    assert_eq!(h.atlas.glyph_map().in_use_count(), 2);
    assert!(h.atlas.trim());
    assert_eq!(h.atlas.buffer_capacity(), 8192);
    assert_eq!(h.atlas.generation(), 1);
    assert!(h.atlas.flush_uploads().is_none());
    assert_eq!(add(&mut h.atlas, 1, 20), Ok(0));
}

#[test]
fn glyphs_are_in_use_from_the_last_prepare_on() {
    let mut h = Harness::new();
    h.prepare_text("ABCDE").unwrap();
    assert_eq!(h.atlas.glyph_map().in_use_count(), 5);
    let kept = h.atlas.glyph(&key('C' as u16)).unwrap();
    h.prepare_text("AAB").unwrap();
    assert_eq!(h.atlas.glyph_map().in_use_count(), 2);
    assert_eq!(h.atlas.glyph_count(), 5);
    let now = h.atlas.glyph(&key('C' as u16)).unwrap();
    assert_eq!(now.band_offset, kept.band_offset);
    assert_eq!(now.bounds, kept.bounds);
    assert!(!h.atlas.trim());
    assert_eq!(h.atlas.glyph_map().in_use_count(), 0);
}

#[test]
fn a_quarter_in_use_is_enough_to_stay() {
    let mut atlas = TextAtlas::new(1);
    for g in 0..100 {
        add(&mut atlas, g, 20).unwrap();
    }
    assert!(!atlas.trim());
    for g in 0..25 {
        atlas.glyph_mark_used(&key(g));
    }
    assert!(!atlas.trim());
    for g in 0..24 {
        atlas.glyph_mark_used(&key(g));
    }
    assert!(atlas.trim());
}

#[test]
fn nothing_in_use_is_no_reason_without_growth() {
    let mut atlas = TextAtlas::new(1);
    add(&mut atlas, 1, 20).unwrap();
    assert!(!atlas.trim());
    assert_eq!(atlas.glyph_map().in_use_count(), 0);
    assert!(!atlas.trim());
    assert_eq!(atlas.glyph_count(), 1);
    assert_eq!(atlas.generation(), 0);
}

#[test]
fn control_points_beyond_sixteen_bits_are_left_to_raster() {
    let mut atlas = TextAtlas::new(1);
    let mut outline = strokes(2);
    outline.curves[1].p2.x = scalar(10_000.0);
    let entry = atlas
        .upload_glyph(&outline, 1, 1, scalar(1000.0), &geometry(&outline), PLENTY)
        .unwrap();
    assert!(entry.is_non_vector());
    assert_eq!(atlas.buffer_elements_used(), 0);
}

#[test]
fn fewer_than_a_quarter_is_taken_literally() {
    let mut atlas = TextAtlas::new(1);
    for g in 0..7 {
        add(&mut atlas, g, 300).unwrap();
    }
    assert!(atlas.buffer_capacity() > 8192);
    assert!(!atlas.trim());
    // Two of seven are more than a quarter, one is less.
    atlas.glyph_mark_used(&key(0));
    atlas.glyph_mark_used(&key(1));
    assert!(!atlas.trim());
    atlas.glyph_mark_used(&key(0));
    assert!(atlas.trim());
}

#[test]
fn color_glyph_commands_name_their_outlines() {
    let mut atlas = TextAtlas::new(1);
    add(&mut atlas, 1, 1).unwrap();
    let start = atlas.buffer_elements_used();
    assert_eq!(start, 8);
    let subs = vec![strokes(1), strokes(2)];
    let geometries: Vec<BandGeometry> = subs.iter().map(geometry).collect();
    let command = |opcode, x| Command {
        opcode,
        x,
        y: 5,
        z: 6,
    };
    let mut v1 = ColorV1Data {
        commands: vec![
            command(CMD_PUSH_GROUP, 0),
            command(CMD_DRAW_SOLID, 0),
            Command {
                opcode: CMD_DRAW_GRADIENT,
                x: 1,
                y: 1,
                z: 2,
            },
            // Three entries of transform, three of geometry and two stops, which
            // are no commands whatever they look like.
            command(CMD_DRAW_SOLID, 0),
            command(CMD_DRAW_GRADIENT, 1),
            command(CMD_DRAW_SOLID, 1),
            command(CMD_DRAW_SOLID, 0),
            command(CMD_DRAW_SOLID, 0),
            command(CMD_DRAW_SOLID, 0),
            command(CMD_DRAW_SOLID, 0),
            command(CMD_DRAW_GRADIENT, 0),
            command(CMD_DRAW_SOLID, 2),
            command(CMD_DRAW_SOLID, -1),
            // A linear gradient has two entries of geometry.
            Command {
                opcode: CMD_DRAW_GRADIENT,
                x: 0,
                y: 0,
                z: 1,
            },
            command(CMD_DRAW_SOLID, 1),
            command(CMD_DRAW_SOLID, 1),
            command(CMD_DRAW_SOLID, 1),
            command(CMD_DRAW_SOLID, 1),
            command(CMD_DRAW_SOLID, 1),
            command(CMD_DRAW_SOLID, 1),
            command(CMD_DRAW_SOLID, 1),
            command(CMD_POP_GROUP, 1),
        ],
        sub_glyphs: subs
            .into_iter()
            .map(|outline| ColorV1SubGlyph {
                outline,
                blob_offset: 0,
            })
            .collect(),
        cmd_count: 22,
    };
    let entry = atlas
        .upload_color_v1(&mut v1, scalar(1000.0), &geometries)
        .unwrap();
    assert_eq!(entry.blob_offset, start);
    assert_eq!(entry.cmd_count, 44);
    assert_eq!(f32::from_bits(entry.bounds.max_x.bits), 4.0);
    // Twenty-two entries take 44 texels. The first outline takes 3 texels of header
    // and 8 of bands and curves; with one curve it has one band each way.
    assert_eq!(v1.sub_glyphs[0].blob_offset, 44);
    assert_eq!(v1.sub_glyphs[1].blob_offset, 55);
    let named: Vec<i32> = v1.commands.iter().map(|c| c.x).collect();
    // Indices that name no outline stay as they are, and so does what belongs
    // to a gradient.
    assert_eq!(
        named,
        vec![0, 44, 55, 0, 1, 1, 0, 0, 0, 0, 0, 2, -1, 44, 1, 1, 1, 1, 1, 1, 55, 1]
    );

    let upload = atlas.flush_uploads().unwrap();
    let all = words(&upload.bytes);
    let blob = &all[2 * start as usize..];
    assert_eq!(blob[..16], [1, 0, 5, 6, 2, 44, 5, 6, 3, 55, 1, 2, 2, 0, 5, 6]);
    let header = &blob[2 * 44..2 * 44 + 6];
    assert_eq!(header[0], 0);
    assert_eq!(header[1], 0);
    assert_eq!(header[2], 1.5f32.to_bits() as i32);
    assert_eq!(header[5], 4.5f32.to_bits() as i32);
    // The outline behind the header is packed as if it stood alone.
    let mut scratch = PrepScratch::default();
    let alone = prepare_mono(
        &strokes(1),
        1,
        1,
        scalar(1.0),
        &geometries[0],
        &mut scratch,
    )
    .unwrap();
    assert_eq!(
        blob[2 * 47..2 * 47 + alone.blob_data.len()],
        alone.blob_data
    );
    // Two curves: two bands each way, the greatest index is 1.
    assert_eq!(blob[2 * 55], 0x0001_0001);
}

#[test]
fn color_glyphs_and_borders_are_kept_until_reset() {
    let mut atlas = TextAtlas::new(1);
    assert!(atlas.color_glyph(&key(1)).is_none());
    atlas.insert_color_glyph(
        key(1),
        ColorGlyphEntry {
            layers: Vec::new(),
            units_per_em: scalar(7.0),
        },
    );
    assert_eq!(
        f32::from_bits(atlas.color_glyph(&key(1)).unwrap().units_per_em.bits),
        7.0
    );
    assert_eq!(atlas.color_v1_glyph(&key(1)), None);
    let mut v1 = ColorV1Data {
        commands: Vec::new(),
        sub_glyphs: Vec::new(),
        cmd_count: 0,
    };
    let entry = atlas
        .upload_color_v1(&mut v1, scalar(7.0), &Vec::new())
        .unwrap();
    atlas.insert_color_v1_glyph(key(1), entry);
    assert_eq!(atlas.color_v1_glyph(&key(1)), Some(entry));
    assert_eq!(atlas.border_descriptor(&key(1)), None);
    atlas.insert_border_descriptor(key(1), 99);
    assert_eq!(atlas.border_descriptor(&key(1)), Some(99));
    for g in 0..100 {
        add(&mut atlas, g, 20).unwrap();
    }
    atlas.trim();
    assert!(atlas.trim());
    assert!(atlas.color_glyph(&key(1)).is_none());
    assert_eq!(atlas.color_v1_glyph(&key(1)), None);
    assert_eq!(atlas.border_descriptor(&key(1)), None);
}

#[test]
fn uploads_lie_apart() {
    let mut atlas = TextAtlas::new(1);
    let mut places: Vec<u32> = Vec::new();
    for g in 1..5u16 {
        places.push(add(&mut atlas, g, usize::from(g)).unwrap());
    }
    let mut v1 = ColorV1Data {
        commands: vec![Command {
            opcode: CMD_PUSH_GROUP,
            x: 0,
            y: 0,
            z: 0,
        }],
        sub_glyphs: Vec::new(),
        cmd_count: 1,
    };
    let entry = atlas
        .upload_color_v1(&mut v1, scalar(7.0), &Vec::new())
        .unwrap();
    places.push(entry.blob_offset);
    places.push(add(&mut atlas, 9, 1).unwrap());
    assert!(places.windows(2).all(|p| p[0] < p[1]));
}
