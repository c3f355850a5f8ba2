use sluggrs::band::{BandGeometry, BandTransform};
use sluggrs::colr::{ColorV1Data, Command, CMD_PUSH_GROUP};
use sluggrs::culling::{clipped_bounds, PlacementClass};
use sluggrs::emit::{NonVectorGlyph, PlacedRect, WorkItem};
use sluggrs::glyph_cache::{
    color_v1_vector_glyph, color_vector_glyph, non_vector_glyph, ColorGlyphEntry, ColorGlyphLayer,
    ColorV1GlyphEntry, GlyphEntry, GlyphKey,
};
use sluggrs::instance::Rect;
use sluggrs::outline::{Bounds, GlyphOutline, Point, Rgba};
use sluggrs::scalar::Scalar;
use sluggrs::text_renderer::{AreaPlan, DrawCall, FrameUpload, Placement, PrepareStats};
use sluggrs::{
    GlyphInstance, PrepareError, RenderError, Resolution, TextArea, TextAtlas, TextBorder,
    TextBounds, TextRenderer,
};

const SCREEN: Resolution = Resolution {
    width: 800,
    height: 600,
};

fn scalar(v: f32) -> Scalar {
    Scalar::from_bits(v.to_bits())
}

fn number(v: Scalar) -> f32 {
    f32::from_bits(v.bits)
}

fn rgba(v: f32) -> Rgba {
    Rgba {
        r: scalar(v),
        g: scalar(v),
        b: scalar(v),
        a: scalar(v),
    }
}

fn key(glyph_id: u16) -> GlyphKey {
    GlyphKey {
        font_id: 1,
        glyph_id,
        font_weight: 400,
        cache_key_flags: 0,
    }
}

fn entry(band_offset: u32) -> GlyphEntry {
    let zero = scalar(0.0);
    GlyphEntry::new(
        band_offset,
        0,
        0,
        BandTransform {
            scale_x: zero,
            scale_y: zero,
            offset_x: zero,
            offset_y: zero,
        },
        Bounds::empty(),
        scalar(1000.0),
    )
}

fn area(buffer: u64, left: f32, border: Option<f32>) -> TextArea {
    TextArea {
        buffer,
        redraw: false,
        left: scalar(left),
        top: scalar(0.0),
        scale: scalar(1.0),
        bounds: TextBounds::default(),
        default_color: 0xff00_0000,
        border: border.map(|width| TextBorder {
            color: 0xffff_ffff,
            width: scalar(width),
        }),
    }
}

fn rect(x: f32) -> Rect {
    Rect {
        x: scalar(x),
        y: scalar(0.0),
        width: scalar(5.0),
        height: scalar(5.0),
    }
}

fn item(glyph_id: u16, x: f32, visible: bool) -> WorkItem {
    WorkItem {
        key: key(glyph_id),
        rects: vec![PlacedRect {
            rect: rect(x),
            visible,
        }],
        color: None,
        depth: scalar(0.25),
        ppem: scalar(16.0),
        raster: None,
    }
}

fn raster(glyph_id: u16) -> NonVectorGlyph {
    NonVectorGlyph {
        key: key(glyph_id),
        font_size: scalar(16.0),
        x: 1,
        y: 2,
        x_bin: 0,
        y_bin: 0,
        color: rgba(1.0),
        depth: scalar(0.0),
        line_y_scaled_rounded: scalar(0.0),
        clip_min_x: 0,
        clip_min_y: 0,
        clip_max_x: 800,
        clip_max_y: 600,
    }
}

/// An atlas with plain glyphs 1 to 9 and their borders.
fn atlas() -> TextAtlas {
    let mut atlas = TextAtlas::new(7);
    for g in 1..10 {
        atlas.insert_glyph(key(g), entry(100 * g as u32));
        atlas.insert_border_descriptor(key(g), 100 * g as u32 + 5);
    }
    atlas
}

struct Frame {
    area: TextArea,
    scroll: [f32; 2],
    /// Glyphs with their distance from the left of the area.
    glyphs: Vec<(u16, f32)>,
}

fn frame(buffer: u64, left: f32, border: Option<f32>, glyphs: &[(u16, f32)]) -> Frame {
    Frame {
        area: area(buffer, left, border),
        scroll: [0.0, 0.0],
        glyphs: glyphs.to_vec(),
    }
}

fn on_screen(x: f32) -> bool {
    (-6.0..=801.0).contains(&x)
}

/// Prepares a frame the way a program with a device does.
fn prepare(
    renderer: &mut TextRenderer,
    atlas: &mut TextAtlas,
    resolution: Resolution,
    areas: &[Frame],
) -> (Vec<PlacementClass>, FrameUpload) {
    renderer.begin_prepare(atlas, resolution);
    let mut plans: Vec<AreaPlan> = Vec::new();
    for frame in areas {
        let product = frame
            .area
            .border
            .map_or(0.0, |b| number(b.width) * number(frame.area.scale));
        let placement = Placement {
            scroll: Point {
                x: scalar(frame.scroll[0]),
                y: scalar(frame.scroll[1]),
            },
            border_product: scalar(product),
            border_color: rgba(0.5),
        };
        let plan = renderer.plan_area(atlas, &frame.area, &placement);
        if plan.class == PlacementClass::Miss {
            let keys = frame.glyphs.iter().map(|(g, _)| key(*g)).collect();
            renderer.collect_glyphs(atlas, &keys);
        }
        plans.push(plan);
    }
    assert!(renderer.distinct_misses().is_empty());
    for (plan, frame) in plans.iter().zip(areas) {
        assert_eq!(renderer.current_plan(), Some(*plan));
        match plan.class {
            PlacementClass::Direct => renderer.emit_direct(atlas),
            PlacementClass::ReCull => {
                let cached = renderer.current_instances().expect("cached");
                // The test knows how far the area moved from its glyphs.
                let old_left = number(cached[0].screen_rect.x) - frame.glyphs[0].1;
                let dx = number(frame.area.left) - old_left;
                let rects: Vec<Rect> = cached
                    .iter()
                    .map(|i| rect(number(i.screen_rect.x) + dx))
                    .collect();
                let visible = rects
                    .iter()
                    .map(|r| on_screen(number(r.x) + frame.scroll[0]))
                    .collect();
                renderer.emit_reculled(atlas, &rects, &visible);
            }
            PlacementClass::Miss => {
                let items = frame
                    .glyphs
                    .iter()
                    .map(|(g, x)| {
                        let x = number(frame.area.left) + x;
                        item(*g, x, on_screen(x + frame.scroll[0]))
                    })
                    .collect();
                renderer.emit_miss(atlas, &items, rgba(0.1), true);
            }
        }
    }
    assert_eq!(renderer.current_plan(), None);
    let rasters = renderer.non_vector_glyphs().len() as u32;
    let upload = renderer.finish_prepare(atlas, rasters);
    (plans.iter().map(|p| p.class).collect(), upload)
}

fn offsets(stream: &[GlyphInstance]) -> Vec<u32> {
    stream.iter().map(|i| i.glyph_offset).collect()
}

fn xs(stream: &[GlyphInstance]) -> Vec<f32> {
    stream.iter().map(|i| number(i.screen_rect.x)).collect()
}

const BOTH: FrameUpload = FrameUpload {
    vertices: true,
    borders: true,
};

/// Glyphs of a text, twelve pixels apart and ten by twenty-four pixels large.
fn text_rects(text: &str) -> Vec<(GlyphKey, [f32; 4])> {
    text.chars()
        .enumerate()
        .map(|(i, c)| (key(c as u16), [12.0 * i as f32, 0.0, 10.0, 24.0]))
        .collect()
}

/// Prepares a text and gives the glyphs that had to be brought into the atlas.
fn prepare_text(
    renderer: &mut TextRenderer,
    atlas: &mut TextAtlas,
    buffer: u64,
    text: &str,
    bounds: TextBounds,
) -> Result<Vec<GlyphKey>, PrepareError> {
    renderer.begin_prepare(atlas, SCREEN);
    let mut shown = area(buffer, 0.0, None);
    shown.bounds = bounds;
    let origin = Point {
        x: scalar(0.0),
        y: scalar(0.0),
    };
    let placement = Placement {
        scroll: origin,
        border_product: scalar(0.0),
        border_color: rgba(0.0),
    };
    let plan = renderer.plan_area(atlas, &shown, &placement);
    assert_eq!(plan.class, PlacementClass::Miss);
    let glyphs = text_rects(text);
    let keys = glyphs.iter().map(|(key, _)| *key).collect();
    renderer.collect_glyphs(atlas, &keys);
    let misses = renderer.distinct_misses();
    for miss in &misses {
        let outline = GlyphOutline {
            curves: Vec::new(),
            bounds: Bounds {
                min_x: scalar(0.0),
                min_y: scalar(0.0),
                max_x: scalar(400.0),
                max_y: scalar(1000.0),
            },
        };
        let geometry = BandGeometry {
            transform: entry(0).band_transform,
            middle_x: scalar(0.0),
            middle_y: scalar(0.0),
            positions: Vec::new(),
        };
        let placed = atlas.upload_glyph(&outline, 1, 1, scalar(1000.0), &geometry, 1 << 20)?;
        atlas.insert_glyph(*miss, placed);
    }
    let clip = clipped_bounds(bounds, SCREEN).map(|v| v as f32);
    let items = glyphs
        .iter()
        .map(|(key, [x, y, width, height])| WorkItem {
            key: *key,
            rects: vec![PlacedRect {
                rect: Rect {
                    x: scalar(*x),
                    y: scalar(*y),
                    width: scalar(*width),
                    height: scalar(*height),
                },
                visible: x + width + 1.0 >= clip[0]
                    && x - 1.0 <= clip[2]
                    && y + height + 1.0 >= clip[1]
                    && y - 1.0 <= clip[3],
            }],
            color: None,
            depth: scalar(0.0),
            ppem: scalar(24.0),
            raster: None,
        })
        .collect();
    renderer.emit_miss(atlas, &items, rgba(0.0), true);
    renderer.finish_prepare(atlas, 0);
    Ok(misses)
}

#[test]
fn repeated_prepare_hits_cache() {
    let mut atlas = TextAtlas::new(7);
    let mut renderer = TextRenderer::new(atlas.id());
    let all = TextBounds::default();
    let first = prepare_text(&mut renderer, &mut atlas, 1, "Hello", all)
        .expect("First prepare should succeed");
    assert_eq!(first, ['H', 'e', 'l', 'o'].map(|c| key(c as u16)));
    let second = prepare_text(&mut renderer, &mut atlas, 2, "Hello", all)
        .expect("Second prepare (cache-hit path) should succeed");
    assert!(second.is_empty());
    let third = prepare_text(&mut renderer, &mut atlas, 3, "lo world", all)
        .expect("Third prepare (partial cache overlap) should succeed");
    assert_eq!(third, [' ', 'd', 'r', 'w'].map(|c| key(c as u16)));
}

#[test]
fn cached_areas_are_hit_directly() {
    let mut atlas = atlas();
    let mut renderer = TextRenderer::new(atlas.id());
    let hello = [frame(1, 0.0, None, &[(1, 0.0), (2, 10.0), (2, 20.0)])];
    let (classes, upload) = prepare(&mut renderer, &mut atlas, SCREEN, &hello);
    assert_eq!(classes, vec![PlacementClass::Miss]);
    assert_eq!(upload, BOTH);
    assert_eq!(offsets(renderer.prepared_instances()), vec![100, 200, 200]);
    assert_eq!(
        renderer.last_prepare_stats(),
        PrepareStats {
            direct_hits: 0,
            reculls: 0,
            misses: 1
        }
    );

    let first = renderer.prepared_instances().clone();
    let (classes, upload) = prepare(&mut renderer, &mut atlas, SCREEN, &hello);
    assert_eq!(classes, vec![PlacementClass::Direct]);
    assert_eq!(
        upload,
        FrameUpload {
            vertices: false,
            borders: false
        }
    );
    assert_eq!(*renderer.prepared_instances(), first);
    assert_eq!(
        renderer.last_prepare_stats(),
        PrepareStats {
            direct_hits: 1,
            reculls: 0,
            misses: 0
        }
    );
    assert_eq!(
        renderer.render(&atlas, 256),
        Ok(vec![DrawCall::Glyphs { count: 3 }])
    );
}

#[test]
fn areas_that_change_their_order_are_uploaded() {
    let mut atlas = atlas();
    let mut renderer = TextRenderer::new(atlas.id());
    let a = || frame(1, 0.0, None, &[(1, 0.0)]);
    let b = || frame(2, 0.0, None, &[(2, 0.0)]);
    prepare(&mut renderer, &mut atlas, SCREEN, &[a(), b()]);
    let (classes, upload) = prepare(&mut renderer, &mut atlas, SCREEN, &[b(), a()]);
    assert_eq!(classes, vec![PlacementClass::Direct; 2]);
    assert!(upload.vertices);
    assert_eq!(offsets(renderer.prepared_instances()), vec![200, 100]);
}

#[test]
fn moved_areas_are_shifted_and_culled() {
    let mut atlas = atlas();
    let mut renderer = TextRenderer::new(atlas.id());
    let at = |left| [frame(1, left, None, &[(1, 0.0), (2, 10.0)])];
    prepare(&mut renderer, &mut atlas, SCREEN, &at(0.0));
    let (classes, upload) = prepare(&mut renderer, &mut atlas, SCREEN, &at(100.0));
    assert_eq!(classes, vec![PlacementClass::ReCull]);
    assert!(upload.vertices);
    assert_eq!(xs(renderer.prepared_instances()), vec![100.0, 110.0]);
    // One glyph leaves the screen: the area is not complete any more.
    let (classes, _) = prepare(&mut renderer, &mut atlas, SCREEN, &at(795.0));
    assert_eq!(classes, vec![PlacementClass::ReCull]);
    assert_eq!(xs(renderer.prepared_instances()), vec![795.0]);
    let (classes, _) = prepare(&mut renderer, &mut atlas, SCREEN, &at(790.0));
    assert_eq!(classes, vec![PlacementClass::Miss]);
    assert_eq!(xs(renderer.prepared_instances()), vec![790.0, 800.0]);
}

#[test]
fn changed_content_is_laid_out_anew() {
    let mut atlas = atlas();
    let mut renderer = TextRenderer::new(atlas.id());
    let original = || frame(1, 0.0, None, &[(1, 0.0)]);
    prepare(&mut renderer, &mut atlas, SCREEN, &[original()]);
    let class = |renderer: &mut TextRenderer, atlas: &mut TextAtlas, frame: Frame| {
        prepare(renderer, atlas, SCREEN, &[frame]).0[0]
    };
    let mut redrawn = original();
    redrawn.area.redraw = true;
    assert_eq!(
        class(&mut renderer, &mut atlas, redrawn),
        PlacementClass::Miss
    );
    let mut scaled = original();
    scaled.area.scale = scalar(2.0);
    assert_eq!(
        class(&mut renderer, &mut atlas, scaled),
        PlacementClass::Miss
    );
    assert_eq!(
        class(&mut renderer, &mut atlas, original()),
        PlacementClass::Miss
    );
    let mut clipped = original();
    clipped.area.bounds.right = 100;
    assert_eq!(
        class(&mut renderer, &mut atlas, clipped),
        PlacementClass::Miss
    );
    let mut colored = original();
    colored.area.default_color = 1;
    assert_eq!(
        class(&mut renderer, &mut atlas, colored),
        PlacementClass::Miss
    );
    assert_eq!(
        class(&mut renderer, &mut atlas, original()),
        PlacementClass::Miss
    );
    let mut scrolled = original();
    scrolled.scroll = [3.0, 0.0];
    assert_eq!(
        class(&mut renderer, &mut atlas, scrolled),
        PlacementClass::ReCull
    );
    let (classes, _) = prepare(
        &mut renderer,
        &mut atlas,
        Resolution {
            width: 1024,
            height: 768,
        },
        &[original()],
    );
    assert_eq!(classes, vec![PlacementClass::Miss]);
}

#[test]
fn areas_of_one_buffer_are_told_apart() {
    let mut atlas = atlas();
    let mut renderer = TextRenderer::new(atlas.id());
    let at = |left, g| frame(1, left, None, &[(g, 0.0)]);
    prepare(
        &mut renderer,
        &mut atlas,
        SCREEN,
        &[at(0.0, 1), at(50.0, 2)],
    );
    let (classes, _) = prepare(
        &mut renderer,
        &mut atlas,
        SCREEN,
        &[at(0.0, 1), at(50.0, 2)],
    );
    assert_eq!(classes, vec![PlacementClass::Direct; 2]);
    assert_eq!(offsets(renderer.prepared_instances()), vec![100, 200]);
    // The second area leaves the frame and the cache.
    prepare(&mut renderer, &mut atlas, SCREEN, &[at(0.0, 1)]);
    let (classes, _) = prepare(
        &mut renderer,
        &mut atlas,
        SCREEN,
        &[at(0.0, 1), at(50.0, 2)],
    );
    assert_eq!(
        classes,
        vec![PlacementClass::Direct, PlacementClass::Miss]
    );
}

#[test]
fn borders_are_drawn_under_their_area() {
    let mut atlas = atlas();
    let mut renderer = TextRenderer::new(atlas.id());
    let areas = [
        frame(1, 0.0, Some(2.0), &[(1, 0.0), (2, 10.0)]),
        frame(2, 0.0, None, &[(3, 0.0)]),
        frame(3, 0.0, Some(3.0), &[(4, 0.0)]),
    ];
    prepare(&mut renderer, &mut atlas, SCREEN, &areas);
    assert_eq!(
        offsets(renderer.prepared_instances()),
        vec![100, 200, 300, 400]
    );
    assert_eq!(
        offsets(renderer.prepared_border_instances()),
        vec![105, 205, 405]
    );
    let widths: Vec<f32> = renderer
        .border_uniforms()
        .iter()
        .map(|u| number(u.width))
        .collect();
    assert_eq!(widths, vec![2.0, 3.0]);
    let expected = vec![
        DrawCall::Border {
            start: 0,
            end: 2,
            uniform_offset: 0,
        },
        DrawCall::Fill { start: 0, end: 2 },
        DrawCall::Fill { start: 2, end: 3 },
        DrawCall::Border {
            start: 2,
            end: 3,
            uniform_offset: 256,
        },
        DrawCall::Fill { start: 3, end: 4 },
    ];
    assert_eq!(renderer.render(&atlas, 256), Ok(expected.clone()));

    // Taken from the cache, the frame is the same; border data that moved is
    // pointed at anew.
    let (classes, upload) = prepare(&mut renderer, &mut atlas, SCREEN, &areas);
    assert_eq!(classes, vec![PlacementClass::Direct; 3]);
    assert!(!upload.borders && !upload.vertices);
    assert_eq!(renderer.render(&atlas, 256), Ok(expected));
    atlas.insert_border_descriptor(key(4), 999);
    let (_, upload) = prepare(&mut renderer, &mut atlas, SCREEN, &areas);
    assert!(upload.borders && !upload.vertices);
    assert_eq!(
        offsets(renderer.prepared_border_instances()),
        vec![105, 205, 999]
    );
}

#[test]
fn changed_border_widths_are_culled_anew() {
    let mut atlas = atlas();
    let mut renderer = TextRenderer::new(atlas.id());
    let with = |border| [frame(1, 0.0, border, &[(1, 0.0)])];
    prepare(&mut renderer, &mut atlas, SCREEN, &with(None));
    let (classes, _) = prepare(&mut renderer, &mut atlas, SCREEN, &with(Some(2.0)));
    assert_eq!(classes, vec![PlacementClass::ReCull]);
    assert_eq!(offsets(renderer.prepared_border_instances()), vec![105]);
    let (classes, _) = prepare(&mut renderer, &mut atlas, SCREEN, &with(Some(2.5)));
    assert_eq!(classes, vec![PlacementClass::ReCull]);
    // A width of zero is no border.
    let (classes, _) = prepare(&mut renderer, &mut atlas, SCREEN, &with(Some(0.0)));
    assert_eq!(classes, vec![PlacementClass::ReCull]);
    assert!(renderer.prepared_border_instances().is_empty());
    assert_eq!(
        renderer.render(&atlas, 256),
        Ok(vec![DrawCall::Glyphs { count: 1 }])
    );
}

#[test]
fn clipping_bounds_do_not_cause_errors() {
    let mut atlas = TextAtlas::new(7);
    let mut renderer = TextRenderer::new(atlas.id());
    let text = "Hello, World! This is a long line of text.";

    let tight_bounds = TextBounds {
        left: 0,
        top: 0,
        right: 30,
        bottom: 30,
    };
    prepare_text(&mut renderer, &mut atlas, 1, text, tight_bounds)
        .expect("Prepare with tight bounds should succeed");
    assert_eq!(xs(renderer.prepared_instances()), vec![0.0, 12.0, 24.0]);

    let disjoint_bounds = TextBounds {
        left: 0,
        top: 500,
        right: 800,
        bottom: 600,
    };
    prepare_text(&mut renderer, &mut atlas, 1, text, disjoint_bounds)
        .expect("Prepare with disjoint bounds should succeed");
    assert!(renderer.prepared_instances().is_empty());

    let zero_bounds = TextBounds {
        left: 100,
        top: 100,
        right: 100,
        bottom: 100,
    };
    prepare_text(&mut renderer, &mut atlas, 1, text, zero_bounds)
        .expect("Prepare with zero-area bounds should succeed");
    assert!(renderer.prepared_instances().is_empty());
    assert_eq!(renderer.render(&atlas, 256), Ok(Vec::new()));
}

#[test]
fn frames_without_visible_glyphs_draw_nothing() {
    let mut atlas = atlas();
    let mut renderer = TextRenderer::new(atlas.id());
    // Everything is off the screen.
    let (_, upload) = prepare(
        &mut renderer,
        &mut atlas,
        SCREEN,
        &[frame(1, 2000.0, Some(1.0), &[(1, 0.0), (2, 10.0)])],
    );
    assert_eq!(upload, BOTH);
    assert!(renderer.prepared_instances().is_empty());
    assert_eq!(renderer.render(&atlas, 256), Ok(Vec::new()));
    // And nothing at all.
    prepare(&mut renderer, &mut atlas, SCREEN, &[]);
    assert_eq!(renderer.render(&atlas, 256), Ok(Vec::new()));
}

#[test]
fn every_kind_of_glyph_is_emitted() {
    let mut atlas = atlas();
    atlas.insert_glyph(key(20), non_vector_glyph());
    atlas.insert_glyph(key(21), color_v1_vector_glyph());
    atlas.insert_color_v1_glyph(
        key(21),
        ColorV1GlyphEntry {
            blob_offset: 2100,
            cmd_count: 6,
            bounds: Bounds::empty(),
            units_per_em: scalar(1000.0),
        },
    );
    atlas.insert_glyph(key(22), color_vector_glyph());
    let layer = |entry, use_foreground| ColorGlyphLayer {
        entry,
        color: rgba(0.7),
        use_foreground,
    };
    atlas.insert_color_glyph(
        key(22),
        ColorGlyphEntry {
            layers: vec![
                layer(entry(2201), false),
                layer(non_vector_glyph(), false),
                layer(entry(2203), true),
            ],
            units_per_em: scalar(1000.0),
        },
    );
    atlas.insert_glyph(key(23), color_vector_glyph());

    let mut renderer = TextRenderer::new(atlas.id());
    renderer.begin_prepare(&mut atlas, SCREEN);
    let placement = Placement {
        scroll: Point {
            x: scalar(0.0),
            y: scalar(0.0),
        },
        border_product: scalar(1.0),
        border_color: rgba(0.5),
    };
    let plan = renderer.plan_area(&mut atlas, &area(1, 0.0, Some(1.0)), &placement);
    assert_eq!(plan.class, PlacementClass::Miss);
    let mut drawn_as_raster = item(20, 0.0, true);
    drawn_as_raster.raster = Some(raster(20));
    let mut commanded = item(21, 10.0, true);
    commanded.color = Some(rgba(0.9));
    let mut layered = item(22, 20.0, true);
    layered.rects = vec![layered.rects[0]; 3];
    let items = vec![
        drawn_as_raster,
        commanded,
        layered,
        item(1, 30.0, true),
        // A layered glyph that the atlas knows no layers of.
        item(23, 40.0, true),
    ];
    renderer.emit_miss(&atlas, &items, rgba(0.1), true);
    assert_eq!(renderer.non_vector_glyphs().len(), 1);
    renderer.finish_prepare(&atlas, 1);

    let stream = renderer.prepared_instances().clone();
    assert_eq!(offsets(&stream), vec![2100, 2201, 2203, 100]);
    let commands: Vec<u32> = stream.iter().map(|i| i.cmd_texel_count).collect();
    assert_eq!(commands, vec![6, 0, 0, 0]);
    let colors: Vec<f32> = stream.iter().map(|i| number(i.color.r)).collect();
    assert_eq!(colors, vec![0.9, 0.7, 0.1, 0.1]);
    assert_eq!(number(stream[0].depth), 0.25);
    assert_eq!(number(stream[0].ppem), 16.0);
    // Only the plain outline has a border.
    assert_eq!(offsets(renderer.prepared_border_instances()), vec![105]);
    let cached = renderer.cached_area(&plan.key).expect("cached");
    assert!(!cached.complete, "the layers of a glyph were missing");
    let keys: Vec<u16> = cached.distinct_keys.iter().map(|k| k.glyph_id).collect();
    assert_eq!(keys, vec![1, 20, 21, 22, 23]);
    let calls = renderer.render(&atlas, 256).unwrap();
    assert_eq!(calls.len(), 3);
    assert_eq!(calls[2], DrawCall::Raster { count: 1 });

    // From the cache the plain outline gets its border again, and no other.
    renderer.begin_prepare(&mut atlas, SCREEN);
    let plan = renderer.plan_area(&mut atlas, &area(1, 0.0, Some(1.0)), &placement);
    assert_eq!(plan.class, PlacementClass::Direct);
    renderer.emit_direct(&atlas);
    renderer.finish_prepare(&atlas, 1);
    assert_eq!(*renderer.prepared_instances(), stream);
    assert_eq!(offsets(renderer.prepared_border_instances()), vec![105]);
}

#[test]
fn missing_glyphs_are_listed_once() {
    let mut atlas = atlas();
    let mut renderer = TextRenderer::new(atlas.id());
    renderer.begin_prepare(&mut atlas, SCREEN);
    renderer.collect_glyphs(&mut atlas, &vec![key(50), key(1), key(40)]);
    renderer.collect_glyphs(&mut atlas, &vec![key(40), key(50), key(45)]);
    assert_eq!(
        renderer.distinct_misses(),
        vec![key(40), key(45), key(50)]
    );
}

#[test]
fn frames_are_not_drawn_after_a_reset() {
    let mut atlas = atlas();
    let mut renderer = TextRenderer::new(atlas.id());
    let hello = [frame(1, 0.0, None, &[(1, 0.0)])];
    prepare(&mut renderer, &mut atlas, SCREEN, &hello);
    assert!(renderer.render(&atlas, 256).is_ok());
    // Another atlas is refused.
    assert_eq!(
        renderer.render(&TextAtlas::new(8), 256),
        Err(RenderError::RemovedFromAtlas)
    );
    // The buffer grows, and then nothing is in use any more.
    let mut filler = ColorV1Data {
        commands: vec![
            Command {
                opcode: CMD_PUSH_GROUP,
                x: 0,
                y: 0,
                z: 0
            };
            5000
        ],
        sub_glyphs: Vec::new(),
        cmd_count: 5000,
    };
    atlas
        .upload_color_v1(&mut filler, scalar(1000.0), &Vec::new())
        .unwrap();
    assert!(!atlas.trim());
    assert!(renderer.render(&atlas, 256).is_ok());
    assert!(atlas.trim());
    assert_eq!(
        renderer.render(&atlas, 256),
        Err(RenderError::RemovedFromAtlas)
    );
    // A frame that is prepared for the atlas as it is can be drawn.
    prepare(&mut renderer, &mut atlas, SCREEN, &[]);
    assert!(renderer.render(&atlas, 256).is_ok());
    renderer.trim();
    assert!(renderer.prepared_instances().is_empty());
}

#[test]
fn glyphs_of_cached_areas_stay_in_use() {
    let mut atlas = atlas();
    let mut renderer = TextRenderer::new(atlas.id());
    let hello = [frame(1, 0.0, None, &[(1, 0.0), (2, 10.0)])];
    prepare(&mut renderer, &mut atlas, SCREEN, &hello);
    atlas.trim();
    assert_eq!(atlas.glyph_map().in_use_count(), 0);
    let (classes, _) = prepare(&mut renderer, &mut atlas, SCREEN, &hello);
    assert_eq!(classes, vec![PlacementClass::Direct]);
    assert_eq!(atlas.glyph_map().in_use_count(), 2);
}

#[test]
fn first_frames_and_new_resolutions_lay_out_everything() {
    let mut atlas = atlas();
    let mut renderer = TextRenderer::new(atlas.id());
    let areas = || {
        [
            frame(1, 0.0, None, &[(1, 0.0)]),
            frame(2, 0.0, Some(1.0), &[(2, 0.0)]),
            frame(1, 50.0, None, &[(3, 0.0)]),
        ]
    };
    let all_missed = PrepareStats {
        direct_hits: 0,
        reculls: 0,
        misses: 3,
    };
    prepare(&mut renderer, &mut atlas, SCREEN, &areas());
    assert_eq!(renderer.last_prepare_stats(), all_missed);
    let wider = Resolution {
        width: 801,
        height: 600,
    };
    prepare(&mut renderer, &mut atlas, wider, &areas());
    assert_eq!(renderer.last_prepare_stats(), all_missed);
}

#[test]
fn unchanged_frames_repeat_their_stream() {
    let mut atlas = atlas();
    let mut renderer = TextRenderer::new(atlas.id());
    let areas = || {
        [
            frame(1, 0.0, None, &[(1, 0.0), (2, 10.0)]),
            frame(2, 0.0, Some(1.0), &[(2, 0.0)]),
            frame(1, 50.0, None, &[(3, 0.0)]),
        ]
    };
    prepare(&mut renderer, &mut atlas, SCREEN, &areas());
    let first = renderer.prepared_instances().clone();
    assert_eq!(offsets(&first), vec![100, 200, 200, 300]);
    for _ in 0..2 {
        let (_, upload) = prepare(&mut renderer, &mut atlas, SCREEN, &areas());
        assert!(!upload.vertices);
        assert_eq!(*renderer.prepared_instances(), first);
        assert_eq!(
            renderer.last_prepare_stats(),
            PrepareStats {
                direct_hits: 3,
                reculls: 0,
                misses: 0
            }
        );
    }
}

#[test]
fn only_visible_glyphs_are_prepared() {
    let mut atlas = atlas();
    let mut renderer = TextRenderer::new(atlas.id());
    let glyphs = [(1, 0.0), (2, 400.0)];
    let steps = [
        (0.0, PlacementClass::Miss),
        (300.0, PlacementClass::ReCull),
        (500.0, PlacementClass::ReCull),
        (500.0, PlacementClass::Direct),
        (-300.0, PlacementClass::Miss),
    ];
    for (left, class) in steps {
        let (classes, _) = prepare(
            &mut renderer,
            &mut atlas,
            SCREEN,
            &[frame(1, left, None, &glyphs)],
        );
        assert_eq!(classes, vec![class]);
        let expected: Vec<f32> = glyphs
            .iter()
            .map(|(_, x)| left + x)
            .filter(|x| on_screen(*x))
            .collect();
        assert_eq!(xs(renderer.prepared_instances()), expected);
    }
}

#[test]
fn removed_borders_leave_no_trace() {
    let mut atlas = atlas();
    let mut bordered = TextRenderer::new(atlas.id());
    let mut plain = TextRenderer::new(atlas.id());
    let with = |border| [frame(1, 0.0, border, &[(1, 0.0), (2, 10.0), (3, 20.0)])];
    prepare(&mut bordered, &mut atlas, SCREEN, &with(Some(3.0)));
    assert_eq!(bordered.prepared_border_instances().len(), 3);
    let (classes, _) = prepare(&mut bordered, &mut atlas, SCREEN, &with(None));
    assert_eq!(classes, vec![PlacementClass::ReCull]);
    prepare(&mut plain, &mut atlas, SCREEN, &with(None));
    assert_eq!(bordered.prepared_instances(), plain.prepared_instances());
    assert!(bordered.prepared_border_instances().is_empty());
    assert!(plain.prepared_border_instances().is_empty());
}

#[test]
fn renderers_of_one_frame_are_counted_together() {
    let mut atlas = atlas();
    atlas.trim();
    let mut first = TextRenderer::new(atlas.id());
    let mut second = TextRenderer::new(atlas.id());
    let one = [frame(1, 0.0, None, &[(1, 0.0), (2, 10.0)])];
    let other = [frame(2, 0.0, None, &[(3, 0.0)])];
    prepare(&mut first, &mut atlas, SCREEN, &one);
    prepare(&mut second, &mut atlas, SCREEN, &other);
    assert_eq!(atlas.glyph_map().in_use_count(), 3);
    // The first renderer prepares once more: a new count begins, to which the
    // second adds.
    prepare(&mut first, &mut atlas, SCREEN, &one);
    assert_eq!(atlas.glyph_map().in_use_count(), 2);
    prepare(&mut second, &mut atlas, SCREEN, &other);
    assert_eq!(atlas.glyph_map().in_use_count(), 3);
    // After a trim both belong to the next frame.
    atlas.trim();
    prepare(&mut first, &mut atlas, SCREEN, &one);
    prepare(&mut second, &mut atlas, SCREEN, &other);
    assert_eq!(atlas.glyph_map().in_use_count(), 3);
}

#[test]
fn areas_stand_still_where_coordinates_do_not_differ() {
    let mut atlas = atlas();
    let mut renderer = TextRenderer::new(atlas.id());
    let mut class = |left: f32| {
        let area = [frame(1, left, None, &[(1, 0.0)])];
        prepare(&mut renderer, &mut atlas, SCREEN, &area).0[0]
    };
    assert_eq!(class(0.0), PlacementClass::Miss);
    assert_eq!(class(-0.0), PlacementClass::Direct);
    assert_eq!(class(f32::MIN_POSITIVE), PlacementClass::ReCull);
    assert_eq!(class(f32::MIN_POSITIVE), PlacementClass::Direct);
    // The difference of infinite coordinates is no number.
    assert_eq!(class(f32::INFINITY), PlacementClass::ReCull);
    assert_ne!(class(f32::INFINITY), PlacementClass::Direct);
}

#[test]
fn removed_borders_of_partly_visible_areas_leave_no_trace() {
    let mut atlas = atlas();
    let mut bordered = TextRenderer::new(atlas.id());
    let mut plain = TextRenderer::new(atlas.id());
    let with = |border| [frame(1, 0.0, border, &[(1, 0.0), (2, 900.0), (3, 20.0)])];
    prepare(&mut bordered, &mut atlas, SCREEN, &with(Some(3.0)));
    let (classes, _) = prepare(&mut bordered, &mut atlas, SCREEN, &with(None));
    assert_eq!(classes, vec![PlacementClass::Miss]);
    prepare(&mut plain, &mut atlas, SCREEN, &with(None));
    assert_eq!(xs(bordered.prepared_instances()), vec![0.0, 20.0]);
    assert_eq!(bordered.prepared_instances(), plain.prepared_instances());
    assert!(bordered.prepared_border_instances().is_empty());
}

#[test]
fn removed_borders_take_hidden_lines_along() {
    let mut atlas = atlas();
    let origin = Point {
        x: scalar(0.0),
        y: scalar(0.0),
    };
    let prepare_lines = |renderer: &mut TextRenderer,
                         atlas: &mut TextAtlas,
                         border: Option<f32>,
                         glyphs: &[u16],
                         visible: &[bool]| {
        renderer.begin_prepare(atlas, SCREEN);
        let placement = Placement {
            scroll: origin,
            border_product: scalar(border.unwrap_or(0.0)),
            border_color: rgba(0.5),
        };
        let plan = renderer.plan_area(atlas, &area(1, 0.0, border), &placement);
        if plan.class == PlacementClass::Miss {
            let items: Vec<WorkItem> = glyphs
                .iter()
                .zip(visible)
                .map(|(g, visible)| item(*g, 10.0 * f32::from(*g), *visible))
                .collect();
            renderer.emit_miss(atlas, &items, rgba(0.1), true);
        } else {
            let rects: Vec<Rect> = glyphs.iter().map(|g| rect(10.0 * f32::from(*g))).collect();
            renderer.emit_reculled(atlas, &rects, &visible.to_vec());
        }
        renderer.finish_prepare(atlas, 0);
        plan.class
    };
    // Four lines of one glyph are visible with the border; the first and the
    // last only through it.
    let mut bordered = TextRenderer::new(atlas.id());
    let class = prepare_lines(&mut bordered, &mut atlas, Some(9.0), &[1, 2, 3, 4], &[true; 4]);
    assert_eq!(class, PlacementClass::Miss);
    let inner = [false, true, true, false];
    let class = prepare_lines(&mut bordered, &mut atlas, None, &[1, 2, 3, 4], &inner);
    assert_eq!(class, PlacementClass::ReCull);
    let mut plain = TextRenderer::new(atlas.id());
    prepare_lines(&mut plain, &mut atlas, None, &[2, 3], &[true; 2]);
    assert_eq!(offsets(bordered.prepared_instances()), vec![200, 300]);
    assert_eq!(bordered.prepared_instances(), plain.prepared_instances());
}
