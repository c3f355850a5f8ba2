use sluggrs::band::BandTransform;
use sluggrs::border::{
    border_instances_of, border_uses_of_glyphs, border_uses_of_instances, bordered_key_for,
    can_take_border, BorderCapacity, BorderRequirements, SizedGlyph,
};
use sluggrs::glyph_cache::{
    color_v1_vector_glyph, color_vector_glyph, non_vector_glyph, GlyphEntry, GlyphKey,
};
use sluggrs::instance::Rect;
use sluggrs::outline::{Bounds, Rgba};
use sluggrs::scalar::Scalar;
use sluggrs::{GlyphInstance, TextAtlas};

fn scalar(v: f32) -> Scalar {
    Scalar::from_bits(v.to_bits())
}

fn number(v: Scalar) -> f32 {
    f32::from_bits(v.bits)
}

fn key(glyph_id: u16) -> GlyphKey {
    GlyphKey {
        font_id: 1,
        glyph_id,
        font_weight: 400,
        cache_key_flags: 0,
    }
}

fn entry(band_offset: u32, units_per_em: f32) -> GlyphEntry {
    let zero = scalar(0.0);
    GlyphEntry::new(
        band_offset,
        0,
        0,
        BandTransform {
            scale_x: zero,
            scale_y: zero,
            offset_x: zero,
            offset_y: zero,
        },
        Bounds::empty(),
        scalar(units_per_em),
    )
}

fn instance(glyph_offset: u32, ppem: f32) -> GlyphInstance {
    let zero = scalar(0.0);
    GlyphInstance {
        screen_rect: Rect {
            x: scalar(1.0),
            y: scalar(2.0),
            width: scalar(3.0),
            height: scalar(4.0),
        },
        color: Rgba {
            r: zero,
            g: zero,
            b: zero,
            a: zero,
        },
        glyph_offset,
        cmd_texel_count: 0,
        depth: zero,
        ppem: scalar(ppem),
    }
}

/// Takes in one use: `radius_px` at `ppem`, in a font of `units_per_em`.
fn extend(capacity: &mut BorderCapacity, ppem: f32, radius_px: f32, units_per_em: f32) {
    let units = radius_px * units_per_em / ppem.max(f32::MIN_POSITIVE);
    capacity.extend(scalar(ppem), scalar(units));
}

#[test]
fn border_capacity_takes_unit_radius_from_the_smallest_ppem() {
    let mut capacity = BorderCapacity::default();
    extend(&mut capacity, 48.0, 4.5, 1000.0);
    extend(&mut capacity, 12.0, 4.5, 1000.0);

    assert_eq!(
        number(capacity.ppem),
        48.0,
        "boundary accuracy follows max ppem"
    );
    assert_eq!(
        number(capacity.radius_units),
        375.0,
        "4.5px at 12ppem needs 375 units, not the 93.75 the 48ppem use needs"
    );
}

#[test]
fn border_capacity_takes_the_widest_decoration_at_each_size() {
    let mut capacity = BorderCapacity::default();
    extend(&mut capacity, 24.0, 1.0, 2048.0);
    extend(&mut capacity, 24.0, 6.0, 2048.0);
    assert_eq!(number(capacity.radius_units), 512.0);
}

#[test]
fn only_plain_outlines_take_borders() {
    assert!(can_take_border(&entry(5, 1000.0)));
    assert!(!can_take_border(&non_vector_glyph()));
    assert!(!can_take_border(&color_vector_glyph()));
    assert!(!can_take_border(&color_v1_vector_glyph()));
}

fn atlas() -> TextAtlas {
    let mut atlas = TextAtlas::new(1);
    atlas.insert_glyph(key(1), entry(10, 1000.0));
    atlas.insert_glyph(key(2), color_vector_glyph());
    atlas.insert_glyph(key(3), entry(30, 2048.0));
    atlas.insert_glyph(key(4), entry(30, 500.0));
    atlas.insert_border_descriptor(key(1), 1001);
    atlas.insert_border_descriptor(key(3), 1003);
    atlas.insert_border_descriptor(key(4), 1004);
    atlas
}

#[test]
fn the_first_key_behind_an_instance_is_found() {
    let atlas = atlas();
    let keys = vec![key(9), key(2), key(1), key(3), key(4)];
    assert_eq!(
        bordered_key_for(&atlas, &keys, 10),
        Some((key(1), scalar(1000.0)))
    );
    assert_eq!(
        bordered_key_for(&atlas, &keys, 30),
        Some((key(3), scalar(2048.0)))
    );
    assert_eq!(bordered_key_for(&atlas, &keys, u32::MAX - 1), None);
    assert_eq!(bordered_key_for(&atlas, &keys, 11), None);
}

#[test]
fn border_instances_point_at_border_data() {
    let atlas = atlas();
    let keys = vec![key(1), key(2), key(3), key(4)];
    let fills = vec![instance(10, 12.0), instance(77, 12.0), instance(30, 20.0)];
    let borders = border_instances_of(&atlas, &keys, &fills);
    let offsets: Vec<u32> = borders.iter().map(|b| b.glyph_offset).collect();
    assert_eq!(offsets, vec![1001, 1003]);
    assert_eq!(borders[1].ppem, scalar(20.0));
    assert_eq!(borders[0].screen_rect, fills[0].screen_rect);
}

#[test]
fn uses_are_listed_for_the_glyphs_with_borders() {
    let atlas = atlas();
    let keys = vec![key(1), key(2), key(3), key(4)];
    let fills = vec![instance(10, 12.0), instance(77, 12.0), instance(30, 20.0)];
    let uses = border_uses_of_instances(&atlas, &keys, &fills, scalar(1.5));
    assert_eq!(uses.len(), 2);
    assert_eq!((uses[0].key, uses[1].key), (key(1), key(3)));
    assert_eq!(number(uses[1].units_per_em), 2048.0);
    assert_eq!(number(uses[1].ppem), 20.0);
    assert_eq!(number(uses[1].width), 1.5);

    let glyphs: Vec<SizedGlyph> = [1, 2, 9, 4]
        .iter()
        .map(|g| SizedGlyph {
            key: key(*g),
            ppem: scalar(*g as f32),
        })
        .collect();
    let uses = border_uses_of_glyphs(&atlas, &glyphs, scalar(2.0));
    let found: Vec<_> = uses.iter().map(|u| (u.key, number(u.ppem))).collect();
    assert_eq!(found, vec![(key(1), 1.0), (key(4), 4.0)]);
}

#[test]
fn requirements_gather_all_uses_of_a_glyph() {
    let mut requirements = BorderRequirements::new();
    requirements.extend(key(1), scalar(48.0), scalar(93.75));
    requirements.extend(key(2), scalar(10.0), scalar(1.0));
    requirements.extend(key(1), scalar(12.0), scalar(375.0));
    let list = requirements.list();
    assert_eq!(list.len(), 2);
    let (_, first) = list.iter().find(|(k, _)| *k == key(1)).unwrap();
    assert_eq!(number(first.ppem), 48.0);
    assert_eq!(number(first.radius_units), 375.0);
}
