use sluggrs::band::BandTransform;
use sluggrs::glyph_cache::{
    color_v1_vector_glyph, color_vector_glyph, non_vector_glyph, GlyphEntry, GlyphKey, GlyphMap,
    KeyMap, LayoutGlyph,
};
use sluggrs::keys::distinct_keys;
use sluggrs::outline::Bounds;
use sluggrs::scalar::Scalar;

fn key(font_id: u64, glyph_id: u16, font_weight: u16, cache_key_flags: u32) -> GlyphKey {
    GlyphKey {
        font_id,
        glyph_id,
        font_weight,
        cache_key_flags,
    }
}

fn entry(band_offset: u32) -> GlyphEntry {
    let zero = Scalar::from_bits(0);
    GlyphEntry::new(
        band_offset,
        3,
        4,
        BandTransform {
            scale_x: zero,
            scale_y: zero,
            offset_x: zero,
            offset_y: zero,
        },
        Bounds::empty(),
        Scalar::from_bits(1000.0f32.to_bits()),
    )
}

#[test]
fn keys_are_read_from_laid_out_glyphs() {
    let glyph = LayoutGlyph {
        font_id: 7,
        glyph_id: 65,
        font_weight: 700,
        cache_key_flags: 1,
    };
    assert_eq!(GlyphKey::from_layout_glyph(&glyph), key(7, 65, 700, 1));
}

#[test]
fn key_numbers_keep_the_order_of_keys() {
    let mut keys = vec![
        key(0, 0, 0, 0),
        key(0, 0, 0, u32::MAX),
        key(0, 0, 1, 0),
        key(0, 0, u16::MAX, 5),
        key(0, 1, 0, 0),
        key(0, u16::MAX, u16::MAX, u32::MAX),
        key(1, 0, 0, 0),
        key(u64::MAX, 0, 0, 0),
    ];
    assert!(keys.windows(2).all(|p| p[0] < p[1]));
    assert!(keys
        .windows(2)
        .all(|p| p[0].to_number() < p[1].to_number()));
    let sorted = keys.clone();
    keys.reverse();
    keys.extend(sorted.clone());
    assert_eq!(distinct_keys(&keys), sorted);
    assert_eq!(distinct_keys(&Vec::new()), Vec::new());
}

#[test]
fn sentinels_are_told_apart() {
    assert!(non_vector_glyph().is_non_vector());
    assert!(!non_vector_glyph().is_color_vector());
    assert!(color_vector_glyph().is_color_vector());
    assert!(!color_vector_glyph().is_non_vector());
    assert!(color_v1_vector_glyph().is_color_v1_vector());
    let plain = entry(12);
    assert!(!plain.is_non_vector() && !plain.is_color_vector() && !plain.is_color_v1_vector());
    assert_eq!(non_vector_glyph().band_offset, u32::MAX);
    assert_eq!(color_vector_glyph().band_offset, u32::MAX - 1);
    assert_eq!(
        f32::from_bits(non_vector_glyph().units_per_em.bits),
        1000.0
    );
    assert_eq!(plain.last_used_epoch, 0);
}

#[test]
fn inserted_glyphs_are_found_and_others_stay() {
    let mut map = GlyphMap::new();
    assert!(map.is_empty());
    let a = key(1, 2, 400, 0);
    let b = key(1, 2, 400, 1);
    map.insert_and_mark_used(a, entry(10));
    map.insert_and_mark_used(b, entry(20));
    assert_eq!(map.get(&a).unwrap().band_offset, 10);
    assert_eq!(map.get(&b).unwrap().band_offset, 20);
    map.insert_and_mark_used(a, entry(30));
    assert_eq!(map.get(&a).unwrap().band_offset, 30);
    assert_eq!(map.get(&b).unwrap().band_offset, 20);
    assert_eq!(map.len(), 2);
    assert!(map.contains_key(&a));
    assert!(!map.contains_key(&key(2, 2, 400, 0)));
    assert_eq!(map.get(&key(2, 2, 400, 0)), None);
    map.clear();
    assert!(map.is_empty());
    assert_eq!(map.in_use_count(), 0);
    assert_eq!(map.get(&a), None);
}

#[test]
fn a_glyph_counts_once_per_frame() {
    let mut map = GlyphMap::default();
    let a = key(1, 2, 400, 0);
    let b = key(1, 3, 400, 0);
    assert_eq!(map.get_and_mark_used(&a), None);
    let inserted = map.insert_and_mark_used(a, entry(10));
    assert_eq!(inserted.last_used_epoch, 1);
    map.insert_and_mark_used(b, entry(20));
    assert_eq!(map.in_use_count(), 2);
    map.get_and_mark_used(&a);
    assert_eq!(map.in_use_count(), 2);
    map.next_frame();
    assert_eq!(map.in_use_count(), 0);
    assert_eq!(map.len(), 2);
    // Reading alone does not count.
    map.get(&a);
    assert_eq!(map.in_use_count(), 0);
    let used = map.get_and_mark_used(&a).unwrap();
    assert_eq!(used.last_used_epoch, 2);
    map.get_and_mark_used(&a);
    assert_eq!(map.in_use_count(), 1);
    assert_eq!(map.get(&b).unwrap().last_used_epoch, 1);
}

#[test]
fn key_maps_hold_values_of_any_kind() {
    let mut map: KeyMap<Vec<u32>> = KeyMap::new();
    let a = key(1, 2, 400, 0);
    assert!(map.get(&a).is_none());
    map.insert(a, vec![1, 2]);
    assert_eq!(map.get(&a), Some(&vec![1, 2]));
    assert_eq!(map.len(), 1);
    map.clear();
    assert_eq!(map.len(), 0);
}

#[test]
fn the_frame_counter_starts_over() {
    let mut map = GlyphMap::new();
    let a = key(1, 2, 400, 0);
    map.insert_and_mark_used(a, entry(10));
    // As many frames as bring the counter to its end.
    let mut left = u32::MAX - 1;
    while left >= 32 {
        map.next_frame();
        map.next_frame();
        map.next_frame();
        map.next_frame();
        map.next_frame();
        map.next_frame();
        map.next_frame();
        map.next_frame();
        map.next_frame();
        map.next_frame();
        map.next_frame();
        map.next_frame();
        map.next_frame();
        map.next_frame();
        map.next_frame();
        map.next_frame();
        map.next_frame();
        map.next_frame();
        map.next_frame();
        map.next_frame();
        map.next_frame();
        map.next_frame();
        map.next_frame();
        map.next_frame();
        map.next_frame();
        map.next_frame();
        map.next_frame();
        map.next_frame();
        map.next_frame();
        map.next_frame();
        map.next_frame();
        map.next_frame();
        left -= 32;
    }
    while left > 0 {
        map.next_frame();
        left -= 1;
    }
    assert_eq!(map.get(&a).unwrap().last_used_epoch, 1);
    // Frame 1 comes again, but the glyph was not used in it.
    map.next_frame();
    assert_eq!(map.get(&a).unwrap().last_used_epoch, 0);
    assert_eq!(map.get(&a).unwrap().band_offset, 10);
    assert_eq!(map.in_use_count(), 0);
    map.get_and_mark_used(&a);
    assert_eq!(map.in_use_count(), 1);
    assert_eq!(map.get(&a).unwrap().last_used_epoch, 1);
}

#[test]
fn inserting_a_glyph_again_does_not_count_again() {
    let mut map = GlyphMap::new();
    let k = key(1, 2, 400, 0);
    map.insert_and_mark_used(k, entry(5));
    map.insert_and_mark_used(k, entry(6));
    assert_eq!(map.in_use_count(), 1);
    assert_eq!(map.len(), 1);
    assert_eq!(map.get(&k).unwrap().band_offset, 6);
    // In the next frame it counts anew.
    map.next_frame();
    assert_eq!(map.in_use_count(), 0);
    map.insert_and_mark_used(k, entry(7));
    map.get_and_mark_used(&k);
    assert_eq!(map.in_use_count(), 1);
}
