//! What lies in the atlas and where: what an upload leaves, what a reader finds
//! again, and when all of it is dropped.

use crate::band::{outline_bands, BandGeometry};
use crate::band_laws::{high_half, holds_curve, lemma_blob_is_walked, low_half};
use crate::bytes::in_memory;
use crate::colr::{ColorV1Data, ColorV1SubGlyph};
use crate::commands::is_draw;
use crate::device_laws::{lemma_read_in_order, lemma_word_read, read_in_order, word_at};
use crate::glyph_cache::{sentinel, used_in, GlyphEntry, GlyphKey, GlyphMap};
use crate::keys::{ascending, distinct_of};
use crate::number_laws::{lemma_packed_halves, lemma_signed_unsigned};
use crate::outline::{no_bounds, Bounds, GlyphOutline};
use crate::prep::{lemma_blob_length, mono_blob, mono_texels, outline_quantizable};
use crate::renderer_laws::same_but_for_use;
use crate::scalar::Scalar;
use crate::text_atlas::{
    atlas_reset, blob_refused, command_words, doubled, frame_advanced, glyph_marked, grown,
    lemma_append_places_blob, lemma_grown, next_epoch, pending_words, placed_commands,
    placed_entry, reset_due, sub_band_count, sub_blob, sub_blobs, sub_header, sub_offset,
    union_bounds, united, v1_blob, AtlasState, INITIAL_BUFFER_CAPACITY, MAX_BUFFER_TEXELS,
};
use vstd::arithmetic::power2::pow2;
use vstd::prelude::*;

verus! {

/// What is appended to an atlas comes behind what is there, word by word, and
/// nothing else of it changes but how much fits and what was flushed.
pub proof fn lemma_append_comes_behind(atlas: AtlasState, words: Seq<i32>, i: int)
    ensures
        ({
            let w = atlas.appended(words);
            let n = atlas.data.len();
            &&& w.data.len() == n + words.len()
            &&& 0 <= i < n ==> w.data[i] == atlas.data[i]
            &&& 0 <= i < words.len() ==> w.data[n + i] == words[i]
            &&& w.id == atlas.id && w.generation == atlas.generation
            &&& w.glyphs == atlas.glyphs
            &&& w.color_glyphs == atlas.color_glyphs
            &&& w.color_v1_glyphs == atlas.color_v1_glyphs
            &&& w.border_offsets == atlas.border_offsets
        }),
{
}

/// A buffer that is large enough stays as it is. One that is not becomes the least
/// doubling of the initial 8192 texels that is, and all of it has to be flushed
/// again.
pub proof fn lemma_buffer_grows(atlas: AtlasState, words: Seq<i32>)
    requires
        exists|k: nat| atlas.capacity == 8192 * #[trigger] pow2(k),
        0 < atlas.capacity,
        atlas.data.len() + words.len() <= 2 * 0x8000_0000int,
    ensures
        ({
            let w = atlas.appended(words);
            let end = (atlas.data.len() + words.len()) as int / 2;
            &&& end <= atlas.capacity ==> w.capacity == atlas.capacity && w.flushed
                == atlas.flushed
            &&& end > atlas.capacity ==> {
                &&& w.flushed == 0
                &&& end <= w.capacity < 2 * end
                &&& exists|k: nat| w.capacity == 8192 * #[trigger] pow2(k)
            }
        }),
{
    let end = (atlas.data.len() + words.len()) as int / 2;
    assert(end == (atlas.data + words).len() as int / 2);
    assert(doubled(atlas.capacity as int));
    if end > atlas.capacity {
        lemma_limit(atlas.capacity as int, end);
        lemma_grown(atlas.capacity as int, end);
        let g = grown(atlas.capacity as int, end);
        let j = choose|j: nat| g == INITIAL_BUFFER_CAPACITY * #[trigger] pow2(j);
        assert(g == 8192 * pow2(j));
    }
}

proof fn lemma_limit(capacity: int, end: int)
    requires
        capacity < end <= 0x8000_0000,
    ensures
        capacity <= MAX_BUFFER_TEXELS,
        end <= MAX_BUFFER_TEXELS,
{
}

/// Whether bytes hold words, lowest or highest byte first, up to their sign.
pub open spec fn bytes_hold(bytes: Seq<u8>, words: Seq<i32>, little: bool) -> bool {
    forall|i: int|
        0 <= i < words.len() ==> (word_at(bytes, 4 * i, little) - #[trigger] words[i])
            % 0x1_0000_0000 == 0
}

/// What is flushed is what the device lacks: the words behind those it has, four
/// bytes each. With eight bytes for a texel, each lies on the device where it
/// lies in the atlas.
pub proof fn lemma_flushed_bytes(atlas: AtlasState, bytes: Seq<u8>)
    requires
        in_memory(pending_words(atlas), bytes),
        2 * atlas.flushed <= atlas.data.len(),
    ensures
        bytes.len() == 4 * (atlas.data.len() - 2 * atlas.flushed),
        bytes_hold(bytes, atlas.data.skip(2 * atlas.flushed), true) || bytes_hold(
            bytes,
            atlas.data.skip(2 * atlas.flushed),
            false,
        ),
{
    let rest = atlas.data.skip(2 * atlas.flushed);
    let words = pending_words(atlas);
    let little = lemma_read_in_order(words, bytes);
    assert(words.len() == rest.len());
    assert forall|i: int| 0 <= i < rest.len() implies (word_at(bytes, 4 * i, little)
        - #[trigger] rest[i]) % 0x1_0000_0000 == 0 by {
        lemma_flushed_word(atlas, bytes, little, i);
    }
}

proof fn lemma_flushed_word(atlas: AtlasState, bytes: Seq<u8>, little: bool, i: int)
    requires
        read_in_order(pending_words(atlas), bytes, little),
        0 <= i < atlas.data.len() - 2 * atlas.flushed,
    ensures
        (word_at(bytes, 4 * i, little) - atlas.data[2 * atlas.flushed + i]) % 0x1_0000_0000 == 0,
{
    lemma_word_read(pending_words(atlas), bytes, little, i);
    lemma_signed_unsigned(atlas.data[2 * atlas.flushed + i], 0);
}

/// A blob is refused exactly when it has more texels than sixteen bits count, or
/// when it does not fit the buffer and a buffer that holds it would take more
/// bytes than the device allows, at eight bytes a texel.
pub proof fn lemma_refused_blobs(atlas: AtlasState, texels: int, max_bytes: u64)
    ensures
        blob_refused(atlas, texels, max_bytes) <==> texels > 65535 || ({
            let end = atlas.data.len() as int / 2 + texels;
            end > atlas.capacity && 8 * end > max_bytes
        }),
{
}

/// The entry of a glyph names the texel at which its blob begins and its last band
/// on each axis, and keeps its transform, its bounds and its units.
pub proof fn lemma_entry_of_glyph(
    outline: GlyphOutline,
    geometry: BandGeometry,
    band_count_x: u32,
    band_count_y: u32,
    units_per_em: Scalar,
    offset: u32,
)
    ensures
        ({
            let e = placed_entry(
                outline,
                geometry,
                band_count_x,
                band_count_y,
                units_per_em,
                offset as int,
            );
            &&& e.band_offset == offset
            &&& band_count_x > 0 ==> e.band_max_x + 1 == band_count_x
            &&& band_count_y > 0 ==> e.band_max_y + 1 == band_count_y
            &&& band_count_x == 0 ==> e.band_max_x == 0
            &&& band_count_y == 0 ==> e.band_max_y == 0
            &&& e.band_transform.scale_x == geometry.transform.scale_x
            &&& e.band_transform.scale_y == geometry.transform.scale_y
            &&& e.band_transform.offset_x == geometry.transform.offset_x
            &&& e.band_transform.offset_y == geometry.transform.offset_y
            &&& e.bounds.min_x == outline.bounds.min_x && e.bounds.min_y == outline.bounds.min_y
            &&& e.bounds.max_x == outline.bounds.max_x && e.bounds.max_y == outline.bounds.max_y
            &&& e.units_per_em == units_per_em
            &&& e.last_used_epoch == 0
        }),
{
}

/// An entry without an outline has no extent and was never used.
pub proof fn lemma_entry_without_outline(offset: u32)
    ensures
        ({
            let e = sentinel(offset);
            &&& e.band_offset == offset
            &&& e.band_max_x == 0 && e.band_max_y == 0
            &&& e.bounds.min_x.bits == 0 && e.bounds.min_y.bits == 0
            &&& e.bounds.max_x.bits == 0 && e.bounds.max_y.bits == 0
            &&& e.units_per_em.bits == 0x447a_0000
            &&& e.last_used_epoch == 0
        }),
{
}

/// An atlas is reset exactly when its buffer has grown beyond 8192 texels and
/// fewer than a quarter of its glyphs are in use.
pub proof fn lemma_when_atlas_is_reset(atlas: AtlasState)
    ensures
        reset_due(atlas) <==> atlas.capacity > 8192 && 4 * atlas.glyphs.used()
            < atlas.glyphs@.dom().len(),
{
}

/// A reset leaves nothing behind, at the initial size, and what was prepared
/// before it can tell by the generation.
pub proof fn lemma_reset_leaves_nothing(before: AtlasState, after: AtlasState, key: GlyphKey)
    requires
        atlas_reset(before, after),
    ensures
        after.id == before.id,
        after.capacity == 8192,
        after.data.len() == 0 && after.flushed == 0,
        after.glyphs.used() == 0,
        !after.glyphs@.contains_key(key),
        !after.color_glyphs.contains_key(key),
        !after.color_v1_glyphs.contains_key(key),
        !after.border_offsets.contains_key(key),
        (after.generation - before.generation - 1) % 0x1_0000_0000 == 0,
{
}

/// Frames are numbered on; after the last number comes 1, because 0 stands for a
/// glyph that was never used.
pub proof fn lemma_frames_are_numbered(epoch: u32)
    ensures
        next_epoch(epoch) > 0,
        epoch < u32::MAX ==> next_epoch(epoch) == epoch + 1,
        epoch == u32::MAX ==> next_epoch(epoch) == 1,
{
}

/// A new frame keeps every glyph where it is, and no glyph is in use.
pub proof fn lemma_new_frame(before: AtlasState, after: AtlasState, key: GlyphKey)
    requires
        frame_advanced(before, after),
    ensures
        after.glyphs.used() == 0,
        after.glyphs@.contains_key(key) == before.glyphs@.contains_key(key),
        before.glyphs@.contains_key(key) ==> same_but_for_use(
            after.glyphs@[key],
            before.glyphs@[key],
        ),
        after.data == before.data && after.capacity == before.capacity,
        after.flushed == before.flushed && after.generation == before.generation,
        after.color_glyphs == before.color_glyphs,
        after.color_v1_glyphs == before.color_v1_glyphs,
        after.border_offsets == before.border_offsets,
{
}

/// Using a glyph changes nothing of it but the frame of its last use.
pub proof fn lemma_using_a_glyph(entry: GlyphEntry, epoch: u32)
    ensures
        same_but_for_use(used_in(entry, epoch), entry),
        used_in(entry, epoch).last_used_epoch == epoch,
{
}

/// Looking a glyph up marks it as used in this frame, if it is there, and counts it
/// unless it was used in this frame before. No other glyph is touched.
pub proof fn lemma_glyph_is_marked(
    before: GlyphMap,
    after: GlyphMap,
    key: GlyphKey,
    other: GlyphKey,
)
    requires
        glyph_marked(before, after, key),
    ensures
        after.epoch() == before.epoch(),
        after@.contains_key(key) == before@.contains_key(key),
        before@.contains_key(key) ==> {
            &&& after@[key].last_used_epoch == before.epoch()
            &&& same_but_for_use(after@[key], before@[key])
            &&& after.used() == before.used() + if before@[key].last_used_epoch == before.epoch() {
                0int
            } else {
                1
            }
        },
        !before@.contains_key(key) ==> after.used() == before.used(),
        other != key ==> after@.contains_key(other) == before@.contains_key(other) && (
        before@.contains_key(other) ==> after@[other] == before@[other]),
{
}

/// An outline that commands draw has as many bands on each axis as it has curves,
/// but at least one and at most sixteen.
pub proof fn lemma_bands_of_sub_outline(outline: GlyphOutline)
    ensures
        1 <= sub_band_count(outline) <= 16,
        1 <= outline.curves.len() <= 16 ==> sub_band_count(outline) == outline.curves.len(),
        outline.curves.len() > 16 ==> sub_band_count(outline) == 16,
{
}

/// In front of such an outline stand its last band on each axis and its band
/// transform.
pub proof fn lemma_header_of_sub_outline(geometry: BandGeometry, band_count: u32)
    requires
        1 <= band_count <= 16,
    ensures
        ({
            let w = sub_header(geometry, band_count);
            &&& w.len() == 6
            &&& low_half(w[0]) + 1 == band_count
            &&& high_half(w[0]) + 1 == band_count
            &&& w[1] == 0
            &&& (w[2] - geometry.transform.scale_x.bits) % 0x1_0000_0000 == 0
            &&& (w[3] - geometry.transform.scale_y.bits) % 0x1_0000_0000 == 0
            &&& (w[4] - geometry.transform.offset_x.bits) % 0x1_0000_0000 == 0
            &&& (w[5] - geometry.transform.offset_y.bits) % 0x1_0000_0000 == 0
        }),
{
    let m = (band_count - 1) as i16;
    lemma_packed_halves(m, m);
    let word = sub_header(geometry, band_count)[0] as int;
    assert(word == 65536 * m + m) by {
        assert(word / 65536 == m);
        assert((word - m) % 65536 == 0);
    }
    assert((word + 32768) % 65536 == m + 32768);
    lemma_signed_unsigned(0, geometry.transform.scale_x.bits);
    lemma_signed_unsigned(0, geometry.transform.scale_y.bits);
    lemma_signed_unsigned(0, geometry.transform.offset_x.bits);
    lemma_signed_unsigned(0, geometry.transform.offset_y.bits);
}

/// The words of such an outline are its header and, behind it, its blob.
pub proof fn lemma_words_of_sub_outline(outline: GlyphOutline, geometry: BandGeometry)
    ensures
        ({
            let count = sub_band_count(outline);
            let w = sub_blob(outline, geometry);
            &&& w.take(6) == sub_header(geometry, count)
            &&& w.skip(6) == mono_blob(outline, geometry, count, count)
            &&& w.len() == 6 + 2 * mono_texels(outline, geometry, count, count)
        }),
{
    reveal(sub_blob);
    let count = sub_band_count(outline);
    let w = sub_blob(outline, geometry);
    lemma_blob_length(outline, geometry, count, count);
    assert(w.take(6) =~= sub_header(geometry, count));
    assert(w.skip(6) =~= mono_blob(outline, geometry, count, count));
}

/// The first outline lies right behind the commands, which take two texels each;
/// every other one lies right behind the outline before it.
pub proof fn lemma_places_of_sub_outlines(
    v1: ColorV1Data,
    geometries: Seq<BandGeometry>,
    i: int,
)
    requires
        0 <= i < v1.sub_glyphs.len(),
    ensures
        sub_offset(v1, geometries, 0) == 2 * v1.commands.len(),
        ({
            let outline = v1.sub_glyphs@[i].outline;
            let count = sub_band_count(outline);
            sub_offset(v1, geometries, i + 1) == sub_offset(v1, geometries, i) + 3 + mono_texels(
                outline,
                geometries[i],
                count,
                count,
            )
        }),
{
    let subs = v1.sub_glyphs@;
    lemma_words_of_sub_outline(subs[i].outline, geometries[i]);
    lemma_even(subs, geometries, i as nat);
    let before = sub_blobs(subs, geometries, i as nat);
    let after = sub_blobs(subs, geometries, (i + 1) as nat);
    assert(after == before + sub_blob(subs[i].outline, geometries[i]));
}

proof fn lemma_even(subs: Seq<ColorV1SubGlyph>, geometries: Seq<BandGeometry>, n: nat)
    ensures
        sub_blobs(subs, geometries, n).len() % 2 == 0,
    decreases n,
{
    if n > 0 {
        lemma_even(subs, geometries, (n - 1) as nat);
        lemma_words_of_sub_outline(subs[n - 1].outline, geometries[n - 1]);
    }
}

/// A colour glyph begins with its commands, four words each, and an outline that
/// its commands draw is found at its place.
pub proof fn lemma_words_of_color_glyph(
    v1: ColorV1Data,
    geometries: Seq<BandGeometry>,
    i: int,
    k: int,
)
    requires
        0 <= i < v1.commands.len(),
        0 <= k < v1.sub_glyphs.len(),
    ensures
        ({
            let w = v1_blob(v1, geometries);
            let c = placed_commands(v1, geometries)[i];
            let at = 2 * sub_offset(v1, geometries, k);
            let sub = sub_blob(v1.sub_glyphs@[k].outline, geometries[k]);
            &&& placed_commands(v1, geometries).len() == v1.commands.len()
            &&& w[4 * i] == c.opcode
            &&& w[4 * i + 1] == c.x
            &&& w[4 * i + 2] == c.y
            &&& w[4 * i + 3] == c.z
            &&& 4 * v1.commands.len() <= at
            &&& at + sub.len() <= w.len()
            &&& w.subrange(at, at + sub.len()) == sub
        }),
{
    let placed = placed_commands(v1, geometries);
    let words = command_words(placed);
    let subs = v1.sub_glyphs@;
    let all = sub_blobs(subs, geometries, subs.len());
    let w = v1_blob(v1, geometries);
    assert(words.len() == 4 * v1.commands.len());
    assert((4 * i) / 4 == i && (4 * i) % 4 == 0);
    assert((4 * i + 1) / 4 == i && (4 * i + 1) % 4 == 1);
    assert((4 * i + 2) / 4 == i && (4 * i + 2) % 4 == 2);
    assert((4 * i + 3) / 4 == i && (4 * i + 3) % 4 == 3);
    assert(w[4 * i] == words[4 * i] && w[4 * i + 1] == words[4 * i + 1]);
    assert(w[4 * i + 2] == words[4 * i + 2] && w[4 * i + 3] == words[4 * i + 3]);
    lemma_sub_found(subs, geometries, subs.len(), k);
    lemma_even(subs, geometries, k as nat);
    let from = sub_blobs(subs, geometries, k as nat).len() as int;
    let sub = sub_blob(subs[k].outline, geometries[k]);
    let at = 2 * sub_offset(v1, geometries, k);
    assert(at == words.len() + from);
    assert(w.subrange(at, at + sub.len()) =~= all.subrange(from, from + sub.len()));
}

proof fn lemma_sub_found(
    subs: Seq<ColorV1SubGlyph>,
    geometries: Seq<BandGeometry>,
    n: nat,
    k: int,
)
    requires
        0 <= k < n,
    ensures
        ({
            let from = sub_blobs(subs, geometries, k as nat).len() as int;
            let sub = sub_blob(subs[k].outline, geometries[k]);
            let all = sub_blobs(subs, geometries, n);
            &&& from + sub.len() <= all.len()
            &&& all.subrange(from, from + sub.len()) == sub
        }),
    decreases n,
{
    let from = sub_blobs(subs, geometries, k as nat).len() as int;
    let sub = sub_blob(subs[k].outline, geometries[k]);
    let all = sub_blobs(subs, geometries, n);
    let before = sub_blobs(subs, geometries, (n - 1) as nat);
    if k < n - 1 {
        lemma_sub_found(subs, geometries, (n - 1) as nat, k);
        assert(all.subrange(from, from + sub.len()) =~= before.subrange(from, from + sub.len()));
    } else {
        assert(all.subrange(from, from + sub.len()) =~= sub);
    }
}

/// Placing a colour glyph makes each command that draws an outline name the texel
/// of that outline, where there is such an outline, and changes nothing else.
pub proof fn lemma_commands_are_placed(
    v1: ColorV1Data,
    geometries: Seq<BandGeometry>,
    i: int,
)
    requires
        0 <= i < v1.commands.len(),
    ensures
        ({
            let c = v1.commands@[i];
            let p = placed_commands(v1, geometries)[i];
            let named = is_draw(v1.commands@, i) && 0 <= c.x < v1.sub_glyphs.len();
            &&& p.opcode == c.opcode && p.y == c.y && p.z == c.z
            &&& !named ==> p.x == c.x
            &&& named && sub_offset(v1, geometries, c.x as int) <= i32::MAX ==> p.x == sub_offset(
                v1,
                geometries,
                c.x as int,
            )
        }),
{
}

/// Bounds that take in others reach as far as either on every side, and no
/// farther.
pub proof fn lemma_united_bounds(a: Bounds, b: Bounds)
    requires
        !a.min_x.nan() && !a.min_y.nan() && !a.max_x.nan() && !a.max_y.nan(),
    ensures
        united(a, b).min_x == if b.min_x.less(a.min_x) {
            b.min_x
        } else {
            a.min_x
        },
        united(a, b).min_y == if b.min_y.less(a.min_y) {
            b.min_y
        } else {
            a.min_y
        },
        united(a, b).max_x == if a.max_x.less(b.max_x) {
            b.max_x
        } else {
            a.max_x
        },
        united(a, b).max_y == if a.max_y.less(b.max_y) {
            b.max_y
        } else {
            a.max_y
        },
{
}

/// Whether no side of `inner` reaches beyond `outer`.
pub open spec fn encloses(outer: Bounds, inner: Bounds) -> bool {
    &&& !inner.min_x.less(outer.min_x) && !inner.min_y.less(outer.min_y)
    &&& !outer.max_x.less(inner.max_x) && !outer.max_y.less(inner.max_y)
}

/// The bounds of a colour glyph enclose those of all of its outlines.
pub proof fn lemma_bounds_enclose_outlines(subs: Seq<ColorV1SubGlyph>, n: nat, i: int)
    requires
        0 <= i < n <= subs.len(),
    ensures
        encloses(union_bounds(subs, n), subs[i].outline.bounds),
    decreases n,
{
    lemma_union_numeric(subs, n);
    lemma_union_numeric(subs, (n - 1) as nat);
    lemma_united_bounds(union_bounds(subs, (n - 1) as nat), subs[n - 1].outline.bounds);
    if i < n - 1 {
        lemma_bounds_enclose_outlines(subs, (n - 1) as nat, i);
    }
}

proof fn lemma_union_numeric(subs: Seq<ColorV1SubGlyph>, n: nat)
    ensures
        ({
            let b = union_bounds(subs, n);
            !b.min_x.nan() && !b.min_y.nan() && !b.max_x.nan() && !b.max_y.nan()
        }),
        union_bounds(subs, 0) == no_bounds(),
    decreases n,
{
    if n > 0 {
        lemma_union_numeric(subs, (n - 1) as nat);
    }
}

/// Keys are ordered by their font first, then by their glyph, their weight and
/// their flags.
pub proof fn lemma_order_of_keys(a: GlyphKey, b: GlyphKey)
    ensures
        a.font_id < b.font_id ==> a.before(b),
        a.font_id == b.font_id && a.glyph_id < b.glyph_id ==> a.before(b),
        a.font_id == b.font_id && a.glyph_id == b.glyph_id && a.font_weight < b.font_weight
            ==> a.before(b),
        a.font_id == b.font_id && a.glyph_id == b.glyph_id && a.font_weight == b.font_weight
            && a.cache_key_flags < b.cache_key_flags ==> a.before(b),
        a.before(b) ==> a != b && !b.before(a),
        a.before(b) || b.before(a) || a == b,
{
}

/// The distinct keys of a list are all of its keys, each once and in order.
pub proof fn lemma_distinct_keys(list: Seq<GlyphKey>, keys: Seq<GlyphKey>, key: GlyphKey)
    requires
        distinct_of(list, keys),
    ensures
        list.contains(key) <==> keys.contains(key),
        list.no_duplicates(),
        forall|i: int, j: int|
            0 <= i < j < list.len() ==> (#[trigger] list[i]).before(#[trigger] list[j]),
        ascending(list),
{
    assert forall|i: int, j: int| 0 <= i < j < list.len() implies #[trigger] list[i]
        != #[trigger] list[j] by {
        assert(list[i].before(list[j]));
        lemma_order_of_keys(list[i], list[j]);
    }
}

/// The number of glyphs in use is the number of those whose last use was in the
/// current frame.
pub proof fn lemma_glyphs_in_use(m: GlyphMap)
    requires
        m.wf(),
    ensures
        m.used() == m@.dom().filter(|k: GlyphKey| m@[k].last_used_epoch == m.epoch()).len(),
        m.used() <= m@.dom().len(),
{
    m.lemma_counts_used();
}

/// The words of an atlas from the texel of an entry on.
pub open spec fn words_from(atlas: AtlasState, entry: GlyphEntry, count: int) -> Seq<i32> {
    atlas.data.subrange(2 * entry.band_offset, 2 * entry.band_offset + count)
}

/// A glyph that was uploaded is found again from its entry: whoever walks a band of
/// it in the atlas meets the curves of the band with their quantized points.
pub proof fn lemma_uploaded_glyph_is_found(
    atlas: AtlasState,
    outline: GlyphOutline,
    geometry: BandGeometry,
    band_count_x: u32,
    band_count_y: u32,
    units_per_em: Scalar,
    k: int,
    p: int,
)
    requires
        atlas.data.len() % 2 == 0,
        atlas.data.len() <= 2 * 0x8000_0000int,
        0 <= k < band_count_x + band_count_y,
        outline.curves.len() < 32768,
        mono_texels(outline, geometry, band_count_x, band_count_y) < 65536,
        outline_quantizable(outline),
        0 <= p < outline_bands(outline, geometry, band_count_x, band_count_y)[k].falling.len(),
        p < outline_bands(outline, geometry, band_count_x, band_count_y)[k].rising.len(),
    ensures
        ({
            let blob = mono_blob(outline, geometry, band_count_x, band_count_y);
            let entry = placed_entry(
                outline,
                geometry,
                band_count_x,
                band_count_y,
                units_per_em,
                atlas.cursor(),
            );
            let w = words_from(atlas.appended(blob), entry, blob.len() as int);
            let band = outline_bands(outline, geometry, band_count_x, band_count_y)[k];
            let falling = high_half(w[2 * k]) + 32768;
            let rising = low_half(w[2 * k + 1]) + 32768;
            &&& 2 * entry.band_offset == atlas.data.len()
            &&& low_half(w[2 * k]) == band.falling.len()
            &&& high_half(w[2 * k + 1]) == band.split
            &&& holds_curve(
                w,
                low_half(w[2 * (falling + p)]) + 32768,
                outline.curves@[band.falling[p] as int],
            )
            &&& holds_curve(
                w,
                low_half(w[2 * (rising + p)]) + 32768,
                outline.curves@[band.rising[p] as int],
            )
        }),
{
    let blob = mono_blob(outline, geometry, band_count_x, band_count_y);
    let entry = placed_entry(
        outline,
        geometry,
        band_count_x,
        band_count_y,
        units_per_em,
        atlas.cursor(),
    );
    lemma_append_places_blob(atlas, blob);
    assert(words_from(atlas.appended(blob), entry, blob.len() as int) == blob);
    lemma_blob_is_walked(outline, geometry, band_count_x, band_count_y, k, p);
}

} // verus!
