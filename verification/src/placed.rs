//! Where the blobs of an atlas lie: no two glyphs share a place, so the place of
//! an instance tells which glyph it draws, and only plain glyphs get borders.

use crate::area_cache::CachedTextArea;
use crate::band::BandGeometry;
use crate::border::{border_of, bordered_key, borders_at, borders_of};
use crate::colr::ColorV1Data;
use crate::emit::{
    item_keys, item_ready, nothing_emitted, AreaStyle, EmissionView, WorkItem,
};
use crate::glyph_cache::{
    ColorGlyphEntry, ColorGlyphLayer, ColorV1GlyphEntry, GlyphEntry, GlyphKey,
};
use crate::instance::GlyphInstance;
use crate::outline::{GlyphOutline, Rgba};
use crate::prep::{lemma_blob_length, lemma_mono_texels, mono_blob};
use crate::text_atlas::{command_words, frame_advanced, placed_commands, v1_blob, AtlasState};
use crate::text_renderer::{
    area_laid_out, area_refreshed, keys_marked, marked_glyphs, AreaPlan,
};
use vstd::prelude::*;

verus! {

/// Whether an entry names no blob, or one that begins in a range of texels.
pub open spec fn entry_in(entry: GlyphEntry, from: int, to: int) -> bool {
    entry.mono() ==> from <= entry.band_offset < to
}

/// Whether a layer has no outline, or one that begins in a range of texels.
pub open spec fn layer_in(layer: ColorGlyphLayer, from: int, to: int) -> bool {
    layer.entry.band_offset == u32::MAX || (layer.entry.mono() && entry_in(
        layer.entry,
        from,
        to,
    ))
}

/// Whether all glyphs of an atlas begin at texels in use.
pub open spec fn blobs_placed(atlas: AtlasState) -> bool {
    &&& forall|k: GlyphKey| #[trigger]
        atlas.glyphs@.contains_key(k) ==> entry_in(atlas.glyphs@[k], 0, atlas.cursor())
    &&& forall|k: GlyphKey, i: int|
        atlas.color_glyphs.contains_key(k) && 0 <= i < atlas.color_glyphs[k].layers@.len()
            ==> layer_in(#[trigger] atlas.color_glyphs[k].layers@[i], 0, atlas.cursor())
    &&& forall|k: GlyphKey| #[trigger]
        atlas.color_v1_glyphs.contains_key(k) ==> atlas.color_v1_glyphs[k].blob_offset
            < atlas.cursor()
}

/// Whether a plain glyph of an atlas begins at `offset`.
pub open spec fn plain_at(atlas: AtlasState, key: GlyphKey, offset: u32) -> bool {
    atlas.glyphs@.contains_key(key) && atlas.glyphs@[key].mono() && atlas.glyphs@[key].band_offset
        == offset
}

/// Whether no plain glyph of an atlas begins where another glyph, a layer or a
/// command sequence does.
pub open spec fn blobs_apart(atlas: AtlasState) -> bool {
    &&& blobs_placed(atlas)
    &&& forall|j: GlyphKey, k: GlyphKey, offset: u32|
        #[trigger] plain_at(atlas, j, offset) && #[trigger] plain_at(atlas, k, offset) ==> j == k
    &&& forall|j: GlyphKey, k: GlyphKey, i: int, offset: u32|
        #![trigger plain_at(atlas, j, offset), atlas.color_glyphs[k].layers@[i]]
        atlas.color_glyphs.contains_key(k) && 0 <= i < atlas.color_glyphs[k].layers@.len()
            && plain_at(atlas, j, offset) ==> atlas.color_glyphs[k].layers@[i].entry.band_offset
            != offset
    &&& forall|j: GlyphKey, k: GlyphKey, offset: u32|
        #![trigger plain_at(atlas, j, offset), atlas.color_v1_glyphs.contains_key(k)]
        atlas.color_v1_glyphs.contains_key(k) && plain_at(atlas, j, offset)
            ==> atlas.color_v1_glyphs[k].blob_offset != offset
}

/// An atlas without glyphs, such as a new one or one that was reset.
pub proof fn lemma_empty_apart(atlas: AtlasState)
    requires
        atlas.glyphs@ == Map::<GlyphKey, GlyphEntry>::empty(),
        atlas.color_glyphs == Map::<GlyphKey, ColorGlyphEntry>::empty(),
        atlas.color_v1_glyphs == Map::<GlyphKey, ColorV1GlyphEntry>::empty(),
    ensures
        blobs_apart(atlas),
{
}

/// Whether two atlases have the same glyphs in the same places, and texels in use
/// stay in use.
pub open spec fn same_places(before: AtlasState, after: AtlasState) -> bool {
    &&& after.glyphs@.dom() == before.glyphs@.dom()
    &&& forall|k: GlyphKey| #[trigger]
        before.glyphs@.contains_key(k) ==> after.glyphs@[k].band_offset
            == before.glyphs@[k].band_offset
    &&& after.color_glyphs == before.color_glyphs
    &&& after.color_v1_glyphs == before.color_v1_glyphs
    &&& before.cursor() <= after.cursor()
}

/// Glyphs that stay in their places stay apart.
pub proof fn lemma_same_places_apart(before: AtlasState, after: AtlasState)
    requires
        blobs_apart(before),
        same_places(before, after),
    ensures
        blobs_apart(after),
{
    assert forall|k: GlyphKey| #[trigger] after.glyphs@.contains_key(k) implies entry_in(
        after.glyphs@[k],
        0,
        after.cursor(),
    ) by {
        assert(before.glyphs@.dom().contains(k));
        assert(entry_in(before.glyphs@[k], 0, before.cursor()));
    }
    assert forall|k: GlyphKey, i: int|
        after.color_glyphs.contains_key(k) && 0 <= i
            < after.color_glyphs[k].layers@.len() implies layer_in(
        #[trigger] after.color_glyphs[k].layers@[i],
        0,
        after.cursor(),
    ) by {
        assert(layer_in(before.color_glyphs[k].layers@[i], 0, before.cursor()));
    }
    assert forall|k: GlyphKey, offset: u32| #[trigger]
        plain_at(after, k, offset) implies plain_at(before, k, offset) by {
        assert(before.glyphs@.dom().contains(k));
        assert(before.glyphs@.contains_key(k));
    }
}

/// Starting a frame and marking glyphs as used leave every glyph in its place.
pub proof fn lemma_uses_keep_places(
    before: AtlasState,
    after: AtlasState,
    keys: Seq<GlyphKey>,
)
    requires
        frame_advanced(before, after) || keys_marked(before, after, keys),
    ensures
        same_places(before, after),
{
    if frame_advanced(before, after) {
        assert(after.glyphs@.dom() =~= before.glyphs@.dom());
    } else {
        lemma_marked_places(before.glyphs@, before.glyphs.epoch(), keys, keys.len());
    }
}

proof fn lemma_marked_places(
    glyphs: Map<GlyphKey, GlyphEntry>,
    epoch: u32,
    keys: Seq<GlyphKey>,
    n: nat,
)
    ensures
        marked_glyphs(glyphs, epoch, keys, n).dom() == glyphs.dom(),
        forall|k: GlyphKey| #[trigger]
            glyphs.contains_key(k) ==> marked_glyphs(glyphs, epoch, keys, n)[k].band_offset
                == glyphs[k].band_offset,
    decreases n,
{
    if n > 0 {
        lemma_marked_places(glyphs, epoch, keys, (n - 1) as nat);
        assert(marked_glyphs(glyphs, epoch, keys, n).dom() =~= glyphs.dom());
    }
}

/// Appending a blob leaves every glyph in its place.
pub proof fn lemma_append_keeps_places(atlas: AtlasState, words: Seq<i32>)
    ensures
        same_places(atlas, atlas.appended(words)),
        atlas.cursor() + words.len() as int / 2 <= atlas.appended(words).cursor(),
{
}

/// The entry of an upload begins behind everything that was uploaded before, and
/// before everything that is uploaded later.
pub proof fn lemma_upload_in(
    atlas: AtlasState,
    outline: GlyphOutline,
    geometry: BandGeometry,
    band_count_x: u32,
    band_count_y: u32,
    entry: GlyphEntry,
)
    requires
        band_count_x + band_count_y > 0,
        entry.band_offset == atlas.cursor() || !entry.mono(),
    ensures
        entry_in(
            entry,
            atlas.cursor(),
            atlas.appended(mono_blob(outline, geometry, band_count_x, band_count_y)).cursor(),
        ),
{
    let words = mono_blob(outline, geometry, band_count_x, band_count_y);
    lemma_blob_length(outline, geometry, band_count_x, band_count_y);
    lemma_mono_texels(outline, geometry, band_count_x, band_count_y);
    lemma_append_keeps_places(atlas, words);
}

/// The blob of a command sequence begins behind everything that was uploaded
/// before, and before everything that is uploaded later.
pub proof fn lemma_v1_upload_in(
    atlas: AtlasState,
    v1: ColorV1Data,
    geometries: Seq<BandGeometry>,
)
    requires
        v1.commands.len() > 0,
    ensures
        atlas.cursor() < atlas.appended(v1_blob(v1, geometries)).cursor(),
{
    lemma_append_keeps_places(atlas, v1_blob(v1, geometries));
    assert(command_words(placed_commands(v1, geometries)).len() == 4 * v1.commands.len());
}

/// Entries of different uploads begin at different texels.
pub proof fn lemma_uploads_differ(
    first: GlyphEntry,
    second: GlyphEntry,
    a: int,
    b: int,
    c: int,
    d: int,
)
    requires
        entry_in(first, a, b),
        entry_in(second, c, d),
        b <= c,
        first.mono(),
        second.mono(),
    ensures
        first.band_offset != second.band_offset,
{
}

/// Whether nothing entered the caches of an atlas between two states, while
/// blobs were appended.
pub open spec fn only_appended(start: AtlasState, now: AtlasState) -> bool {
    &&& now.glyphs == start.glyphs
    &&& now.color_glyphs == start.color_glyphs
    &&& now.color_v1_glyphs == start.color_v1_glyphs
    &&& start.cursor() <= now.cursor()
}

proof fn lemma_appended_apart(start: AtlasState, now: AtlasState)
    requires
        blobs_apart(start),
        only_appended(start, now),
    ensures
        blobs_apart(now),
        forall|k: GlyphKey, offset: u32| #[trigger]
            plain_at(now, k, offset) ==> offset < start.cursor(),
{
    lemma_same_places_apart(start, now);
    assert forall|k: GlyphKey, offset: u32| #[trigger] plain_at(now, k, offset) implies offset
        < start.cursor() by {
        assert(start.glyphs@.contains_key(k));
        assert(entry_in(start.glyphs@[k], 0, start.cursor()));
    }
}

/// A glyph that was uploaded since stays apart from all others once it is
/// cached.
pub proof fn lemma_glyph_apart(
    start: AtlasState,
    now: AtlasState,
    after: AtlasState,
    key: GlyphKey,
    entry: GlyphEntry,
)
    requires
        blobs_apart(start),
        only_appended(start, now),
        entry_in(entry, start.cursor(), now.cursor()),
        after == (AtlasState { glyphs: after.glyphs, ..now }),
        after.glyphs@ == now.glyphs@.insert(key, entry),
    ensures
        blobs_apart(after),
{
    lemma_appended_apart(start, now);
    assert forall|k: GlyphKey, offset: u32| #[trigger] plain_at(after, k, offset) implies (if k
        == key {
        start.cursor() <= offset && offset == entry.band_offset
    } else {
        plain_at(now, k, offset)
    }) by {}
    assert forall|j: GlyphKey, k: GlyphKey, i: int, offset: u32|
        #![trigger plain_at(after, j, offset), after.color_glyphs[k].layers@[i]]
        after.color_glyphs.contains_key(k) && 0 <= i < after.color_glyphs[k].layers@.len()
            && plain_at(after, j, offset) implies after.color_glyphs[k].layers@[i].entry.band_offset
        != offset by {
        assert(layer_in(start.color_glyphs[k].layers@[i], 0, start.cursor()));
        if j != key {
            assert(plain_at(now, j, offset));
        }
    }
    assert forall|k: GlyphKey, i: int|
        after.color_glyphs.contains_key(k) && 0 <= i
            < after.color_glyphs[k].layers@.len() implies layer_in(
        #[trigger] after.color_glyphs[k].layers@[i],
        0,
        after.cursor(),
    ) by {
        assert(layer_in(now.color_glyphs[k].layers@[i], 0, now.cursor()));
    }
}

/// Layers that were uploaded since stay apart from all plain glyphs once they
/// are cached.
pub proof fn lemma_layers_apart(
    start: AtlasState,
    now: AtlasState,
    key: GlyphKey,
    entry: ColorGlyphEntry,
)
    requires
        blobs_apart(start),
        only_appended(start, now),
        forall|i: int|
            0 <= i < entry.layers@.len() ==> layer_in(
                #[trigger] entry.layers@[i],
                start.cursor(),
                now.cursor(),
            ),
    ensures
        blobs_apart(
            AtlasState { color_glyphs: now.color_glyphs.insert(key, entry), ..now },
        ),
{
    let after = AtlasState { color_glyphs: now.color_glyphs.insert(key, entry), ..now };
    lemma_appended_apart(start, now);
    assert forall|k: GlyphKey, offset: u32| #[trigger]
        plain_at(after, k, offset) implies plain_at(now, k, offset) by {}
    assert forall|k: GlyphKey, i: int|
        after.color_glyphs.contains_key(k) && 0 <= i
            < after.color_glyphs[k].layers@.len() implies layer_in(
        #[trigger] after.color_glyphs[k].layers@[i],
        0,
        after.cursor(),
    ) by {
        if k == key {
            assert(layer_in(entry.layers@[i], start.cursor(), now.cursor()));
        } else {
            assert(layer_in(now.color_glyphs[k].layers@[i], 0, now.cursor()));
        }
    }
    assert forall|j: GlyphKey, k: GlyphKey, i: int, offset: u32|
        #![trigger plain_at(after, j, offset), after.color_glyphs[k].layers@[i]]
        after.color_glyphs.contains_key(k) && 0 <= i < after.color_glyphs[k].layers@.len()
            && plain_at(after, j, offset) implies after.color_glyphs[k].layers@[i].entry.band_offset
        != offset by {
        assert(plain_at(now, j, offset));
        if k == key {
            assert(layer_in(entry.layers@[i], start.cursor(), now.cursor()));
        } else {
            assert(now.color_glyphs[k].layers@[i].entry.band_offset != offset);
        }
    }
}

/// A command sequence that was uploaded since stays apart from all plain glyphs
/// once it is cached.
pub proof fn lemma_v1_apart(
    start: AtlasState,
    now: AtlasState,
    key: GlyphKey,
    entry: ColorV1GlyphEntry,
)
    requires
        blobs_apart(start),
        only_appended(start, now),
        start.cursor() <= entry.blob_offset < now.cursor(),
    ensures
        blobs_apart(
            AtlasState { color_v1_glyphs: now.color_v1_glyphs.insert(key, entry), ..now },
        ),
{
    let after = AtlasState { color_v1_glyphs: now.color_v1_glyphs.insert(key, entry), ..now };
    lemma_appended_apart(start, now);
    assert forall|k: GlyphKey, offset: u32| #[trigger]
        plain_at(after, k, offset) implies plain_at(now, k, offset) by {}
    assert forall|k: GlyphKey, i: int|
        after.color_glyphs.contains_key(k) && 0 <= i
            < after.color_glyphs[k].layers@.len() implies layer_in(
        #[trigger] after.color_glyphs[k].layers@[i],
        0,
        after.cursor(),
    ) by {
        assert(layer_in(now.color_glyphs[k].layers@[i], 0, now.cursor()));
    }
}

proof fn lemma_bordered_key_plain(
    atlas: AtlasState,
    keys: Seq<GlyphKey>,
    offset: u32,
    n: nat,
)
    requires
        n <= keys.len(),
    ensures
        bordered_key(atlas, keys, offset, n) matches Some(key) ==> plain_at(atlas, key, offset),
        bordered_key(atlas, keys, offset, n) is None ==> forall|i: int|
            0 <= i < n ==> !plain_at(atlas, #[trigger] keys[i], offset),
    decreases n,
{
    if n > 0 {
        lemma_bordered_key_plain(atlas, keys, offset, (n - 1) as nat);
        assert(borders_at(atlas, keys[n - 1], offset) == plain_at(atlas, keys[n - 1], offset));
    }
}

/// A layer of a colour glyph gets no border, whatever else an area shows.
pub proof fn lemma_layer_takes_no_border(
    atlas: AtlasState,
    keys: Seq<GlyphKey>,
    key: GlyphKey,
    i: int,
    instance: GlyphInstance,
)
    requires
        blobs_apart(atlas),
        atlas.color_glyphs.contains_key(key),
        0 <= i < atlas.color_glyphs[key].layers@.len(),
        instance.glyph_offset == atlas.color_glyphs[key].layers@[i].entry.band_offset,
    ensures
        border_of(atlas, keys, instance) is None,
{
    lemma_bordered_key_plain(atlas, keys, instance.glyph_offset, keys.len());
}

/// A colour glyph that is drawn by commands gets no border, whatever else an
/// area shows.
pub proof fn lemma_v1_takes_no_border(
    atlas: AtlasState,
    keys: Seq<GlyphKey>,
    key: GlyphKey,
    instance: GlyphInstance,
)
    requires
        blobs_apart(atlas),
        atlas.color_v1_glyphs.contains_key(key),
        instance.glyph_offset == atlas.color_v1_glyphs[key].blob_offset,
    ensures
        border_of(atlas, keys, instance) is None,
{
    lemma_bordered_key_plain(atlas, keys, instance.glyph_offset, keys.len());
}

/// A plain glyph of an area gets the border of its own.
pub proof fn lemma_plain_takes_its_border(
    atlas: AtlasState,
    keys: Seq<GlyphKey>,
    key: GlyphKey,
    instance: GlyphInstance,
)
    requires
        blobs_apart(atlas),
        keys.contains(key),
        plain_at(atlas, key, instance.glyph_offset),
    ensures
        border_of(atlas, keys, instance) == Some(
            GlyphInstance { glyph_offset: atlas.border_offsets[key], ..instance },
        ),
{
    lemma_bordered_key_plain(atlas, keys, instance.glyph_offset, keys.len());
    let i = choose|i: int| 0 <= i < keys.len() && keys[i] == key;
    assert(plain_at(atlas, keys[i], instance.glyph_offset));
}

proof fn lemma_borders_prefix(
    atlas: AtlasState,
    keys: Seq<GlyphKey>,
    a: Seq<GlyphInstance>,
    b: Seq<GlyphInstance>,
    n: nat,
)
    requires
        n <= a.len(),
        n <= b.len(),
        forall|i: int| 0 <= i < n ==> #[trigger] a[i] == b[i],
    ensures
        borders_of(atlas, keys, a, n) == borders_of(atlas, keys, b, n),
    decreases n,
{
    if n > 0 {
        lemma_borders_prefix(atlas, keys, a, b, (n - 1) as nat);
        assert(a[n - 1] == b[n - 1]);
    }
}

proof fn lemma_borders_push(
    atlas: AtlasState,
    keys: Seq<GlyphKey>,
    stream: Seq<GlyphInstance>,
    instance: GlyphInstance,
)
    ensures
        borders_of(atlas, keys, stream.push(instance), stream.len() + 1) == match border_of(
            atlas,
            keys,
            instance,
        ) {
            Some(border) => borders_of(atlas, keys, stream, stream.len()).push(border),
            None => borders_of(atlas, keys, stream, stream.len()),
        },
{
    lemma_borders_prefix(atlas, keys, stream, stream.push(instance), stream.len());
}

/// Whether the borders of an emission are those of its instances.
pub open spec fn borders_fit(e: EmissionView, atlas: AtlasState, keys: Seq<GlyphKey>) -> bool {
    e.borders == borders_of(atlas, keys, e.instances, e.instances.len())
}

proof fn lemma_layers_fit(
    e: EmissionView,
    atlas: AtlasState,
    keys: Seq<GlyphKey>,
    item: WorkItem,
    style: AreaStyle,
    n: nat,
)
    requires
        blobs_apart(atlas),
        atlas.color_glyphs.contains_key(item.key),
        n <= atlas.color_glyphs[item.key].layers@.len(),
        borders_fit(e, atlas, keys),
    ensures
        borders_fit(
            e.with_layers(item, style, atlas.color_glyphs[item.key].layers@, n),
            atlas,
            keys,
        ),
    decreases n,
{
    let layers = atlas.color_glyphs[item.key].layers@;
    if n > 0 {
        lemma_layers_fit(e, atlas, keys, item, style, (n - 1) as nat);
        let before = e.with_layers(item, style, layers, (n - 1) as nat);
        let after = e.with_layers(item, style, layers, n);
        if after.instances.len() > before.instances.len() {
            let added = after.instances.last();
            assert(after.instances == before.instances.push(added));
            lemma_layer_takes_no_border(atlas, keys, item.key, n - 1, added);
            lemma_borders_push(atlas, keys, before.instances, added);
        }
    }
}

/// The borders that an area gets from the cache are those that laying it out
/// gives: one for each plain glyph that is visible, and none for colour glyphs.
pub proof fn lemma_cached_borders_fit(
    e: EmissionView,
    atlas: AtlasState,
    keys: Seq<GlyphKey>,
    items: Seq<WorkItem>,
    style: AreaStyle,
    n: nat,
)
    requires
        blobs_apart(atlas),
        style.bordered,
        n <= items.len(),
        forall|i: int|
            0 <= i < items.len() ==> item_ready(atlas, #[trigger] items[i], true) && keys.contains(
                items[i].key,
            ),
        borders_fit(e, atlas, keys),
    ensures
        borders_fit(e.with_items(atlas, items, style, n), atlas, keys),
    decreases n,
{
    if n > 0 {
        lemma_cached_borders_fit(e, atlas, keys, items, style, (n - 1) as nat);
        let before = e.with_items(atlas, items, style, (n - 1) as nat);
        let item = items[n - 1];
        let after = before.with_item(atlas, item, style);
        let offset = atlas.glyphs@[item.key].band_offset;
        assert(item_ready(atlas, item, true) && keys.contains(item.key));
        if offset == u32::MAX - 1 {
            if atlas.color_glyphs.contains_key(item.key) {
                let layers = atlas.color_glyphs[item.key].layers@;
                lemma_layers_fit(before, atlas, keys, item, style, layers.len());
            }
        } else if after.instances.len() > before.instances.len() {
            let added = after.instances.last();
            assert(after.instances == before.instances.push(added));
            lemma_borders_push(atlas, keys, before.instances, added);
            if offset == u32::MAX - 2 {
                lemma_v1_takes_no_border(atlas, keys, item.key, added);
            } else {
                assert(plain_at(atlas, item.key, added.glyph_offset));
                lemma_plain_takes_its_border(atlas, keys, item.key, added);
            }
        }
    }
}

/// An area that is taken from the cache as it is keeps the borders that it was
/// laid out with, as long as border data stays where it is.
pub proof fn lemma_direct_hit_keeps_borders(
    before: CachedTextArea,
    after: CachedTextArea,
    atlas: AtlasState,
    plan: AreaPlan,
    items: Seq<WorkItem>,
    default_color: Rgba,
    all_runs_included: bool,
)
    requires
        blobs_apart(atlas),
        plan.border is Some,
        forall|i: int| 0 <= i < items.len() ==> item_ready(atlas, #[trigger] items[i], true),
        area_laid_out(before, atlas, plan, items, default_color, all_runs_included),
        area_refreshed(before, after, atlas, plan.border),
    ensures
        after.border_instances@ == before.border_instances@,
{
    let e = nothing_emitted(all_runs_included);
    let style = AreaStyle { default_color, bordered: true };
    let keys = before.distinct_keys@;
    assert forall|i: int| 0 <= i < items.len() implies item_ready(atlas, #[trigger] items[i], true)
        && keys.contains(items[i].key) by {
        assert(item_keys(items)[i] == items[i].key);
        assert(item_keys(items).contains(items[i].key));
    }
    lemma_cached_borders_fit(e, atlas, keys, items, style, items.len());
}

} // verus!
