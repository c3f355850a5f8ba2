//! What becomes of a text area: what of it is visible, what its glyphs emit, and
//! what is taken from the cache.

use crate::border::{
    border_of, bordered_key, borders_of, glyph_uses, instance_uses, no_capacity, takes_border,
    BorderCapacity, SizedGlyph,
};
use crate::bytes::signed;
use crate::culling::{
    clipped, first_hidden, first_visible, placement_class, reculled, PlacementClass,
};
use crate::emit::{item_keys, nothing_emitted, AreaStyle, Emission, EmissionView, WorkItem};
use crate::glyph_cache::{ColorGlyphLayer, GlyphEntry, GlyphKey};
use crate::instance::{GlyphInstance, Rect};
use crate::scalar::Scalar;
use crate::text_atlas::AtlasState;
use crate::types::{Resolution, TextBounds};
use vstd::prelude::*;

verus! {

/// The visible part of an area is where its bounds and the screen overlap: a
/// place lies in it exactly when it lies within the bounds and on the screen, and
/// each of its sides is one of theirs.
pub proof fn lemma_clip_is_intersection(
    bounds: TextBounds,
    resolution: Resolution,
    x: int,
    y: int,
)
    requires
        resolution.width <= i32::MAX,
        resolution.height <= i32::MAX,
    ensures
        ({
            let r = clipped(bounds, resolution);
            &&& r.len() == 4
            &&& r[0] <= x <= r[2] <==> bounds.left <= x <= bounds.right && 0 <= x
                <= resolution.width
            &&& r[1] <= y <= r[3] <==> bounds.top <= y <= bounds.bottom && 0 <= y
                <= resolution.height
            &&& r[0] >= bounds.left && r[0] >= 0 && (r[0] == bounds.left || r[0] == 0)
            &&& r[1] >= bounds.top && r[1] >= 0 && (r[1] == bounds.top || r[1] == 0)
            &&& r[2] <= bounds.right && r[2] <= resolution.width && (r[2] == bounds.right || r[2]
                == resolution.width)
            &&& r[3] <= bounds.bottom && r[3] <= resolution.height && (r[3] == bounds.bottom
                || r[3] == resolution.height)
        }),
{
}

/// On a screen that is too large for a signed number, its sides count as the
/// signed numbers with the same bits.
pub proof fn lemma_clip_on_any_screen(bounds: TextBounds, resolution: Resolution)
    ensures
        ({
            let r = clipped(bounds, resolution);
            let width = signed(resolution.width);
            let height = signed(resolution.height);
            &&& r[0] >= bounds.left && r[0] >= 0 && (r[0] == bounds.left || r[0] == 0)
            &&& r[1] >= bounds.top && r[1] >= 0 && (r[1] == bounds.top || r[1] == 0)
            &&& r[2] <= bounds.right && r[2] <= width && (r[2] == bounds.right || r[2] == width)
            &&& r[3] <= bounds.bottom && r[3] <= height && (r[3] == bounds.bottom || r[3]
                == height)
        }),
{
}

/// The lines that are laid out are the first block of visible ones: every line in
/// it is visible, none before it is, and neither is the one behind it. Where the
/// visible lines are one block, it holds all of them.
pub proof fn lemma_lines_laid_out(visible: Seq<bool>, i: int)
    requires
        0 <= i < visible.len(),
    ensures
        ({
            let start = first_visible(visible, 0);
            let end = first_hidden(visible, start);
            &&& 0 <= start <= end <= visible.len()
            &&& i < start ==> !visible[i]
            &&& start <= i < end ==> visible[i]
            &&& end < visible.len() ==> !visible[end]
            &&& start < visible.len() ==> visible[start] && start < end
            &&& (forall|a: int, b: int, c: int|
                #![trigger visible[a], visible[b], visible[c]]
                0 <= a < b < c < visible.len() && visible[a] && visible[c] ==> visible[b]) ==> (
            visible[i] <==> start <= i < end)
        }),
{
    lemma_first_visible(visible, 0);
    let start = first_visible(visible, 0);
    lemma_first_hidden(visible, start);
    let end = first_hidden(visible, start);
    if (forall|a: int, b: int, c: int|
        #![trigger visible[a], visible[b], visible[c]]
        0 <= a < b < c < visible.len() && visible[a] && visible[c] ==> visible[b]) && end <= i
        && visible[i] {
        assert(start < end);
        assert(visible[start]);
        if i > end {
            assert(visible[end]);
        }
    }
}

proof fn lemma_first_visible(visible: Seq<bool>, from: int)
    requires
        0 <= from <= visible.len(),
    ensures
        from <= first_visible(visible, from) <= visible.len(),
        forall|i: int| from <= i < first_visible(visible, from) ==> !visible[i],
        first_visible(visible, from) < visible.len() ==> visible[first_visible(visible, from)],
    decreases visible.len() - from,
{
    if from < visible.len() && !visible[from] {
        lemma_first_visible(visible, from + 1);
    }
}

proof fn lemma_first_hidden(visible: Seq<bool>, from: int)
    requires
        0 <= from <= visible.len(),
    ensures
        from <= first_hidden(visible, from) <= visible.len(),
        forall|i: int| from <= i < first_hidden(visible, from) ==> visible[i],
        first_hidden(visible, from) < visible.len() ==> !visible[first_hidden(visible, from)],
    decreases visible.len() - from,
{
    if from < visible.len() && visible[from] {
        lemma_first_hidden(visible, from + 1);
    }
}

/// A cached area is taken as it is exactly when it neither moved nor scrolled.
/// Otherwise it is culled anew only if nothing of it was left out, and then only
/// if it stands still or has no raster glyphs.
pub proof fn lemma_placements(still: bool, scroll: bool, complete: bool, raster: bool)
    ensures
        ({
            let class = placement_class(still, scroll, complete, raster);
            &&& class == PlacementClass::Direct <==> still && scroll
            &&& class == PlacementClass::ReCull ==> complete
            &&& class == PlacementClass::ReCull && raster ==> still
            &&& class == PlacementClass::Miss ==> !complete || (raster && !still)
        }),
{
}

/// How many of the first `n` flags are set.
pub open spec fn flags_set(flags: Seq<bool>, n: nat) -> nat
    decreases n,
{
    if n == 0 {
        0
    } else {
        flags_set(flags, (n - 1) as nat) + (if flags[n - 1] {
            1nat
        } else {
            0
        })
    }
}

/// Culling anew keeps the visible instances in their order, each at its new place
/// and otherwise as it was, and no other.
pub proof fn lemma_culling_keeps_visible(
    instances: Seq<GlyphInstance>,
    rects: Seq<Rect>,
    visible: Seq<bool>,
    n: nat,
    i: int,
)
    requires
        0 <= i < n,
    ensures
        ({
            let r = reculled(instances, rects, visible, n);
            let j = flags_set(visible, i as nat) as int;
            &&& r.len() == flags_set(visible, n)
            &&& visible[i] ==> {
                &&& j < r.len()
                &&& r[j].screen_rect == rects[i]
                &&& r[j].color == instances[i].color
                &&& r[j].glyph_offset == instances[i].glyph_offset
                &&& r[j].cmd_texel_count == instances[i].cmd_texel_count
                &&& r[j].depth == instances[i].depth
                &&& r[j].ppem == instances[i].ppem
            }
        }),
    decreases n,
{
    lemma_culled_length(instances, rects, visible, (n - 1) as nat);
    if i < n - 1 {
        lemma_culling_keeps_visible(instances, rects, visible, (n - 1) as nat, i);
    }
}

proof fn lemma_culled_length(
    instances: Seq<GlyphInstance>,
    rects: Seq<Rect>,
    visible: Seq<bool>,
    n: nat,
)
    ensures
        reculled(instances, rects, visible, n).len() == flags_set(visible, n),
    decreases n,
{
    if n > 0 {
        lemma_culled_length(instances, rects, visible, (n - 1) as nat);
    }
}

/// Whether an instance draws a glyph at a place, from a texel on, with the depth
/// and the size of the glyph.
pub open spec fn draws_item(i: GlyphInstance, item: WorkItem, rect: Rect, offset: u32) -> bool {
    &&& i.screen_rect == rect
    &&& i.glyph_offset == offset
    &&& i.depth == item.depth
    &&& i.ppem == item.ppem
}

/// Whether an instance has the colour of a glyph: its own, or that of the area.
pub open spec fn has_text_color(i: GlyphInstance, item: WorkItem, style: AreaStyle) -> bool {
    &&& item.color is Some ==> i.color == item.color->0
    &&& item.color is None ==> i.color == style.default_color
}

/// Whether one more instance stands behind those of an emission.
pub open spec fn one_more(before: Seq<GlyphInstance>, after: Seq<GlyphInstance>) -> bool {
    &&& after.len() == before.len() + 1
    &&& forall|i: int| 0 <= i < before.len() ==> #[trigger] after[i] == before[i]
}

/// A plain glyph that is visible emits one instance, and one border instance that
/// differs in its texel only where the area has a border. One that is not
/// visible emits nothing and leaves the area incomplete.
pub proof fn lemma_plain_glyph(
    e: EmissionView,
    atlas: AtlasState,
    item: WorkItem,
    style: AreaStyle,
)
    requires
        atlas.glyphs@[item.key].band_offset < 0xffff_fffd,
    ensures
        ({
            let w = e.with_item(atlas, item, style);
            let offset = atlas.glyphs@[item.key].band_offset;
            let rect = item.rects@[0].rect;
            let i = w.instances.last();
            let b = w.borders.last();
            &&& w.rasters == e.rasters
            &&& item.rects@[0].visible ==> {
                &&& one_more(e.instances, w.instances)
                &&& draws_item(i, item, rect, offset)
                &&& has_text_color(i, item, style)
                &&& i.cmd_texel_count == 0
                &&& w.complete == e.complete
                &&& style.bordered ==> {
                    &&& one_more(e.borders, w.borders)
                    &&& draws_item(b, item, rect, atlas.border_offsets[item.key])
                    &&& b.color == i.color && b.cmd_texel_count == 0
                }
                &&& !style.bordered ==> w.borders == e.borders
            }
            &&& !item.rects@[0].visible ==> {
                &&& w.instances == e.instances
                &&& w.borders == e.borders
                &&& !w.complete
            }
        }),
{
}

/// A colour glyph drawn by commands emits, where it is visible, one instance that
/// begins at its commands and says how many texels they take. It has no border.
pub proof fn lemma_commanded_glyph(
    e: EmissionView,
    atlas: AtlasState,
    item: WorkItem,
    style: AreaStyle,
)
    requires
        atlas.glyphs@[item.key].band_offset == 0xffff_fffd,
    ensures
        ({
            let w = e.with_item(atlas, item, style);
            let v1 = atlas.color_v1_glyphs[item.key];
            let i = w.instances.last();
            let drawn = atlas.color_v1_glyphs.contains_key(item.key) && item.rects@[0].visible;
            &&& w.borders == e.borders && w.rasters == e.rasters
            &&& drawn ==> {
                &&& one_more(e.instances, w.instances)
                &&& draws_item(i, item, item.rects@[0].rect, v1.blob_offset)
                &&& has_text_color(i, item, style)
                &&& i.cmd_texel_count == v1.cmd_count
                &&& w.complete == e.complete
            }
            &&& !drawn ==> w.instances == e.instances && !w.complete
        }),
{
}

/// A layer of a colour glyph that has an outline and is visible emits one
/// instance, in its own colour or in that of the text. One without an outline
/// emits nothing, and one that is not visible leaves the area incomplete.
pub proof fn lemma_layer(
    e: EmissionView,
    item: WorkItem,
    style: AreaStyle,
    layers: Seq<ColorGlyphLayer>,
    n: nat,
)
    ensures
        e.with_layers(item, style, layers, 0) == e,
        ({
            let v = e.with_layers(item, style, layers, n);
            let w = e.with_layers(item, style, layers, n + 1);
            let layer = layers[n as int];
            let placed = item.rects@[n as int];
            let i = w.instances.last();
            &&& w.borders == v.borders && w.rasters == v.rasters
            &&& layer.entry.band_offset == 0xffff_ffff ==> w == v
            &&& layer.entry.band_offset != 0xffff_ffff && placed.visible ==> {
                &&& one_more(v.instances, w.instances)
                &&& draws_item(i, item, placed.rect, layer.entry.band_offset)
                &&& layer.use_foreground ==> has_text_color(i, item, style)
                &&& !layer.use_foreground ==> i.color == layer.color
                &&& i.cmd_texel_count == 0
                &&& w.complete == v.complete
            }
            &&& layer.entry.band_offset != 0xffff_ffff && !placed.visible ==> w.instances
                == v.instances && !w.complete
        }),
{
}

/// A layered glyph emits all of its layers from the back to the front; one whose
/// layers are not known leaves the area incomplete.
pub proof fn lemma_layered_glyph(
    e: EmissionView,
    atlas: AtlasState,
    item: WorkItem,
    style: AreaStyle,
)
    requires
        atlas.glyphs@[item.key].band_offset == 0xffff_fffe,
    ensures
        ({
            let w = e.with_item(atlas, item, style);
            let layers = atlas.color_glyphs[item.key].layers@;
            &&& atlas.color_glyphs.contains_key(item.key) ==> w == e.with_layers(
                item,
                style,
                layers,
                layers.len(),
            )
            &&& !atlas.color_glyphs.contains_key(item.key) ==> w.instances == e.instances
                && w.borders == e.borders && w.rasters == e.rasters && !w.complete
        }),
{
}

/// A glyph without an outline is noted for the raster fallback, visible or not,
/// and emits nothing else.
pub proof fn lemma_raster_glyph(
    e: EmissionView,
    atlas: AtlasState,
    item: WorkItem,
    style: AreaStyle,
)
    requires
        atlas.glyphs@[item.key].band_offset == 0xffff_ffff,
    ensures
        ({
            let w = e.with_item(atlas, item, style);
            &&& w.rasters.len() == e.rasters.len() + 1
            &&& forall|i: int| 0 <= i < e.rasters.len() ==> #[trigger] w.rasters[i] == e.rasters[i]
            &&& w.rasters.last() == item.raster->0
            &&& w.instances == e.instances && w.borders == e.borders && w.complete == e.complete
        }),
{
}

/// An area emits its glyphs one after the other, from nothing on.
pub proof fn lemma_glyphs_in_order(
    e: EmissionView,
    atlas: AtlasState,
    items: Seq<WorkItem>,
    style: AreaStyle,
    n: nat,
    all_runs_included: bool,
)
    ensures
        e.with_items(atlas, items, style, 0) == e,
        e.with_items(atlas, items, style, n + 1) == e.with_items(atlas, items, style, n).with_item(
            atlas,
            items[n as int],
            style,
        ),
        nothing_emitted(all_runs_included).instances.len() == 0,
        nothing_emitted(all_runs_included).borders.len() == 0,
        nothing_emitted(all_runs_included).rasters.len() == 0,
        nothing_emitted(all_runs_included).complete == all_runs_included,
{
}

/// A glyph takes a border unless it has no outline, is made of layers or is drawn
/// by commands.
pub proof fn lemma_what_takes_a_border(entry: GlyphEntry)
    ensures
        takes_border(entry) <==> entry.band_offset != 0xffff_ffff && entry.band_offset
            != 0xffff_fffe && entry.band_offset != 0xffff_fffd,
{
}

/// Whether a key names a glyph that takes a border and begins at a texel.
pub open spec fn names_plain(atlas: AtlasState, key: GlyphKey, offset: u32) -> bool {
    &&& atlas.glyphs@.contains_key(key)
    &&& atlas.glyphs@[key].band_offset == offset
    &&& offset < 0xffff_fffd
}

/// The glyph behind an instance is the first of the keys that names a plain glyph
/// that begins where the instance does, if there is one.
pub proof fn lemma_glyph_behind_instance(
    atlas: AtlasState,
    keys: Seq<GlyphKey>,
    offset: u32,
    n: nat,
)
    requires
        n <= keys.len(),
    ensures
        match bordered_key(atlas, keys, offset, n) {
            Some(key) => exists|i: int|
                {
                    &&& 0 <= i < n
                    &&& #[trigger] keys[i] == key
                    &&& names_plain(atlas, key, offset)
                    &&& forall|j: int|
                        0 <= j < i ==> !names_plain(atlas, #[trigger] keys[j], offset)
                },
            None => forall|j: int| 0 <= j < n ==> !names_plain(atlas, #[trigger] keys[j], offset),
        },
    decreases n,
{
    if n > 0 {
        lemma_glyph_behind_instance(atlas, keys, offset, (n - 1) as nat);
        let last = keys[n - 1];
        if bordered_key(atlas, keys, offset, (n - 1) as nat) is None && names_plain(
            atlas,
            last,
            offset,
        ) {
            assert(bordered_key(atlas, keys, offset, n) == Some(last));
            assert(keys[n - 1] == last);
        }
    }
}

/// The borders of an area are those of its instances in their order: where the
/// glyph behind an instance takes one, the instance again, but for the texel at
/// which the border data of the glyph begins.
pub proof fn lemma_borders_of_instances(
    atlas: AtlasState,
    keys: Seq<GlyphKey>,
    instances: Seq<GlyphInstance>,
    n: nat,
)
    ensures
        borders_of(atlas, keys, instances, 0).len() == 0,
        ({
            let before = borders_of(atlas, keys, instances, n);
            let after = borders_of(atlas, keys, instances, n + 1);
            let i = instances[n as int];
            let b = after.last();
            match bordered_key(atlas, keys, i.glyph_offset, keys.len()) {
                Some(key) => {
                    &&& one_more(before, after)
                    &&& b.glyph_offset == atlas.border_offsets[key]
                    &&& b.screen_rect == i.screen_rect && b.color == i.color
                    &&& b.cmd_texel_count == i.cmd_texel_count
                    &&& b.depth == i.depth && b.ppem == i.ppem
                    &&& border_of(atlas, keys, i) == Some(b)
                },
                None => after == before && border_of(atlas, keys, i) is None,
            }
        }),
{
}

/// The border data of a glyph has to be good for the greatest size and, apart
/// from that, for the greatest radius of all of its uses, and for no more.
pub proof fn lemma_capacity_no_greater(c: BorderCapacity, ppem: Scalar, radius: Scalar)
    requires
        !c.ppem.nan() && !c.radius_units.nan(),
    ensures
        c.with(ppem, radius).ppem == if c.ppem.less(ppem) {
            ppem
        } else {
            c.ppem
        },
        c.with(ppem, radius).radius_units == if c.radius_units.less(radius) {
            radius
        } else {
            c.radius_units
        },
{
}

/// Each instance of a cached area whose glyph takes a border is one use of that
/// glyph, at the size of the instance.
pub proof fn lemma_uses_of_instances(
    atlas: AtlasState,
    keys: Seq<GlyphKey>,
    instances: Seq<GlyphInstance>,
    width: Scalar,
    n: nat,
)
    ensures
        instance_uses(atlas, keys, instances, width, 0).len() == 0,
        ({
            let before = instance_uses(atlas, keys, instances, width, n);
            let after = instance_uses(atlas, keys, instances, width, n + 1);
            let i = instances[n as int];
            let u = after.last();
            match bordered_key(atlas, keys, i.glyph_offset, keys.len()) {
                Some(key) => {
                    &&& after.len() == before.len() + 1
                    &&& forall|j: int| 0 <= j < before.len() ==> #[trigger] after[j] == before[j]
                    &&& u.key == key
                    &&& u.ppem == i.ppem
                    &&& u.units_per_em == atlas.glyphs@[key].units_per_em
                    &&& u.width == width
                },
                None => after == before,
            }
        }),
{
}

/// Each glyph of an area that is laid out anew is one use if it takes a border,
/// at its own size.
pub proof fn lemma_uses_of_glyphs(
    atlas: AtlasState,
    glyphs: Seq<SizedGlyph>,
    width: Scalar,
    n: nat,
)
    ensures
        glyph_uses(atlas, glyphs, width, 0).len() == 0,
        ({
            let before = glyph_uses(atlas, glyphs, width, n);
            let after = glyph_uses(atlas, glyphs, width, n + 1);
            let g = glyphs[n as int];
            let u = after.last();
            let entry = atlas.glyphs@[g.key];
            if atlas.glyphs@.contains_key(g.key) && entry.band_offset < 0xffff_fffd {
                &&& after.len() == before.len() + 1
                &&& forall|j: int| 0 <= j < before.len() ==> #[trigger] after[j] == before[j]
                &&& u.key == g.key
                &&& u.ppem == g.ppem
                &&& u.units_per_em == entry.units_per_em
                &&& u.width == width
            } else {
                after == before
            }
        }),
{
}

/// Before any use border data has to be good for nothing, and after the first one
/// for just that.
pub proof fn lemma_capacity_of_one_use(ppem: Scalar, radius: Scalar)
    requires
        ppem.finite() && ppem.bits < 0x8000_0000 && ppem.bits > 0,
        radius.finite() && radius.bits < 0x8000_0000 && radius.bits > 0,
    ensures
        no_capacity().with(ppem, radius).ppem == ppem,
        no_capacity().with(ppem, radius).radius_units == radius,
{
}

/// The keys of an area are those of its glyphs, one by one, and what it emits is
/// what is handed on.
pub proof fn lemma_keys_of_items(items: Seq<WorkItem>, i: int, e: Emission)
    requires
        0 <= i < items.len(),
    ensures
        item_keys(items).len() == items.len(),
        item_keys(items)[i] == items[i].key,
        e.view().instances == e.instances@,
        e.view().borders == e.border_instances@,
        e.view().rasters == e.non_vector_glyphs@,
        e.view().complete == e.complete,
{
}

} // verus!
