//! What a renderer does with a frame, step by step: what it plans, what it
//! emits, what it keeps and what it draws.

use crate::area_cache::{is_current, of_generation, AreaKey, CachedTextArea};
use crate::border::borders_of;
use crate::culling::PlacementClass;
use crate::emit::{item_keys, nothing_emitted, AreaStyle, WorkItem};
use crate::glyph_cache::{GlyphEntry, GlyphKey};
use crate::instance::Rect;
use crate::keys::distinct_of;
use crate::number_laws::lemma_border_width;
use crate::outline::Rgba;
use crate::scalar::Scalar;
use crate::text_atlas::AtlasState;
use crate::text_renderer::{
    area_class, area_draws, area_laid_out, area_plan, area_planned, area_reculled, area_refreshed,
    draw_call, drawable, frame_begun, frame_calls, frame_finished, fresh_renderer,
    has_room, keys_marked, known_prefix, marked_glyphs, planned_keys, unknown_keys, uses_begun,
    DrawCall, DrawMode, DrawStream, FrameUpload, OrderedDraw, Placement, RendererState,
};
use crate::types::{Resolution, TextArea};
use vstd::prelude::*;

verus! {

/// A renderer begins with nothing prepared and nothing cached.
pub proof fn lemma_renderer_begins(v: RendererState, atlas_id: u64)
    requires
        fresh_renderer(v, atlas_id),
    ensures
        v.atlas_id == atlas_id,
        v.instances.len() == 0 && v.borders.len() == 0 && v.rasters.len() == 0,
        v.draws.len() == 0 && v.uniforms.len() == 0 && v.plans.len() == 0,
        v.glyphs_to_render == 0 && v.raster_glyphs_to_render == 0,
        forall|k: AreaKey| !#[trigger] v.cache.contains_key(k),
        v.last_stats.direct_hits == 0 && v.last_stats.reculls == 0 && v.last_stats.misses == 0,
        forall|stride: u64| (#[trigger] frame_calls(v, stride)).len() == 0,
{
}

/// At the beginning of a frame nothing is planned, emitted or counted. The
/// streams become those of the frame before, and the cache is kept exactly if
/// the screen kept its size.
pub proof fn lemma_frame_begins(before: RendererState, after: RendererState, resolution: Resolution)
    requires
        frame_begun(before, after, resolution),
    ensures
        after.instances.len() == 0 && after.borders.len() == 0 && after.rasters.len() == 0,
        after.draws.len() == 0 && after.uniforms.len() == 0 && after.plans.len() == 0,
        after.missing.len() == 0 && after.emitted == 0,
        after.previous == before.instances,
        after.previous_borders == before.borders,
        after.stats.direct_hits == 0 && after.stats.reculls == 0 && after.stats.misses == 0,
        after.atlas_id == before.atlas_id,
        after.resolution == resolution,
        after.glyphs_to_render == before.glyphs_to_render,
        after.prepared_generation == before.prepared_generation,
        forall|b: u64| #[trigger] after.occurrences.count(b) == 0,
        resolution == before.resolution ==> after.cache == before.cache,
        resolution != before.resolution ==> forall|k: AreaKey| !#[trigger] after.cache.contains_key(
            k,
        ),
{
}

/// Whether what is cached of an area can serve for it: the text needs no redraw,
/// the scale, the bounds, the colour and the atlas are those it was cached with,
/// and the atlas has all of its glyphs.
pub open spec fn can_serve(c: CachedTextArea, atlas: AtlasState, area: TextArea) -> bool {
    &&& !area.redraw
    &&& c.scale.equal(area.scale)
    &&& c.bounds.left == area.bounds.left && c.bounds.top == area.bounds.top
    &&& c.bounds.right == area.bounds.right && c.bounds.bottom == area.bounds.bottom
    &&& c.default_color == area.default_color
    &&& c.atlas_generation == atlas.generation
    &&& forall|i: int|
        0 <= i < c.distinct_keys@.len() ==> atlas.glyphs@.contains_key(
            #[trigger] c.distinct_keys@[i],
        )
}

/// Whether an area stands where it was cached.
pub open spec fn stayed(c: CachedTextArea, area: TextArea) -> bool {
    &&& c.left.finite() && c.left.equal(area.left)
    &&& c.top.finite() && c.top.equal(area.top)
}

/// Whether a number is finite and worth more than nothing.
pub open spec fn above_nothing(v: Scalar) -> bool {
    v.finite() && v.value() > 0
}

/// Whether an area has a border: it asks for one, and the width, the scale and
/// their product are all finite and worth more than nothing.
pub open spec fn has_border(area: TextArea, placement: Placement) -> bool {
    &&& area.border is Some
    &&& above_nothing(area.border->0.width)
    &&& above_nothing(area.scale)
    &&& above_nothing(placement.border_product)
}

/// Whether an area shows through the same scroll offset and has a border of the
/// same width, or none as before.
pub open spec fn looks_the_same(c: CachedTextArea, area: TextArea, placement: Placement) -> bool {
    &&& c.scroll.x.equal(placement.scroll.x) && c.scroll.y.equal(placement.scroll.y)
    &&& c.border_width is Some <==> has_border(area, placement)
    &&& c.border_width is Some ==> c.border_width->0.equal(placement.border_product)
}

/// What is done with an area. It is taken from the cache as it is where the cache
/// can serve and neither its place, its scroll offset nor its border changed. It
/// is culled anew where the cache can serve and holds all of it, unless raster
/// glyphs would be shifted. Otherwise it is laid out anew.
pub proof fn lemma_area_is_classified(
    cached: Option<CachedTextArea>,
    atlas: AtlasState,
    area: TextArea,
    placement: Placement,
)
    ensures
        ({
            let class = area_class(cached, atlas, area, placement);
            let c = cached->0;
            let served = cached is Some && can_serve(c, atlas, area);
            let same = stayed(c, area) && looks_the_same(c, area, placement);
            &&& class == PlacementClass::Direct <==> served && same
            &&& class == PlacementClass::ReCull <==> served && !same && c.complete && (
            c.non_vector_glyphs@.len() == 0 || stayed(c, area))
        }),
{
    lemma_border_width(area.border, area.scale, placement.border_product);
}

/// The plan for an area names the buffer that it shows and how many areas before
/// it show the same one, and keeps the area, its scroll offset and its border.
pub proof fn lemma_area_is_planned(
    v: RendererState,
    atlas: AtlasState,
    area: TextArea,
    placement: Placement,
)
    ensures
        ({
            let plan = area_plan(v, atlas, area, placement);
            &&& plan.key.buffer == area.buffer
            &&& plan.key.occurrence == v.occurrences.count(area.buffer)
            &&& plan.area == area
            &&& plan.scroll == placement.scroll
            &&& plan.border is Some ==> plan.border->0.color == placement.border_color
                && plan.border->0.width == placement.border_product
            &&& plan.border is Some <==> has_border(area, placement)
            &&& plan.class == area_class(
                if v.cache.contains_key(plan.key) {
                    Some(v.cache[plan.key])
                } else {
                    None
                },
                atlas,
                area,
                placement,
            )
        }),
{
    lemma_border_width(area.border, area.scale, placement.border_product);
}

/// Planning an area adds its plan behind the others and counts it once, in the
/// way it was planned. Nothing is drawn and the cache is not touched.
pub proof fn lemma_plan_is_counted(
    before: RendererState,
    after: RendererState,
    atlas: AtlasState,
    area: TextArea,
    placement: Placement,
)
    requires
        before.plans.len() < usize::MAX,
        before.stats.direct_hits < usize::MAX,
        before.stats.reculls < usize::MAX,
        before.stats.misses < usize::MAX,
        area_planned(before, after, area_plan(before, atlas, area, placement)),
    ensures
        ({
            let plan = after.plans.last();
            &&& plan == area_plan(before, atlas, area, placement)
            &&& after.plans.len() == before.plans.len() + 1
            &&& forall|i: int|
                0 <= i < before.plans.len() ==> #[trigger] after.plans[i] == before.plans[i]
            &&& after.stats.direct_hits == before.stats.direct_hits + if plan.class
                == PlacementClass::Direct {
                1int
            } else {
                0
            }
            &&& after.stats.reculls == before.stats.reculls + if plan.class
                == PlacementClass::ReCull {
                1int
            } else {
                0
            }
            &&& after.stats.misses == before.stats.misses + if plan.class == PlacementClass::Miss {
                1int
            } else {
                0
            }
            &&& after.occurrences.count(area.buffer) == before.occurrences.count(area.buffer) + 1
            &&& after.cache == before.cache
            &&& after.instances == before.instances && after.borders == before.borders
            &&& after.draws == before.draws && after.emitted == before.emitted
        }),
{
}

/// Whether an entry is another, but for the frame of its last use.
pub open spec fn same_but_for_use(a: GlyphEntry, b: GlyphEntry) -> bool {
    &&& a.band_offset == b.band_offset
    &&& a.band_max_x == b.band_max_x && a.band_max_y == b.band_max_y
    &&& a.band_transform == b.band_transform
    &&& a.bounds == b.bounds
    &&& a.units_per_em == b.units_per_em
}

/// Marking keys marks exactly the known ones among them as used in this frame. No
/// glyph comes or goes, and nothing else of any glyph changes.
pub proof fn lemma_keys_are_marked(
    glyphs: Map<GlyphKey, GlyphEntry>,
    epoch: u32,
    keys: Seq<GlyphKey>,
    n: nat,
    key: GlyphKey,
)
    requires
        n <= keys.len(),
    ensures
        ({
            let after = marked_glyphs(glyphs, epoch, keys, n);
            let named = exists|i: int| 0 <= i < n && #[trigger] keys[i] == key;
            &&& after.contains_key(key) == glyphs.contains_key(key)
            &&& glyphs.contains_key(key) ==> {
                &&& same_but_for_use(after[key], glyphs[key])
                &&& named ==> after[key].last_used_epoch == epoch
                &&& !named ==> after[key].last_used_epoch == glyphs[key].last_used_epoch
            }
        }),
    decreases n,
{
    if n > 0 {
        lemma_keys_are_marked(glyphs, epoch, keys, (n - 1) as nat, key);
        let before = exists|i: int| 0 <= i < n - 1 && #[trigger] keys[i] == key;
        let named = exists|i: int| 0 <= i < n && #[trigger] keys[i] == key;
        if before {
            let i = choose|i: int| 0 <= i < n - 1 && #[trigger] keys[i] == key;
            assert(keys[i] == key);
            assert(named);
        }
        if keys[n - 1] == key {
            assert(named);
        } else if named {
            let i = choose|i: int| 0 <= i < n && #[trigger] keys[i] == key;
            assert(i < n - 1);
            assert(before);
        }
    }
}

/// Looking at a cached area stops at the first of its glyphs that the atlas does
/// not have: those before it are marked as used, and no others.
pub proof fn lemma_marking_stops_at_unknown(
    glyphs: Map<GlyphKey, GlyphEntry>,
    keys: Seq<GlyphKey>,
    from: int,
    i: int,
)
    requires
        0 <= from <= keys.len(),
    ensures
        ({
            let end = known_prefix(glyphs, keys, from);
            &&& from <= end <= keys.len()
            &&& from <= i < end ==> glyphs.contains_key(keys[i])
            &&& end < keys.len() ==> !glyphs.contains_key(keys[end])
        }),
    decreases keys.len() - from,
{
    if from < keys.len() && glyphs.contains_key(keys[from]) {
        lemma_marking_stops_at_unknown(glyphs, keys, from + 1, i);
    }
}

/// Which glyphs count as used when an area is planned: those of a cached area
/// whose content is still valid, up to the first that is not known, and none of
/// any other.
pub proof fn lemma_planning_uses_glyphs(
    cached: Option<CachedTextArea>,
    atlas: AtlasState,
    area: TextArea,
)
    ensures
        ({
            let keys = planned_keys(cached, atlas, area);
            let c = cached->0;
            let valid = cached is Some && !area.redraw && c.scale.equal(area.scale) && c.bounds
                == area.bounds && c.default_color == area.default_color && c.atlas_generation
                == atlas.generation;
            &&& !valid ==> keys.len() == 0
            &&& valid ==> {
                &&& keys.len() <= c.distinct_keys@.len()
                &&& forall|i: int| 0 <= i < keys.len() ==> #[trigger] keys[i] == c.distinct_keys@[i]
                &&& keys.len() < c.distinct_keys@.len() ==> !atlas.glyphs@.contains_key(
                    c.distinct_keys@[keys.len() as int],
                )
                &&& forall|i: int|
                    0 <= i < keys.len() ==> atlas.glyphs@.contains_key(#[trigger] keys[i])
            }
        }),
{
    if let Some(c) = cached {
        let all = c.distinct_keys@;
        assert forall|i: int| 0 <= i < known_prefix(atlas.glyphs@, all, 0) implies
            atlas.glyphs@.contains_key(#[trigger] all[i]) by {
            lemma_marking_stops_at_unknown(atlas.glyphs@, all, 0, i);
        }
        lemma_marking_stops_at_unknown(atlas.glyphs@, all, 0, 0);
    }
}

/// The glyphs that an area misses are exactly those of its keys that the atlas
/// does not have, in their order.
pub proof fn lemma_missing_glyphs(
    glyphs: Map<GlyphKey, GlyphEntry>,
    keys: Seq<GlyphKey>,
    n: nat,
    key: GlyphKey,
)
    requires
        n <= keys.len(),
    ensures
        unknown_keys(glyphs, keys, n).contains(key) <==> !glyphs.contains_key(key) && exists|i: int|
            0 <= i < n && #[trigger] keys[i] == key,
        n > 0 && !glyphs.contains_key(keys[n - 1]) ==> unknown_keys(glyphs, keys, n).last()
            == keys[n - 1],
    decreases n,
{
    if n > 0 {
        lemma_missing_glyphs(glyphs, keys, (n - 1) as nat, key);
        let before = unknown_keys(glyphs, keys, (n - 1) as nat);
        let after = unknown_keys(glyphs, keys, n);
        if before.contains(key) {
            let i = choose|i: int| 0 <= i < before.len() && before[i] == key;
            assert(after[i] == key);
            let j = choose|j: int| 0 <= j < n - 1 && #[trigger] keys[j] == key;
            assert(keys[j] == key);
        }
        if !glyphs.contains_key(keys[n - 1]) {
            assert(after[before.len() as int] == keys[n - 1]);
        }
        if after.contains(key) {
            let i = choose|i: int| 0 <= i < after.len() && after[i] == key;
            if i < before.len() {
                assert(before[i] == key);
            }
        }
        if exists|i: int| 0 <= i < n && #[trigger] keys[i] == key {
            let i = choose|i: int| 0 <= i < n && #[trigger] keys[i] == key;
            if i < n - 1 {
                assert(keys[i] == key);
            }
        }
    }
}

/// Whether a draw takes a range of a stream.
pub open spec fn draws_range(d: OrderedDraw, stream: DrawStream, start: int, count: int) -> bool {
    &&& d.stream == stream
    &&& d.start == start
    &&& d.end == start + count
}

/// The draws of an area: first its borders, underneath and with uniforms of their
/// own, if it has any; then its glyphs, filled, if it has any and the frame has
/// borders. Each goes on where its stream ended.
pub proof fn lemma_draws_of_area(v: RendererState, instances: int, borders: int)
    requires
        0 <= instances && 0 <= borders,
        has_room(v, instances, borders),
    ensures
        ({
            let d = area_draws(v, instances, borders);
            let filled = v.bordered() && instances > 0;
            &&& d.len() == (if borders > 0 {
                1int
            } else {
                0
            }) + (if filled {
                1int
            } else {
                0
            })
            &&& borders > 0 ==> {
                &&& draws_range(d[0], DrawStream::Border, v.borders.len() as int, borders)
                &&& d[0].mode == DrawMode::Underlay
                &&& d[0].uniform_offset == v.uniforms.len()
            }
            &&& filled ==> {
                &&& draws_range(d.last(), DrawStream::Normal, v.instances.len() as int, instances)
                &&& d.last().mode == DrawMode::Fill
            }
        }),
{
}

/// Emitting an area puts what it draws behind what is drawn already, keeps it in
/// the cache under the key of its plan, and goes on to the next area. Its border
/// is painted as its plan says.
pub proof fn lemma_area_is_emitted(v: RendererState, area: CachedTextArea, other: AreaKey)
    requires
        0 <= v.emitted < v.plans.len(),
    ensures
        ({
            let w = v.area_emitted(area);
            let key = v.plans[v.emitted].key;
            let instances = area.instances@;
            let borders = area.border_instances@;
            &&& w.instances.len() == v.instances.len() + instances.len()
            &&& w.instances.take(v.instances.len() as int) == v.instances
            &&& w.instances.skip(v.instances.len() as int) == instances
            &&& w.borders.take(v.borders.len() as int) == v.borders
            &&& w.borders.skip(v.borders.len() as int) == borders
            &&& w.rasters.take(v.rasters.len() as int) == v.rasters
            &&& w.rasters.skip(v.rasters.len() as int) == area.non_vector_glyphs@
            &&& w.draws.take(v.draws.len() as int) == v.draws
            &&& w.draws.skip(v.draws.len() as int) == area_draws(
                v,
                instances.len() as int,
                borders.len() as int,
            )
            &&& borders.len() == 0 ==> w.uniforms == v.uniforms
            &&& borders.len() > 0 ==> {
                &&& w.uniforms.len() == v.uniforms.len() + 1
                &&& w.uniforms.last() == v.plans[v.emitted].border->0
                &&& w.uniforms.take(v.uniforms.len() as int) == v.uniforms
            }
            &&& w.cache.contains_key(key) && w.cache[key] == area
            &&& other != key ==> w.cache.contains_key(other) == v.cache.contains_key(other)
                && w.cache[other] == v.cache[other]
            &&& w.emitted == v.emitted + 1
            &&& w.plans == v.plans && w.stats == v.stats
        }),
{
    let w = v.area_emitted(area);
    assert(w.instances.take(v.instances.len() as int) =~= v.instances);
    assert(w.instances.skip(v.instances.len() as int) =~= area.instances@);
    assert(w.borders.take(v.borders.len() as int) =~= v.borders);
    assert(w.borders.skip(v.borders.len() as int) =~= area.border_instances@);
    assert(w.rasters.take(v.rasters.len() as int) =~= v.rasters);
    assert(w.rasters.skip(v.rasters.len() as int) =~= area.non_vector_glyphs@);
    assert(w.draws.take(v.draws.len() as int) =~= v.draws);
    assert(w.draws.skip(v.draws.len() as int) =~= area_draws(
        v,
        area.instances@.len() as int,
        area.border_instances@.len() as int,
    ));
    assert(w.uniforms.take(v.uniforms.len() as int) =~= v.uniforms);
}

/// What is kept of an area that was taken from the cache as it is: all that was
/// cached, with the borders of its glyphs as the atlas has them now, if it has a
/// border.
pub proof fn lemma_hit_is_kept(
    before: CachedTextArea,
    after: CachedTextArea,
    atlas: AtlasState,
    v: RendererState,
)
    requires
        area_refreshed(before, after, atlas, v.current().border),
    ensures
        after.instances@ == before.instances@,
        after.non_vector_glyphs@ == before.non_vector_glyphs@,
        after.distinct_keys@ == before.distinct_keys@,
        after.complete == before.complete,
        after.left == before.left && after.top == before.top && after.scroll == before.scroll,
        after.scale == before.scale && after.bounds == before.bounds,
        after.default_color == before.default_color,
        after.border_width == before.border_width,
        after.atlas_generation == before.atlas_generation,
        v.current().border is None ==> after.border_instances@ == before.border_instances@,
        v.current().border is Some ==> after.border_instances@ == borders_of(
            atlas,
            before.distinct_keys@,
            after.instances@,
            after.instances@.len(),
        ),
{
}

/// What is kept of an area that was culled anew: it stands where its plan puts it,
/// with the border of its plan, and is complete only if nothing of it was lost.
/// Its content is what it was.
pub proof fn lemma_culled_area_is_kept(
    before: CachedTextArea,
    after: CachedTextArea,
    atlas: AtlasState,
    v: RendererState,
    rects: Seq<Rect>,
    visible: Seq<bool>,
)
    requires
        area_reculled(before, after, atlas, v.current(), rects, visible),
    ensures
        after.left == v.current().area.left && after.top == v.current().area.top,
        after.scroll == v.current().scroll,
        after.border_width is Some <==> v.current().border is Some,
        after.border_width is Some ==> after.border_width->0 == v.current().border->0.width,
        after.complete <==> before.complete && forall|i: int|
            0 <= i < before.instances@.len() ==> #[trigger] visible[i],
        v.current().border is None ==> after.border_instances@.len() == 0,
        v.current().border is Some ==> after.border_instances@ == borders_of(
            atlas,
            before.distinct_keys@,
            after.instances@,
            after.instances@.len(),
        ),
        after.distinct_keys@ == before.distinct_keys@,
        after.non_vector_glyphs@ == before.non_vector_glyphs@,
        after.scale == before.scale && after.bounds == before.bounds,
        after.default_color == before.default_color,
        after.atlas_generation == before.atlas_generation,
{
}

/// What is kept of an area that was laid out anew: what its glyphs emit, each of
/// its keys once, and all that its plan says of it, for the atlas as it is.
pub proof fn lemma_laid_out_area_is_kept(
    after: CachedTextArea,
    atlas: AtlasState,
    v: RendererState,
    items: Seq<WorkItem>,
    default_color: Rgba,
    all_runs_included: bool,
)
    requires
        area_laid_out(after, atlas, v.current(), items, default_color, all_runs_included),
    ensures
        ({
            let plan = v.current();
            let e = nothing_emitted(all_runs_included).with_items(
                atlas,
                items,
                AreaStyle { default_color, bordered: plan.border is Some },
                items.len(),
            );
            &&& after.instances@ == e.instances
            &&& after.border_instances@ == e.borders
            &&& after.non_vector_glyphs@ == e.rasters
            &&& after.complete == e.complete
            &&& distinct_of(after.distinct_keys@, item_keys(items))
            &&& after.left == plan.area.left && after.top == plan.area.top
            &&& after.scroll == plan.scroll
            &&& after.scale == plan.area.scale && after.bounds == plan.area.bounds
            &&& after.default_color == plan.area.default_color
            &&& after.border_width is Some <==> plan.border is Some
            &&& after.border_width is Some ==> after.border_width->0 == plan.border->0.width
            &&& after.atlas_generation == atlas.generation
        }),
{
}

/// At the end of a frame the areas that were part of it stay in the cache, for the
/// atlas as it is, and no others. All glyphs that were emitted are to be drawn. A
/// stream is uploaded unless every area was taken from the cache as it is and the
/// stream is that of the frame before.
pub proof fn lemma_frame_ends(
    before: RendererState,
    after: RendererState,
    generation: u32,
    raster_count: u32,
    upload: FrameUpload,
    k: AreaKey,
)
    requires
        frame_finished(before, after, generation, raster_count, upload),
        before.instances.len() <= u32::MAX,
    ensures
        after.cache.contains_key(k) <==> before.cache.contains_key(k) && k.occurrence
            < before.occurrences.count(k.buffer),
        after.cache.contains_key(k) ==> {
            &&& after.cache[k].atlas_generation == generation
            &&& after.cache[k].instances == before.cache[k].instances
            &&& after.cache[k].border_instances == before.cache[k].border_instances
            &&& after.cache[k].distinct_keys == before.cache[k].distinct_keys
            &&& after.cache[k].non_vector_glyphs == before.cache[k].non_vector_glyphs
            &&& after.cache[k].complete == before.cache[k].complete
            &&& after.cache[k].left == before.cache[k].left
            &&& after.cache[k].top == before.cache[k].top
            &&& after.cache[k].scroll == before.cache[k].scroll
            &&& after.cache[k].scale == before.cache[k].scale
            &&& after.cache[k].bounds == before.cache[k].bounds
            &&& after.cache[k].default_color == before.cache[k].default_color
            &&& after.cache[k].border_width == before.cache[k].border_width
        },
        after.glyphs_to_render == before.instances.len(),
        after.raster_glyphs_to_render == raster_count,
        after.prepared_generation == generation,
        after.last_stats == before.stats,
        after.instances == before.instances && after.borders == before.borders,
        after.draws == before.draws && after.uniforms == before.uniforms,
        !upload.vertices <==> {
            &&& forall|i: int|
                0 <= i < before.plans.len() ==> (#[trigger] before.plans[i]).class
                    == PlacementClass::Direct
            &&& before.instances == before.previous
            &&& before.instances.len() == before.glyphs_to_render
        },
        !upload.borders <==> {
            &&& forall|i: int|
                0 <= i < before.plans.len() ==> (#[trigger] before.plans[i]).class
                    == PlacementClass::Direct
            &&& before.borders == before.previous_borders
        },
{
    assert(is_current(before.occurrences, k) <==> k.occurrence < before.occurrences.count(
        k.buffer,
    ));
    if after.cache.contains_key(k) {
        assert(after.cache[k] == of_generation(before.cache[k], generation));
    }
}

/// A border draw takes its range with the uniforms of its area, which lie a
/// stride apart; any other takes its range.
pub proof fn lemma_draw_is_handed_over(d: OrderedDraw, stride: u64)
    ensures
        d.stream == DrawStream::Border ==> match draw_call(d, stride) {
            DrawCall::Border { start, end, uniform_offset } => {
                &&& start == d.start && end == d.end
                &&& (uniform_offset - d.uniform_offset * stride) % 0x1_0000_0000 == 0
                &&& d.uniform_offset * stride < 0x1_0000_0000 ==> uniform_offset
                    == d.uniform_offset * stride
            },
            _ => false,
        },
        d.stream == DrawStream::Normal ==> draw_call(d, stride) == (DrawCall::Fill {
            start: d.start,
            end: d.end,
        }),
{
    assert(0 <= d.uniform_offset * stride) by (nonlinear_arith)
        requires
            0 <= d.uniform_offset,
            0 <= stride,
    ;
}

/// What is drawn: without borders all glyphs at once, with borders the draws of
/// the areas in their order, and the raster glyphs behind them, where there are
/// any.
pub proof fn lemma_frame_is_drawn(v: RendererState, stride: u64, i: int)
    ensures
        ({
            let calls = frame_calls(v, stride);
            let vector = if v.borders.len() > 0 {
                v.draws.len() as int
            } else if v.glyphs_to_render > 0 {
                1
            } else {
                0
            };
            &&& calls.len() == vector + (if v.raster_glyphs_to_render > 0 {
                1int
            } else {
                0
            })
            &&& v.borders.len() == 0 && v.glyphs_to_render > 0 ==> calls[0] == (DrawCall::Glyphs {
                count: v.glyphs_to_render,
            })
            &&& v.borders.len() > 0 && 0 <= i < v.draws.len() ==> calls[i] == draw_call(
                v.draws[i],
                stride,
            )
            &&& v.raster_glyphs_to_render > 0 ==> calls.last() == (DrawCall::Raster {
                count: v.raster_glyphs_to_render,
            })
        }),
{
}

/// A frame can be drawn exactly from the atlas it was prepared with, as long as
/// that was not reset.
pub proof fn lemma_what_can_be_drawn(v: RendererState, atlas: AtlasState)
    ensures
        drawable(v, atlas) <==> atlas.id == v.atlas_id && atlas.generation
            == v.prepared_generation,
{
}

/// A renderer that prepares once more in the frame that it prepared in last has
/// the atlas count the glyphs in use anew; any other leaves the atlas alone.
pub proof fn lemma_counting_begins(v: RendererState, before: AtlasState, after: AtlasState)
    requires
        uses_begun(v, before, after),
    ensures
        v.counted_epoch is Some && v.counted_epoch->0 == before.glyphs.epoch() ==> {
            &&& after.glyphs.used() == 0
            &&& after.glyphs@.dom() =~= before.glyphs@.dom()
            &&& after.data == before.data && after.generation == before.generation
        },
        v.counted_epoch is None || v.counted_epoch->0 != before.glyphs.epoch() ==> after == before,
{
}

/// A frame has borders exactly when the plan of some area has one, and nothing but
/// direct hits exactly when every plan is one.
pub proof fn lemma_kinds_of_frames(v: RendererState)
    ensures
        v.bordered() <==> exists|i: int|
            0 <= i < v.plans.len() && (#[trigger] v.plans[i]).border is Some,
        v.all_direct() <==> forall|i: int|
            0 <= i < v.plans.len() ==> (#[trigger] v.plans[i]).class == PlacementClass::Direct,
        v.emitted < v.plans.len() ==> v.current() == v.plans[v.emitted],
{
}

/// Marking glyphs touches nothing of an atlas but when its glyphs were last used,
/// and keeps their count.
pub proof fn lemma_marking_touches_uses_only(
    before: AtlasState,
    after: AtlasState,
    keys: Seq<GlyphKey>,
    key: GlyphKey,
)
    requires
        keys_marked(before, after, keys),
    ensures
        after.data == before.data && after.capacity == before.capacity,
        after.flushed == before.flushed && after.generation == before.generation,
        after.id == before.id,
        after.color_glyphs == before.color_glyphs,
        after.color_v1_glyphs == before.color_v1_glyphs,
        after.border_offsets == before.border_offsets,
        after.glyphs.epoch() == before.glyphs.epoch(),
        after.glyphs@.contains_key(key) == before.glyphs@.contains_key(key),
        before.glyphs@.contains_key(key) ==> {
            &&& same_but_for_use(after.glyphs@[key], before.glyphs@[key])
            &&& keys.contains(key) ==> after.glyphs@[key].last_used_epoch == after.glyphs.epoch()
            &&& !keys.contains(key) ==> after.glyphs@[key].last_used_epoch
                == before.glyphs@[key].last_used_epoch
        },
        after.glyphs.used() == after.glyphs@.dom().filter(
            |k: GlyphKey| after.glyphs@[k].last_used_epoch == after.glyphs.epoch(),
        ).len(),
{
    lemma_keys_are_marked(before.glyphs@, before.glyphs.epoch(), keys, keys.len(), key);
    if keys.contains(key) {
        let i = choose|i: int| 0 <= i < keys.len() && keys[i] == key;
        assert(keys[i] == key);
    }
}

} // verus!
