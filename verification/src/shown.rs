//! What a frame shows: glyphs that were found visible, and no trace of a border
//! that was taken away.

use crate::area_cache::{of_generation, AreaKey, CachedTextArea};
use crate::culling::{lemma_complete_loses_nothing, reculled, PlacementClass};
use crate::draw_order::{cached_instances, streams_cached};
use crate::emit::{
    item_color, item_instance, item_ready, lemma_no_borders_without_style, nothing_emitted,
    AreaStyle, EmissionView, WorkItem,
};
use crate::frames::{cache_reflects, content_reflected, placement_reflected, plan_reflected};
use crate::glyph_cache::{ColorGlyphLayer, GlyphKey};
use crate::instance::{GlyphInstance, Rect};
use crate::outline::{Point, Rgba};
use crate::scalar::Scalar;
use crate::text_atlas::AtlasState;
use crate::text_renderer::{
    area_border, area_class, area_laid_out, area_reculled, area_refreshed, frame_begun,
    frame_finished, width_of, AreaPlan, FrameUpload, Placement, RendererState,
};
use crate::types::{Resolution, TextArea, TextBounds};
use vstd::prelude::*;

verus! {

/// What decides, on a screen of a given size, whether a glyph is visible.
pub struct Viewpoint {
    pub scroll: Point,
    pub bounds: TextBounds,
    pub border_width: Option<Scalar>,
}

/// The viewpoint that an area was cached for.
pub open spec fn cached_viewpoint(cached: CachedTextArea) -> Viewpoint {
    Viewpoint {
        scroll: cached.scroll,
        bounds: cached.bounds,
        border_width: cached.border_width,
    }
}

/// The viewpoint that a plan asks for.
pub open spec fn planned_viewpoint(plan: AreaPlan) -> Viewpoint {
    Viewpoint {
        scroll: plan.scroll,
        bounds: plan.area.bounds,
        border_width: width_of(plan.border),
    }
}

/// Whether all instances of a cached area are visible from where it was cached
/// for.
pub open spec fn area_seen(
    cached: CachedTextArea,
    sees: spec_fn(Viewpoint, Rect) -> bool,
) -> bool {
    forall|i: int|
        0 <= i < cached.instances@.len() ==> sees(
            cached_viewpoint(cached),
            (#[trigger] cached.instances@[i]).screen_rect,
        )
}

/// Whether all instances of all cached areas are visible.
pub open spec fn cache_seen(
    cache: Map<AreaKey, CachedTextArea>,
    sees: spec_fn(Viewpoint, Rect) -> bool,
) -> bool {
    forall|k: AreaKey| #[trigger] cache.contains_key(k) ==> area_seen(cache[k], sees)
}

/// Whether only visible rectangles of work items are flagged as visible.
pub open spec fn items_seen(items: Seq<WorkItem>, sees: spec_fn(Rect) -> bool) -> bool {
    forall|i: int, j: int|
        0 <= i < items.len() && 0 <= j < items[i].rects@.len() && (
        #[trigger] items[i].rects@[j]).visible ==> sees(items[i].rects@[j].rect)
}

/// Whether all instances of a stream are visible.
pub open spec fn stream_seen(stream: Seq<GlyphInstance>, sees: spec_fn(Rect) -> bool) -> bool {
    forall|i: int| 0 <= i < stream.len() ==> sees((#[trigger] stream[i]).screen_rect)
}

proof fn lemma_layers_seen(
    e: EmissionView,
    item: WorkItem,
    style: AreaStyle,
    layers: Seq<ColorGlyphLayer>,
    n: nat,
    sees: spec_fn(Rect) -> bool,
)
    requires
        stream_seen(e.instances, sees),
        n <= item.rects@.len(),
        forall|j: int|
            0 <= j < item.rects@.len() && (#[trigger] item.rects@[j]).visible ==> sees(
                item.rects@[j].rect,
            ),
    ensures
        stream_seen(e.with_layers(item, style, layers, n).instances, sees),
    decreases n,
{
    if n > 0 {
        lemma_layers_seen(e, item, style, layers, (n - 1) as nat, sees);
    }
}

/// Laying out emits only glyphs that are flagged as visible.
pub proof fn lemma_emitted_seen(
    e: EmissionView,
    atlas: AtlasState,
    items: Seq<WorkItem>,
    style: AreaStyle,
    n: nat,
    sees: spec_fn(Rect) -> bool,
)
    requires
        n <= items.len(),
        stream_seen(e.instances, sees),
        items_seen(items, sees),
        forall|i: int|
            0 <= i < items.len() ==> item_ready(atlas, #[trigger] items[i], style.bordered),
    ensures
        stream_seen(e.with_items(atlas, items, style, n).instances, sees),
    decreases n,
{
    if n > 0 {
        lemma_emitted_seen(e, atlas, items, style, (n - 1) as nat, sees);
        let before = e.with_items(atlas, items, style, (n - 1) as nat);
        let item = items[n - 1];
        assert(item_ready(atlas, item, style.bordered));
        assert forall|j: int|
            0 <= j < item.rects@.len() && (#[trigger] item.rects@[j]).visible implies sees(
            item.rects@[j].rect,
        ) by {
            assert(items[n - 1].rects@[j].visible);
        }
        if atlas.glyphs@[item.key].band_offset == u32::MAX - 1
            && atlas.color_glyphs.contains_key(item.key) {
            let layers = atlas.color_glyphs[item.key].layers@;
            lemma_layers_seen(before, item, style, layers, layers.len(), sees);
        }
    }
}

/// An area that is laid out anew keeps only glyphs that are visible where its
/// plan puts it.
pub proof fn lemma_laid_out_seen(
    after: CachedTextArea,
    atlas: AtlasState,
    plan: AreaPlan,
    items: Seq<WorkItem>,
    default_color: Rgba,
    all_runs_included: bool,
    sees: spec_fn(Viewpoint, Rect) -> bool,
)
    requires
        area_laid_out(after, atlas, plan, items, default_color, all_runs_included),
        items_seen(items, |r: Rect| sees(planned_viewpoint(plan), r)),
        forall|i: int|
            0 <= i < items.len() ==> item_ready(atlas, #[trigger] items[i], plan.border is Some),
    ensures
        area_seen(after, sees),
{
    let seen = |r: Rect| sees(planned_viewpoint(plan), r);
    let style = AreaStyle { default_color, bordered: plan.border is Some };
    lemma_emitted_seen(
        nothing_emitted(all_runs_included),
        atlas,
        items,
        style,
        items.len(),
        seen,
    );
    assert forall|i: int| 0 <= i < after.instances@.len() implies sees(
        cached_viewpoint(after),
        (#[trigger] after.instances@[i]).screen_rect,
    ) by {
        assert(seen(after.instances@[i].screen_rect));
    }
}

proof fn lemma_reculled_stream_seen(
    instances: Seq<GlyphInstance>,
    rects: Seq<Rect>,
    visible: Seq<bool>,
    n: nat,
    sees: spec_fn(Rect) -> bool,
)
    requires
        forall|i: int| 0 <= i < n && #[trigger] visible[i] ==> sees(rects[i]),
    ensures
        stream_seen(reculled(instances, rects, visible, n), sees),
    decreases n,
{
    if n > 0 {
        lemma_reculled_stream_seen(instances, rects, visible, (n - 1) as nat, sees);
        assert(visible[n - 1] ==> sees(rects[n - 1]));
    }
}

/// An area that is culled anew keeps only glyphs that are visible where its
/// plan puts it.
pub proof fn lemma_reculled_seen(
    before: CachedTextArea,
    after: CachedTextArea,
    atlas: AtlasState,
    plan: AreaPlan,
    rects: Seq<Rect>,
    visible: Seq<bool>,
    sees: spec_fn(Viewpoint, Rect) -> bool,
)
    requires
        area_reculled(before, after, atlas, plan, rects, visible),
        content_reflected(before, plan),
        forall|i: int|
            0 <= i < before.instances@.len() && #[trigger] visible[i] ==> sees(
                planned_viewpoint(plan),
                rects[i],
            ),
    ensures
        area_seen(after, sees),
{
    let seen = |r: Rect| sees(planned_viewpoint(plan), r);
    lemma_reculled_stream_seen(
        before.instances@,
        rects,
        visible,
        before.instances@.len(),
        seen,
    );
    assert forall|i: int| 0 <= i < after.instances@.len() implies sees(
        cached_viewpoint(after),
        (#[trigger] after.instances@[i]).screen_rect,
    ) by {
        assert(seen(after.instances@[i].screen_rect));
    }
}

/// An area that is taken from the cache as it is shows what was visible.
pub proof fn lemma_refreshed_seen(
    before: CachedTextArea,
    after: CachedTextArea,
    atlas: AtlasState,
    plan: AreaPlan,
    sees: spec_fn(Viewpoint, Rect) -> bool,
)
    requires
        area_refreshed(before, after, atlas, plan.border),
        area_seen(before, sees),
    ensures
        area_seen(after, sees),
{
}

/// The cache holds only visible glyphs when a frame begins, because it is
/// dropped when the screen changes its size.
pub proof fn lemma_seen_begun(
    before: RendererState,
    after: RendererState,
    resolution: Resolution,
    sees: spec_fn(Viewpoint, Rect) -> bool,
)
    requires
        frame_begun(before, after, resolution),
        resolution == before.resolution ==> cache_seen(before.cache, sees),
    ensures
        cache_seen(after.cache, sees),
{
}

/// Emitting an area of visible glyphs leaves only visible glyphs in the cache.
pub proof fn lemma_seen_emitted(
    v: RendererState,
    area: CachedTextArea,
    sees: spec_fn(Viewpoint, Rect) -> bool,
)
    requires
        cache_seen(v.cache, sees),
        area_seen(area, sees),
    ensures
        cache_seen(v.area_emitted(area).cache, sees),
{
}

/// The cache holds only visible glyphs when a frame is finished.
pub proof fn lemma_seen_finished(
    before: RendererState,
    after: RendererState,
    generation: u32,
    raster_count: u32,
    upload: FrameUpload,
    sees: spec_fn(Viewpoint, Rect) -> bool,
)
    requires
        frame_finished(before, after, generation, raster_count, upload),
        cache_seen(before.cache, sees),
    ensures
        cache_seen(after.cache, sees),
{
    assert forall|k: AreaKey| #[trigger] after.cache.contains_key(k) implies area_seen(
        after.cache[k],
        sees,
    ) by {
        assert(after.cache[k] == of_generation(before.cache[k], generation));
        assert(area_seen(before.cache[k], sees));
        assert(cached_viewpoint(after.cache[k]) == cached_viewpoint(before.cache[k]));
    }
}

/// Whether area `j` of a frame shows a rectangle that is visible from where the
/// area was planned: its scroll offset, its bounds and its border width are
/// those of the plan.
pub open spec fn shown_by(
    v: RendererState,
    j: int,
    rect: Rect,
    sees: spec_fn(Viewpoint, Rect) -> bool,
) -> bool {
    let cached = v.cache[v.plans[j].key];
    &&& 0 <= j < v.emitted
    &&& content_reflected(cached, v.plans[j])
    &&& placement_reflected(cached, v.plans[j])
    &&& sees(cached_viewpoint(cached), rect)
}

/// Every glyph of a frame is visible from where its area was planned.
pub proof fn lemma_frame_seen(
    v: RendererState,
    i: int,
    sees: spec_fn(Viewpoint, Rect) -> bool,
)
    requires
        0 <= v.emitted <= v.plans.len(),
        streams_cached(v),
        cache_reflects(v.plans, v.emitted, v.cache),
        cache_seen(v.cache, sees),
        0 <= i < v.instances.len(),
    ensures
        exists|j: int| #[trigger] shown_by(v, j, v.instances[i].screen_rect, sees),
{
    lemma_prefix_seen(v, v.emitted as nat, i, sees);
}

proof fn lemma_prefix_seen(
    v: RendererState,
    n: nat,
    i: int,
    sees: spec_fn(Viewpoint, Rect) -> bool,
)
    requires
        n <= v.emitted <= v.plans.len(),
        streams_cached(v),
        cache_reflects(v.plans, v.emitted, v.cache),
        cache_seen(v.cache, sees),
        0 <= i < cached_instances(v, n).len(),
    ensures
        exists|j: int| #[trigger]
            shown_by(v, j, cached_instances(v, n)[i].screen_rect, sees),
    decreases n,
{
    reveal(cache_reflects);
    let before = cached_instances(v, (n - 1) as nat);
    if i < before.len() {
        lemma_prefix_seen(v, (n - 1) as nat, i, sees);
        let j = choose|j: int| #[trigger] shown_by(v, j, before[i].screen_rect, sees);
        assert(cached_instances(v, n)[i] == before[i]);
        assert(shown_by(v, j, cached_instances(v, n)[i].screen_rect, sees));
    } else {
        let key = v.plans[n - 1].key;
        assert(plan_reflected(v.plans[n - 1], n - 1 < v.emitted, v.cache));
        assert(area_seen(v.cache[key], sees));
        assert(cached_instances(v, n)[i] == v.cache[key].instances@[i - before.len()]);
        assert(shown_by(v, n - 1, cached_instances(v, n)[i].screen_rect, sees));
    }
}

/// The instances of a stream that are visible.
pub open spec fn kept(stream: Seq<GlyphInstance>, sees: spec_fn(Rect) -> bool) -> Seq<
    GlyphInstance,
>
    decreases stream.len(),
{
    if stream.len() == 0 {
        Seq::empty()
    } else {
        let before = kept(stream.drop_last(), sees);
        if sees(stream.last().screen_rect) {
            before.push(stream.last())
        } else {
            before
        }
    }
}

proof fn lemma_kept_push(
    stream: Seq<GlyphInstance>,
    instance: GlyphInstance,
    sees: spec_fn(Rect) -> bool,
)
    ensures
        kept(stream.push(instance), sees) == if sees(instance.screen_rect) {
            kept(stream, sees).push(instance)
        } else {
            kept(stream, sees)
        },
{
    assert(stream.push(instance).drop_last() =~= stream);
}

/// Culling anew without a shift keeps the visible instances.
pub proof fn lemma_reculled_kept(
    stream: Seq<GlyphInstance>,
    rects: Seq<Rect>,
    visible: Seq<bool>,
    n: nat,
    sees: spec_fn(Rect) -> bool,
)
    requires
        n <= stream.len(),
        forall|i: int|
            0 <= i < n ==> {
                &&& (#[trigger] stream[i]).screen_rect == rects[i]
                &&& visible[i] == sees(rects[i])
            },
    ensures
        reculled(stream, rects, visible, n) == kept(stream.take(n as int), sees),
    decreases n,
{
    if n > 0 {
        lemma_reculled_kept(stream, rects, visible, (n - 1) as nat, sees);
        let last = stream[n - 1];
        assert(last.screen_rect == rects[n - 1]);
        assert(stream.take(n as int) =~= stream.take(n - 1).push(last));
        lemma_kept_push(stream.take(n - 1), last, sees);
    }
}

/// Whether two items are the same glyph in the same place. They may differ in
/// what is flagged as visible.
pub open spec fn same_glyph(a: WorkItem, b: WorkItem) -> bool {
    &&& a.key == b.key
    &&& a.color == b.color
    &&& a.depth == b.depth
    &&& a.ppem == b.ppem
    &&& a.rects@.len() == b.rects@.len()
    &&& forall|j: int|
        0 <= j < a.rects@.len() ==> (#[trigger] a.rects@[j]).rect == b.rects@[j].rect
}

/// Whether exactly the visible rectangles of an item are flagged as visible.
pub open spec fn flagged(item: WorkItem, sees: spec_fn(Rect) -> bool) -> bool {
    forall|j: int|
        0 <= j < item.rects@.len() ==> (#[trigger] item.rects@[j]).visible == sees(
            item.rects@[j].rect,
        )
}

/// Whether two atlases have the same of a glyph, but for its border data and
/// its last use.
pub open spec fn same_outline(a: AtlasState, b: AtlasState, key: GlyphKey) -> bool {
    &&& a.glyphs@[key].band_offset == b.glyphs@[key].band_offset
    &&& a.color_v1_glyphs.contains_key(key) == b.color_v1_glyphs.contains_key(key)
    &&& a.color_v1_glyphs[key] == b.color_v1_glyphs[key]
    &&& a.color_glyphs.contains_key(key) == b.color_glyphs.contains_key(key)
    &&& a.color_glyphs[key] == b.color_glyphs[key]
}

/// The instances of the first `n` layers of a glyph, visible or not.
pub open spec fn all_layers(
    item: WorkItem,
    style: AreaStyle,
    layers: Seq<ColorGlyphLayer>,
    n: nat,
) -> Seq<GlyphInstance>
    decreases n,
{
    if n == 0 {
        Seq::empty()
    } else {
        let before = all_layers(item, style, layers, (n - 1) as nat);
        let layer = layers[n - 1];
        if layer.entry.band_offset == u32::MAX {
            before
        } else {
            before.push(
                item_instance(
                    item,
                    item.rects@[n - 1].rect,
                    if layer.use_foreground {
                        item_color(item, style)
                    } else {
                        layer.color
                    },
                    layer.entry.band_offset,
                    0,
                ),
            )
        }
    }
}

/// The instances of a glyph, visible or not.
pub open spec fn all_of_item(
    atlas: AtlasState,
    item: WorkItem,
    style: AreaStyle,
) -> Seq<GlyphInstance> {
    let offset = atlas.glyphs@[item.key].band_offset;
    let rect = item.rects@[0].rect;
    let color = item_color(item, style);
    if offset == u32::MAX {
        Seq::empty()
    } else if offset == u32::MAX - 2 {
        if atlas.color_v1_glyphs.contains_key(item.key) {
            let v1 = atlas.color_v1_glyphs[item.key];
            seq![item_instance(item, rect, color, v1.blob_offset, v1.cmd_count)]
        } else {
            Seq::empty()
        }
    } else if offset == u32::MAX - 1 {
        if atlas.color_glyphs.contains_key(item.key) {
            let layers = atlas.color_glyphs[item.key].layers@;
            all_layers(item, style, layers, layers.len())
        } else {
            Seq::empty()
        }
    } else {
        seq![item_instance(item, rect, color, offset, 0)]
    }
}

/// The instances of the first `n` glyphs of an area, visible or not.
pub open spec fn all_of(
    atlas: AtlasState,
    items: Seq<WorkItem>,
    style: AreaStyle,
    n: nat,
) -> Seq<GlyphInstance>
    decreases n,
{
    if n == 0 {
        Seq::empty()
    } else {
        all_of(atlas, items, style, (n - 1) as nat) + all_of_item(atlas, items[n - 1], style)
    }
}

proof fn lemma_kept_concat(
    a: Seq<GlyphInstance>,
    b: Seq<GlyphInstance>,
    sees: spec_fn(Rect) -> bool,
)
    ensures
        kept(a + b, sees) == kept(a, sees) + kept(b, sees),
    decreases b.len(),
{
    if b.len() == 0 {
        assert(a + b =~= a);
        assert(kept(a, sees) + kept(b, sees) =~= kept(a, sees));
    } else {
        lemma_kept_concat(a, b.drop_last(), sees);
        assert((a + b).drop_last() =~= a + b.drop_last());
        assert(kept(a + b, sees) =~= kept(a, sees) + kept(b, sees));
    }
}

proof fn lemma_kept_one(instance: GlyphInstance, sees: spec_fn(Rect) -> bool)
    ensures
        kept(seq![instance], sees) == if sees(instance.screen_rect) {
            seq![instance]
        } else {
            Seq::<GlyphInstance>::empty()
        },
{
    let none = Seq::<GlyphInstance>::empty();
    lemma_kept_push(none, instance, sees);
    assert(none.push(instance) =~= seq![instance]);
    assert(kept(none, sees) =~= none);
}

proof fn lemma_layers_kept(
    e: EmissionView,
    item: WorkItem,
    style: AreaStyle,
    layers: Seq<ColorGlyphLayer>,
    n: nat,
    sees: spec_fn(Rect) -> bool,
)
    requires
        n <= item.rects@.len(),
        flagged(item, sees),
    ensures
        e.with_layers(item, style, layers, n).instances == e.instances + kept(
            all_layers(item, style, layers, n),
            sees,
        ),
    decreases n,
{
    if n == 0 {
        assert(e.instances + kept(Seq::empty(), sees) =~= e.instances);
    } else {
        lemma_layers_kept(e, item, style, layers, (n - 1) as nat, sees);
        let before = all_layers(item, style, layers, (n - 1) as nat);
        let all = all_layers(item, style, layers, n);
        assert(item.rects@[n - 1].visible == sees(item.rects@[n - 1].rect));
        if layers[n - 1].entry.band_offset != u32::MAX {
            lemma_kept_push(before, all.last(), sees);
        }
        assert(e.with_layers(item, style, layers, n).instances =~= e.instances + kept(all, sees));
    }
}

/// Laying out glyphs emits those of their instances that are visible.
pub proof fn lemma_items_kept(
    e: EmissionView,
    atlas: AtlasState,
    items: Seq<WorkItem>,
    style: AreaStyle,
    n: nat,
    sees: spec_fn(Rect) -> bool,
)
    requires
        n <= items.len(),
        forall|i: int|
            0 <= i < items.len() ==> item_ready(atlas, #[trigger] items[i], false) && flagged(
                items[i],
                sees,
            ),
    ensures
        e.with_items(atlas, items, style, n).instances == e.instances + kept(
            all_of(atlas, items, style, n),
            sees,
        ),
    decreases n,
{
    if n == 0 {
        assert(e.instances + kept(Seq::empty(), sees) =~= e.instances);
    } else {
        lemma_items_kept(e, atlas, items, style, (n - 1) as nat, sees);
        let before = e.with_items(atlas, items, style, (n - 1) as nat);
        let item = items[n - 1];
        let more = all_of_item(atlas, item, style);
        assert(item_ready(atlas, item, false) && flagged(item, sees));
        let offset = atlas.glyphs@[item.key].band_offset;
        let next = before.with_item(atlas, item, style);
        assert(next.instances =~= before.instances + kept(more, sees)) by {
            if offset == u32::MAX - 1 {
                if atlas.color_glyphs.contains_key(item.key) {
                    let layers = atlas.color_glyphs[item.key].layers@;
                    lemma_layers_kept(before, item, style, layers, layers.len(), sees);
                }
            } else if more.len() > 0 {
                assert(item.rects@[0].visible == sees(item.rects@[0].rect));
                lemma_kept_one(more[0], sees);
                assert(more =~= seq![more[0]]);
            }
        }
        lemma_kept_concat(all_of(atlas, items, style, (n - 1) as nat), more, sees);
        assert(next.instances =~= e.instances + kept(all_of(atlas, items, style, n), sees));
    }
}

proof fn lemma_layers_complete(
    e: EmissionView,
    item: WorkItem,
    style: AreaStyle,
    layers: Seq<ColorGlyphLayer>,
    n: nat,
)
    requires
        e.with_layers(item, style, layers, n).complete,
    ensures
        e.complete,
        e.with_layers(item, style, layers, n).instances == e.instances + all_layers(
            item,
            style,
            layers,
            n,
        ),
    decreases n,
{
    if n == 0 {
        assert(e.instances + Seq::empty() =~= e.instances);
    } else {
        lemma_layers_complete(e, item, style, layers, (n - 1) as nat);
        assert(e.with_layers(item, style, layers, n).instances =~= e.instances + all_layers(
            item,
            style,
            layers,
            n,
        ));
    }
}

/// What is emitted as a whole holds every instance.
pub proof fn lemma_items_complete(
    e: EmissionView,
    atlas: AtlasState,
    items: Seq<WorkItem>,
    style: AreaStyle,
    n: nat,
)
    requires
        n <= items.len(),
        e.with_items(atlas, items, style, n).complete,
    ensures
        e.complete,
        e.with_items(atlas, items, style, n).instances == e.instances + all_of(
            atlas,
            items,
            style,
            n,
        ),
    decreases n,
{
    if n == 0 {
        assert(e.instances + Seq::empty() =~= e.instances);
    } else {
        let before = e.with_items(atlas, items, style, (n - 1) as nat);
        let item = items[n - 1];
        let next = before.with_item(atlas, item, style);
        let more = all_of_item(atlas, item, style);
        let offset = atlas.glyphs@[item.key].band_offset;
        assert(before.complete && next.instances =~= before.instances + more) by {
            if offset == u32::MAX - 1 && atlas.color_glyphs.contains_key(item.key) {
                let layers = atlas.color_glyphs[item.key].layers@;
                lemma_layers_complete(before, item, style, layers, layers.len());
            }
        }
        lemma_items_complete(e, atlas, items, style, (n - 1) as nat);
        assert(next.instances =~= e.instances + all_of(atlas, items, style, n));
    }
}

/// How an area is laid out: its glyphs, the atlas that has them, and whether all
/// of its lines are among them.
pub struct Layout {
    pub atlas: AtlasState,
    pub items: Seq<WorkItem>,
    pub all_runs_included: bool,
}

impl Layout {
    /// Every instance of the layout, visible or not.
    pub open spec fn instances(self, color: Rgba) -> Seq<GlyphInstance> {
        let style = AreaStyle { default_color: color, bordered: false };
        all_of(self.atlas, self.items, style, self.items.len())
    }

    /// Whether every glyph comes with the geometry that its kind asks for.
    pub open spec fn ready(self) -> bool {
        forall|i: int|
            0 <= i < self.items.len() ==> item_ready(self.atlas, #[trigger] self.items[i], false)
    }

    /// Whether exactly the visible rectangles are flagged as visible.
    pub open spec fn flagged(self, sees: spec_fn(Rect) -> bool) -> bool {
        forall|i: int| 0 <= i < self.items.len() ==> flagged(#[trigger] self.items[i], sees)
    }
}

/// Whether an area is what a layout emits under a plan.
pub open spec fn laid_out(
    area: CachedTextArea,
    layout: Layout,
    plan: AreaPlan,
    color: Rgba,
) -> bool {
    area_laid_out(area, layout.atlas, plan, layout.items, color, layout.all_runs_included)
}

/// Whether a cached area, if it is complete, holds every instance of a layout.
pub open spec fn stands_for(cached: CachedTextArea, layout: Layout, color: Rgba) -> bool {
    cached.complete ==> cached.instances@ == layout.instances(color)
}

proof fn lemma_style_apart(
    atlas: AtlasState,
    items: Seq<WorkItem>,
    color: Rgba,
    bordered: bool,
    n: nat,
)
    ensures
        all_of(atlas, items, AreaStyle { default_color: color, bordered }, n) == all_of(
            atlas,
            items,
            AreaStyle { default_color: color, bordered: false },
            n,
        ),
    decreases n,
{
    if n > 0 {
        lemma_style_apart(atlas, items, color, bordered, (n - 1) as nat);
        let layers = atlas.color_glyphs[items[n - 1].key].layers@;
        lemma_layer_style_apart(items[n - 1], color, bordered, layers, layers.len());
    }
}

proof fn lemma_layer_style_apart(
    item: WorkItem,
    color: Rgba,
    bordered: bool,
    layers: Seq<ColorGlyphLayer>,
    n: nat,
)
    ensures
        all_layers(item, AreaStyle { default_color: color, bordered }, layers, n) == all_layers(
            item,
            AreaStyle { default_color: color, bordered: false },
            layers,
            n,
        ),
    decreases n,
{
    if n > 0 {
        lemma_layer_style_apart(item, color, bordered, layers, (n - 1) as nat);
    }
}

/// An area that is laid out as a whole holds every instance of its layout, with
/// a border or without.
pub proof fn lemma_laid_out_stands(
    area: CachedTextArea,
    layout: Layout,
    plan: AreaPlan,
    color: Rgba,
)
    requires
        laid_out(area, layout, plan, color),
    ensures
        stands_for(area, layout, color),
{
    let bordered = plan.border is Some;
    let style = AreaStyle { default_color: color, bordered };
    let n = layout.items.len();
    let e = nothing_emitted(layout.all_runs_included);
    if area.complete {
        lemma_items_complete(e, layout.atlas, layout.items, style, n);
        lemma_style_apart(layout.atlas, layout.items, color, bordered, n);
        assert(e.instances + layout.instances(color) =~= layout.instances(color));
    }
}

/// An area that is taken from the cache as it is goes on standing for its
/// layout.
pub proof fn lemma_refreshed_stands(
    before: CachedTextArea,
    after: CachedTextArea,
    atlas: AtlasState,
    plan: AreaPlan,
    layout: Layout,
    color: Rgba,
)
    requires
        area_refreshed(before, after, atlas, plan.border),
        stands_for(before, layout, color),
    ensures
        stands_for(after, layout, color),
{
}

/// Whether an area is culled anew where it stands: no instance is shifted, and
/// the visible ones are flagged.
pub open spec fn culled_in_place(
    cached: CachedTextArea,
    rects: Seq<Rect>,
    visible: Seq<bool>,
    sees: spec_fn(Rect) -> bool,
) -> bool {
    forall|i: int|
        0 <= i < cached.instances@.len() ==> {
            &&& (#[trigger] cached.instances@[i]).screen_rect == rects[i]
            &&& visible[i] == sees(rects[i])
        }
}

/// An area that is culled anew where it stands goes on standing for its layout.
pub proof fn lemma_reculled_stands(
    before: CachedTextArea,
    after: CachedTextArea,
    atlas: AtlasState,
    plan: AreaPlan,
    rects: Seq<Rect>,
    visible: Seq<bool>,
    layout: Layout,
    color: Rgba,
    sees: spec_fn(Rect) -> bool,
)
    requires
        area_reculled(before, after, atlas, plan, rects, visible),
        culled_in_place(before, rects, visible, sees),
        stands_for(before, layout, color),
    ensures
        stands_for(after, layout, color),
{
    let n = before.instances@.len();
    if after.complete {
        lemma_complete_loses_nothing(before.instances@, rects, visible, n);
        assert(after.instances@ =~= before.instances@) by {
            assert forall|i: int| 0 <= i < n implies after.instances@[i] == before.instances@[i] by {
                assert(before.instances@[i].screen_rect == rects[i]);
            }
        }
    }
}

proof fn lemma_same_layers(
    x: WorkItem,
    y: WorkItem,
    style: AreaStyle,
    layers: Seq<ColorGlyphLayer>,
    n: nat,
)
    requires
        same_glyph(x, y),
        n <= x.rects@.len(),
    ensures
        all_layers(x, style, layers, n) == all_layers(y, style, layers, n),
    decreases n,
{
    if n > 0 {
        lemma_same_layers(x, y, style, layers, (n - 1) as nat);
        assert(x.rects@[n - 1].rect == y.rects@[n - 1].rect);
    }
}

proof fn lemma_same_item(
    first: AtlasState,
    second: AtlasState,
    x: WorkItem,
    y: WorkItem,
    style: AreaStyle,
)
    requires
        item_ready(first, x, false),
        same_glyph(x, y),
        same_outline(first, second, x.key),
    ensures
        all_of_item(first, x, style) == all_of_item(second, y, style),
{
    let offset = first.glyphs@[x.key].band_offset;
    if offset == u32::MAX {
    } else if offset == u32::MAX - 1 {
        if first.color_glyphs.contains_key(x.key) {
            let layers = first.color_glyphs[x.key].layers@;
            lemma_same_layers(x, y, style, layers, layers.len());
        }
    } else if x.rects@.len() > 0 {
        assert(x.rects@[0].rect == y.rects@[0].rect);
    }
}

/// Whether no rectangle of a glyph is visible.
pub open spec fn hidden(item: WorkItem, sees: spec_fn(Rect) -> bool) -> bool {
    forall|j: int| 0 <= j < item.rects@.len() ==> !sees((#[trigger] item.rects@[j]).rect)
}

proof fn lemma_hidden_layers(
    item: WorkItem,
    style: AreaStyle,
    layers: Seq<ColorGlyphLayer>,
    n: nat,
    sees: spec_fn(Rect) -> bool,
)
    requires
        hidden(item, sees),
        n <= item.rects@.len(),
    ensures
        kept(all_layers(item, style, layers, n), sees) == Seq::<GlyphInstance>::empty(),
    decreases n,
{
    if n > 0 {
        lemma_hidden_layers(item, style, layers, (n - 1) as nat, sees);
        let before = all_layers(item, style, layers, (n - 1) as nat);
        let all = all_layers(item, style, layers, n);
        assert(!sees(item.rects@[n - 1].rect));
        if layers[n - 1].entry.band_offset != u32::MAX {
            lemma_kept_push(before, all.last(), sees);
        }
    }
}

proof fn lemma_hidden_item(
    atlas: AtlasState,
    item: WorkItem,
    style: AreaStyle,
    sees: spec_fn(Rect) -> bool,
)
    requires
        item_ready(atlas, item, false),
        hidden(item, sees),
    ensures
        kept(all_of_item(atlas, item, style), sees) == Seq::<GlyphInstance>::empty(),
{
    let offset = atlas.glyphs@[item.key].band_offset;
    let all = all_of_item(atlas, item, style);
    if offset == u32::MAX - 1 && atlas.color_glyphs.contains_key(item.key) {
        let layers = atlas.color_glyphs[item.key].layers@;
        lemma_hidden_layers(item, style, layers, layers.len(), sees);
    } else if all.len() > 0 {
        assert(!sees(item.rects@[0].rect));
        assert(all =~= seq![all[0]]);
        lemma_kept_one(all[0], sees);
    }
}

/// Whether the second layout is what is left of the first when glyphs before
/// `from` and from `to` on, of which nothing is visible, are left out: the lines
/// above and below those that are visible. Both have the same of every glyph.
pub open spec fn narrowed(
    first: Layout,
    second: Layout,
    from: int,
    to: int,
    sees: spec_fn(Rect) -> bool,
) -> bool {
    &&& 0 <= from <= to <= first.items.len()
    &&& second.items.len() == to - from
    &&& forall|i: int|
        from <= i < to ==> {
            &&& same_glyph(#[trigger] first.items[i], second.items[i - from])
            &&& same_outline(first.atlas, second.atlas, first.items[i].key)
        }
    &&& forall|i: int|
        0 <= i < first.items.len() && !(from <= i < to) ==> hidden(
            #[trigger] first.items[i],
            sees,
        )
}

proof fn lemma_narrowed_prefix(
    first: Layout,
    second: Layout,
    from: int,
    to: int,
    style: AreaStyle,
    n: nat,
    sees: spec_fn(Rect) -> bool,
)
    requires
        first.ready(),
        narrowed(first, second, from, to, sees),
        n <= first.items.len(),
    ensures
        kept(all_of(first.atlas, first.items, style, n), sees) == kept(
            all_of(
                second.atlas,
                second.items,
                style,
                (if n <= from {
                    0
                } else if n <= to {
                    n - from
                } else {
                    to - from
                }) as nat,
            ),
            sees,
        ),
    decreases n,
{
    if n > 0 {
        let i = n - 1;
        let x = first.items[i];
        lemma_narrowed_prefix(first, second, from, to, style, i as nat, sees);
        assert(item_ready(first.atlas, x, false));
        let before = all_of(first.atlas, first.items, style, i as nat);
        let more = all_of_item(first.atlas, x, style);
        lemma_kept_concat(before, more, sees);
        if from <= i < to {
            let y = second.items[i - from];
            lemma_same_item(first.atlas, second.atlas, x, y, style);
            lemma_kept_concat(
                all_of(second.atlas, second.items, style, (i - from) as nat),
                more,
                sees,
            );
        } else {
            lemma_hidden_item(first.atlas, x, style, sees);
            assert(kept(before, sees) + kept(more, sees) =~= kept(before, sees));
        }
    }
}

/// Lines without a visible glyph add nothing to what is visible of a layout.
pub proof fn lemma_hidden_lines_add_nothing(
    first: Layout,
    second: Layout,
    from: int,
    to: int,
    color: Rgba,
    sees: spec_fn(Rect) -> bool,
)
    requires
        first.ready(),
        narrowed(first, second, from, to, sees),
    ensures
        kept(first.instances(color), sees) == kept(second.instances(color), sees),
{
    let style = AreaStyle { default_color: color, bordered: false };
    lemma_narrowed_prefix(first, second, from, to, style, first.items.len(), sees);
}

/// An area that is laid out without a border shows what is visible of its
/// layout, and has no borders.
pub proof fn lemma_laid_out_shows(
    area: CachedTextArea,
    layout: Layout,
    plan: AreaPlan,
    color: Rgba,
    sees: spec_fn(Rect) -> bool,
)
    requires
        laid_out(area, layout, plan, color),
        plan.border is None,
        layout.ready(),
        layout.flagged(sees),
    ensures
        area.instances@ == kept(layout.instances(color), sees),
        area.border_instances@.len() == 0,
{
    let style = AreaStyle { default_color: color, bordered: false };
    let n = layout.items.len();
    let e = nothing_emitted(layout.all_runs_included);
    lemma_items_kept(e, layout.atlas, layout.items, style, n, sees);
    lemma_no_borders_without_style(e, layout.atlas, layout.items, style, n);
    let shown = kept(layout.instances(color), sees);
    assert(e.instances + shown =~= shown);
}

/// An area that loses its border is never taken from the cache as it is.
pub proof fn lemma_removed_border_not_direct(
    cached: CachedTextArea,
    atlas: AtlasState,
    area: TextArea,
    placement: Placement,
)
    requires
        cached.border_width is Some,
        area_border(area, placement) is None,
    ensures
        area_class(Some(cached), atlas, area, placement) != PlacementClass::Direct,
{
}

/// What becomes of an area whose border was taken away: it is culled anew where
/// it stands if it is cached as a whole, and laid out anew otherwise.
pub open spec fn border_dropped(
    cached: CachedTextArea,
    area: CachedTextArea,
    atlas: AtlasState,
    plan: AreaPlan,
    rects: Seq<Rect>,
    visible: Seq<bool>,
    again: Layout,
    color: Rgba,
    sees: spec_fn(Rect) -> bool,
) -> bool {
    match plan.class {
        PlacementClass::Direct => true,
        PlacementClass::ReCull => {
            &&& area_reculled(cached, area, atlas, plan, rects, visible)
            &&& culled_in_place(cached, rects, visible, sees)
        },
        PlacementClass::Miss => {
            &&& laid_out(area, again, plan, color)
            &&& again.ready()
            &&& again.flagged(sees)
        },
    }
}

/// A border that is taken away leaves no trace: the frame goes on with the
/// glyphs that a renderer that never saw the border goes on with, and the area
/// has no borders.
///
/// `v` is the renderer that has the area cached with its border, `w` the one
/// that lays it out for the first time. `first` is the layout that the cached
/// area stands for, `again` the one that is made if the area is laid out anew,
/// and `fresh` that of the other renderer. `sees` tells what is visible of the
/// area without its border. The layouts may differ in lines of which nothing is
/// visible, because more lines are visible with a border than without.
pub proof fn lemma_removed_border_leaves_no_trace(
    v: RendererState,
    w: RendererState,
    area: CachedTextArea,
    other: CachedTextArea,
    atlas: AtlasState,
    text_area: TextArea,
    placement: Placement,
    now: AtlasState,
    rects: Seq<Rect>,
    visible: Seq<bool>,
    first: Layout,
    again: Layout,
    fresh: Layout,
    color: Rgba,
    from: int,
    to: int,
    again_from: int,
    again_to: int,
    sees: spec_fn(Rect) -> bool,
)
    requires
        v.instances == w.instances,
        0 <= v.emitted < v.plans.len(),
        0 <= w.emitted < w.plans.len(),
        v.current_cached().border_width is Some,
        area_border(text_area, placement) is None,
        v.current().border is None,
        v.current().class == area_class(
            Some(v.current_cached()),
            atlas,
            text_area,
            placement,
        ),
        border_dropped(
            v.current_cached(),
            area,
            now,
            v.current(),
            rects,
            visible,
            again,
            color,
            sees,
        ),
        w.current().border is None,
        laid_out(other, fresh, w.current(), color),
        fresh.ready(),
        fresh.flagged(sees),
        v.current().class == PlacementClass::ReCull ==> {
            &&& stands_for(v.current_cached(), first, color)
            &&& first.ready()
            &&& narrowed(first, fresh, from, to, sees)
        },
        v.current().class == PlacementClass::Miss ==> narrowed(
            again,
            fresh,
            again_from,
            again_to,
            sees,
        ),
    ensures
        v.current().class != PlacementClass::Direct,
        !v.current_cached().complete ==> v.current().class == PlacementClass::Miss,
        v.area_emitted(area).instances == w.area_emitted(other).instances,
        v.area_emitted(area).borders == v.borders,
        w.area_emitted(other).borders == w.borders,
{
    let cached = v.current_cached();
    let shown = kept(fresh.instances(color), sees);
    lemma_removed_border_not_direct(cached, atlas, text_area, placement);
    lemma_laid_out_shows(other, fresh, w.current(), color, sees);
    if v.current().class == PlacementClass::ReCull {
        let n = cached.instances@.len();
        assert(cached.complete);
        lemma_reculled_kept(cached.instances@, rects, visible, n, sees);
        assert(cached.instances@.take(n as int) =~= cached.instances@);
        lemma_hidden_lines_add_nothing(first, fresh, from, to, color, sees);
    } else {
        lemma_laid_out_shows(area, again, v.current(), color, sees);
        lemma_hidden_lines_add_nothing(again, fresh, again_from, again_to, color, sees);
    }
    assert(area.instances@ == shown);
    assert(v.borders + area.border_instances@ =~= v.borders);
    assert(w.borders + other.border_instances@ =~= w.borders);
}

/// Whether an area has a border has no part in the glyphs that laying it out
/// emits.
pub proof fn lemma_border_adds_no_glyph(
    e: EmissionView,
    f: EmissionView,
    atlas: AtlasState,
    items: Seq<WorkItem>,
    color: Rgba,
    n: nat,
)
    requires
        f == (EmissionView { borders: f.borders, ..e }),
    ensures
        ({
            let plain = AreaStyle { default_color: color, bordered: false };
            let bordered = AreaStyle { default_color: color, bordered: true };
            let a = e.with_items(atlas, items, plain, n);
            let b = f.with_items(atlas, items, bordered, n);
            b == (EmissionView { borders: b.borders, ..a })
        }),
    decreases n,
{
    let plain = AreaStyle { default_color: color, bordered: false };
    let bordered = AreaStyle { default_color: color, bordered: true };
    if n > 0 {
        lemma_border_adds_no_glyph(e, f, atlas, items, color, (n - 1) as nat);
        let a = e.with_items(atlas, items, plain, (n - 1) as nat);
        let b = f.with_items(atlas, items, bordered, (n - 1) as nat);
        let item = items[n - 1];
        let layers = atlas.color_glyphs[item.key].layers@;
        lemma_layers_alike(a, b, item, color, layers, layers.len());
    }
}

proof fn lemma_layers_alike(
    a: EmissionView,
    b: EmissionView,
    item: WorkItem,
    color: Rgba,
    layers: Seq<ColorGlyphLayer>,
    n: nat,
)
    requires
        b == (EmissionView { borders: b.borders, ..a }),
    ensures
        ({
            let plain = AreaStyle { default_color: color, bordered: false };
            let bordered = AreaStyle { default_color: color, bordered: true };
            b.with_layers(item, bordered, layers, n) == (EmissionView {
                borders: b.borders,
                ..a.with_layers(item, plain, layers, n)
            })
        }),
    decreases n,
{
    if n > 0 {
        lemma_layers_alike(a, b, item, color, layers, (n - 1) as nat);
    }
}

} // verus!
