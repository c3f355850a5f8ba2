//! Preparing and drawing text areas.
//!
//! A frame is prepared in steps. Each area is planned: it is taken from the
//! cache as it is, culled anew, or laid out anew. Glyphs that are missing from
//! the atlas are brought into it. Then each area is emitted in its turn, and
//! the frame is finished. Drawing follows the plan of the last finished frame.

use crate::area_cache::{
    is_current, of_generation, AreaCache, AreaKey, CachedTextArea, Occurrences,
};
use crate::border::{border_instances_of, borders_of, borders_resolved, offset_resolved};
use crate::culling::{
    all_visible, classify_still, is_same_place, placement_class, re_cull_vector_instances,
    reculled, same_place, PlacementClass,
};
use crate::draw_order::{
    draws_cover, lemma_cover_kept, lemma_streams_apart, lemma_streams_kept,
    lemma_streams_retained, lemma_uniforms_suffice, streams_cached,
};
use crate::emit::{
    emit_items, item_keys, item_ready, lemma_no_borders_without_style, nothing_emitted, AreaStyle,
    NonVectorGlyph, WorkItem,
};
use crate::frames::{
    cache_reflects, lemma_current_reflected, lemma_keyed_planned, lemma_no_plans,
    lemma_reflects_emitted, lemma_reflects_planned, lemma_reflects_retained, plan_reflected,
    plans_keyed,
};
use crate::glyph_cache::{used_in, GlyphEntry, GlyphKey};
use crate::instance::{instance_stream_unchanged, GlyphInstance, Rect};
use crate::keys::{distinct_keys, distinct_of};
use crate::outline::{Point, Rgba};
use crate::scalar::Scalar;
use crate::text_atlas::{frame_advanced, next_epoch, AtlasState, TextAtlas};
use crate::types::{border_width, RenderError, Resolution, TextArea};
use vstd::prelude::*;

verus! {

/// How the areas of a frame were prepared.
#[derive(Clone, Copy, Debug, PartialEq, Eq, Structural)]
pub struct PrepareStats {
    pub direct_hits: usize,
    pub reculls: usize,
    pub misses: usize,
}

impl Default for PrepareStats {
    fn default() -> (r: PrepareStats)
        ensures
            r == (PrepareStats { direct_hits: 0, reculls: 0, misses: 0 }),
    {
        PrepareStats { direct_hits: 0, reculls: 0, misses: 0 }
    }
}

/// How the border of an area is painted.
#[derive(Clone, Copy, Debug, PartialEq, Eq, Structural)]
pub struct BorderUniform {
    pub color: Rgba,
    /// Width in physical pixels.
    pub width: Scalar,
}

/// The vertex stream that a draw takes its instances from.
#[derive(Clone, Copy, Debug, PartialEq, Eq, Structural)]
pub enum DrawStream {
    Normal,
    Border,
}

/// Whether a draw fills glyphs or draws underneath them.
#[derive(Clone, Copy, Debug, PartialEq, Eq, Structural)]
pub enum DrawMode {
    Fill,
    Underlay,
}

/// A range of a vertex stream, drawn in its turn.
#[derive(Clone, Copy, Debug, PartialEq, Eq, Structural)]
pub struct OrderedDraw {
    pub stream: DrawStream,
    pub start: u32,
    pub end: u32,
    pub mode: DrawMode,
    /// Which uniforms a border is painted with.
    pub uniform_offset: u32,
}

/// Where an area is to be drawn, in numbers that are worked out beforehand.
#[derive(Clone, Copy, Debug, PartialEq, Eq, Structural)]
pub struct Placement {
    pub scroll: Point,
    /// The width of the border times the scale of the area.
    pub border_product: Scalar,
    pub border_color: Rgba,
}

/// What is done with an area.
#[derive(Clone, Copy, Debug, PartialEq, Eq, Structural)]
pub struct AreaPlan {
    pub key: AreaKey,
    pub class: PlacementClass,
    pub area: TextArea,
    pub scroll: Point,
    /// How the border is painted, if there is one.
    pub border: Option<BorderUniform>,
}

/// A draw as it is handed to the graphics device.
#[derive(Clone, Copy, Debug, PartialEq, Eq, Structural)]
pub enum DrawCall {
    /// All glyphs, in a frame without borders.
    Glyphs { count: u32 },
    /// The borders of an area, with the place of their uniforms in bytes.
    Border { start: u32, end: u32, uniform_offset: u32 },
    /// The glyphs of an area.
    Fill { start: u32, end: u32 },
    /// All glyphs drawn from raster images, behind everything else.
    Raster { count: u32 },
}

/// What has to be uploaded for a frame.
#[derive(Clone, Copy, Debug, PartialEq, Eq, Structural)]
pub struct FrameUpload {
    pub vertices: bool,
    pub borders: bool,
}

/// Prepares text areas and says how they are drawn.
pub struct TextRenderer {
    atlas_id: u64,
    instances: Vec<GlyphInstance>,
    border_instances: Vec<GlyphInstance>,
    previous_instances: Vec<GlyphInstance>,
    previous_border_instances: Vec<GlyphInstance>,
    non_vector_glyphs: Vec<NonVectorGlyph>,
    draws: Vec<OrderedDraw>,
    border_uniforms: Vec<BorderUniform>,
    plans: Vec<AreaPlan>,
    emitted: usize,
    bordered: bool,
    missing_keys: Vec<GlyphKey>,
    glyphs_to_render: u32,
    raster_glyphs_to_render: u32,
    text_area_cache: AreaCache,
    text_area_occurrences: Occurrences,
    all_direct_hits: bool,
    prepare_stats: PrepareStats,
    last_prepare_stats: PrepareStats,
    cached_resolution: Resolution,
    prepared_atlas_generation: u32,
    counted_epoch: Option<u32>,
}

/// What a renderer holds.
pub struct RendererState {
    pub atlas_id: u64,
    /// The vertex streams of the frame.
    pub instances: Seq<GlyphInstance>,
    pub borders: Seq<GlyphInstance>,
    /// The vertex streams of the frame before.
    pub previous: Seq<GlyphInstance>,
    pub previous_borders: Seq<GlyphInstance>,
    pub rasters: Seq<NonVectorGlyph>,
    pub draws: Seq<OrderedDraw>,
    pub uniforms: Seq<BorderUniform>,
    /// What is done with the areas of the frame, and how many are emitted.
    pub plans: Seq<AreaPlan>,
    pub emitted: int,
    /// Glyphs of the frame that the atlas does not have.
    pub missing: Seq<GlyphKey>,
    pub glyphs_to_render: u32,
    pub raster_glyphs_to_render: u32,
    pub cache: Map<AreaKey, CachedTextArea>,
    pub occurrences: Occurrences,
    pub stats: PrepareStats,
    pub last_stats: PrepareStats,
    pub resolution: Resolution,
    pub prepared_generation: u32,
    /// The frame of the atlas that the renderer prepared in last.
    pub counted_epoch: Option<u32>,
}

impl View for TextRenderer {
    type V = RendererState;

    closed spec fn view(&self) -> RendererState {
        RendererState {
            atlas_id: self.atlas_id,
            instances: self.instances@,
            borders: self.border_instances@,
            previous: self.previous_instances@,
            previous_borders: self.previous_border_instances@,
            rasters: self.non_vector_glyphs@,
            draws: self.draws@,
            uniforms: self.border_uniforms@,
            plans: self.plans@,
            emitted: self.emitted as int,
            missing: self.missing_keys@,
            glyphs_to_render: self.glyphs_to_render,
            raster_glyphs_to_render: self.raster_glyphs_to_render,
            cache: self.text_area_cache@,
            occurrences: self.text_area_occurrences,
            stats: self.prepare_stats,
            last_stats: self.last_prepare_stats,
            resolution: self.cached_resolution,
            prepared_generation: self.prepared_atlas_generation,
            counted_epoch: self.counted_epoch,
        }
    }
}

impl RendererState {
    /// Whether some area of the frame has a border.
    pub open spec fn bordered(self) -> bool {
        exists|i: int| 0 <= i < self.plans.len() && (#[trigger] self.plans[i]).border is Some
    }

    /// Whether every area of the frame is taken from the cache as it is.
    pub open spec fn all_direct(self) -> bool {
        forall|i: int|
            0 <= i < self.plans.len() ==> (#[trigger] self.plans[i]).class
                == PlacementClass::Direct
    }

    /// Areas of the frame that show a buffer get the next free key.
    pub open spec fn next_key(self, buffer: u64) -> AreaKey {
        AreaKey { buffer, occurrence: self.occurrences.count(buffer) }
    }

    /// Whether the plans fit the cache: plans have keys of their own, and a
    /// plan that takes an area from the cache finds it there until its turn.
    pub open spec fn backed(self) -> bool {
        &&& 0 <= self.emitted <= self.plans.len()
        &&& forall|i: int|
            0 <= i < self.plans.len() ==> is_current(
                self.occurrences,
                (#[trigger] self.plans[i]).key,
            )
        &&& forall|i: int, j: int|
            0 <= i < j < self.plans.len() ==> (#[trigger] self.plans[i]).key != (
            #[trigger] self.plans[j]).key
        &&& forall|b: u64| #[trigger] self.occurrences.count(b) <= self.plans.len()
        &&& forall|i: int|
            #![trigger self.plans[i]]
            self.emitted <= i < self.plans.len() && self.plans[i].class != PlacementClass::Miss
                ==> {
                &&& self.cache.contains_key(self.plans[i].key)
                &&& self.plans[i].class == PlacementClass::Direct ==> (self.plans[i].border is None
                    <==> self.cache[self.plans[i].key].border_width is None)
            }
        &&& self.cache_sound()
    }

    /// A cached area without a border has no border instances.
    pub open spec fn cache_sound(self) -> bool {
        forall|k: AreaKey| #[trigger]
            self.cache.contains_key(k) && self.cache[k].border_width is None
                ==> self.cache[k].border_instances@.len() == 0
    }

    /// Nothing is drawn before the first area is emitted.
    pub open spec fn clean_start(self) -> bool {
        self.emitted == 0 ==> {
            &&& self.instances.len() == 0
            &&& self.borders.len() == 0
            &&& self.draws.len() == 0
            &&& self.uniforms.len() == 0
        }
    }

    /// How many areas were planned in each way.
    pub open spec fn counted(self) -> bool {
        self.stats.direct_hits + self.stats.reculls + self.stats.misses == self.plans.len()
    }
}

impl TextRenderer {
    /// Holds of every renderer that the functions below return or leave behind.
    pub closed spec fn wf(&self) -> bool {
        &&& self@.backed()
        &&& self@.counted()
        &&& self@.clean_start()
        &&& draws_cover(self@)
        &&& streams_cached(self@)
        &&& plans_keyed(self@.plans, self@.occurrences)
        &&& cache_reflects(self@.plans, self@.emitted, self@.cache)
        &&& self.bordered == self@.bordered()
        &&& self.all_direct_hits == self@.all_direct()
    }

    /// What the invariant says of the frame: the plans fit the cache, every
    /// area is counted, the draws cover what was emitted, in order, what was
    /// emitted is what is cached of the areas, the keys of the plans number the
    /// areas of each buffer, and what is cached of an area is as it was planned.
    pub proof fn lemma_wf(&self)
        requires
            self.wf(),
        ensures
            self@.backed(),
            self@.counted(),
            draws_cover(self@),
            streams_cached(self@),
            plans_keyed(self@.plans, self@.occurrences),
            cache_reflects(self@.plans, self@.emitted, self@.cache),
    {
    }
}

/// A renderer that has prepared nothing.
pub open spec fn fresh_renderer(v: RendererState, atlas_id: u64) -> bool {
    &&& v.atlas_id == atlas_id
    &&& v.instances == Seq::<GlyphInstance>::empty()
    &&& v.borders == Seq::<GlyphInstance>::empty()
    &&& v.previous == Seq::<GlyphInstance>::empty()
    &&& v.previous_borders == Seq::<GlyphInstance>::empty()
    &&& v.rasters == Seq::<NonVectorGlyph>::empty()
    &&& v.draws == Seq::<OrderedDraw>::empty()
    &&& v.uniforms == Seq::<BorderUniform>::empty()
    &&& v.plans == Seq::<AreaPlan>::empty()
    &&& v.missing == Seq::<GlyphKey>::empty()
    &&& v.emitted == 0
    &&& v.glyphs_to_render == 0
    &&& v.raster_glyphs_to_render == 0
    &&& v.cache == Map::<AreaKey, CachedTextArea>::empty()
    &&& v.stats == (PrepareStats { direct_hits: 0, reculls: 0, misses: 0 })
    &&& v.last_stats == v.stats
    &&& v.resolution == (Resolution { width: 0, height: 0 })
    &&& v.prepared_generation == 0
    &&& v.counted_epoch is None
    &&& forall|b: u64| #[trigger] v.occurrences.count(b) == 0
}

impl TextRenderer {
    /// A renderer for the atlas with this identity.
    pub fn new(atlas_id: u64) -> (r: TextRenderer)
        ensures
            r.wf(),
            fresh_renderer(r@, atlas_id),
    {
        let r = TextRenderer {
            atlas_id,
            instances: Vec::new(),
            border_instances: Vec::new(),
            previous_instances: Vec::new(),
            previous_border_instances: Vec::new(),
            non_vector_glyphs: Vec::new(),
            draws: Vec::new(),
            border_uniforms: Vec::new(),
            plans: Vec::new(),
            emitted: 0,
            bordered: false,
            missing_keys: Vec::new(),
            glyphs_to_render: 0,
            raster_glyphs_to_render: 0,
            text_area_cache: AreaCache::new(),
            text_area_occurrences: Occurrences::new(),
            all_direct_hits: true,
            prepare_stats: PrepareStats::default(),
            last_prepare_stats: PrepareStats::default(),
            cached_resolution: Resolution { width: 0, height: 0 },
            prepared_atlas_generation: 0,
            counted_epoch: None,
        };
        proof {
            assert(r.plans@ =~= Seq::empty());
            lemma_no_plans(r@.occurrences, r@.cache);
        }
        r
    }

    /// Begins to prepare a frame. The cache is dropped when the resolution
    /// changed. The atlas is the one that the renderer was made for. It counts
    /// the glyphs in use anew where this renderer prepares once more in the
    /// same frame; what other renderers use stays counted until then.
    pub fn begin_prepare(&mut self, atlas: &mut TextAtlas, resolution: Resolution)
        requires
            old(self).wf(),
            old(atlas).wf(),
            old(atlas)@.id == old(self)@.atlas_id,
        ensures
            final(self).wf(),
            frame_begun(old(self)@, final(self)@, resolution),
            final(self)@.counted_epoch == Some(final(atlas)@.glyphs.epoch()),
            final(atlas).wf(),
            final(atlas).mode() == old(atlas).mode(),
            uses_begun(old(self)@, old(atlas)@, final(atlas)@),
    {
        let again: bool = match self.counted_epoch {
            Some(epoch) => epoch == atlas.glyph_map().current_epoch(),
            None => false,
        };
        if again {
            atlas.begin_frame();
        }
        self.counted_epoch = Some(atlas.glyph_map().current_epoch());
        self.previous_instances = Vec::new();
        std::mem::swap(&mut self.previous_instances, &mut self.instances);
        self.previous_border_instances = Vec::new();
        std::mem::swap(&mut self.previous_border_instances, &mut self.border_instances);
        self.non_vector_glyphs = Vec::new();
        self.draws.clear();
        self.border_uniforms.clear();
        self.plans.clear();
        self.emitted = 0;
        self.bordered = false;
        self.missing_keys.clear();
        self.text_area_occurrences.clear();
        self.all_direct_hits = true;
        self.prepare_stats = PrepareStats::default();
        if resolution != self.cached_resolution {
            self.text_area_cache.clear();
            self.cached_resolution = resolution;
        }
        proof {
            assert(self.plans@ =~= Seq::empty());
            lemma_no_plans(self@.occurrences, self@.cache);
        }
    }
}

/// Whether a renderer has prepared in the current frame of an atlas already.
pub open spec fn prepares_again(v: RendererState, atlas: AtlasState) -> bool {
    v.counted_epoch == Some(atlas.glyphs.epoch())
}

/// What the beginning of a frame makes of the atlas: a renderer that prepares
/// once more starts a count, and any other leaves the atlas as it is.
pub open spec fn uses_begun(v: RendererState, before: AtlasState, after: AtlasState) -> bool {
    if prepares_again(v, before) {
        &&& frame_advanced(before, after)
        &&& after.glyphs.epoch() == next_epoch(before.glyphs.epoch())
    } else {
        after == before
    }
}

/// What the beginning of a frame makes of a renderer.
pub open spec fn frame_begun(
    before: RendererState,
    after: RendererState,
    resolution: Resolution,
) -> bool {
    &&& after == (RendererState {
        instances: Seq::empty(),
        borders: Seq::empty(),
        previous: before.instances,
        previous_borders: before.borders,
        rasters: Seq::empty(),
        draws: Seq::empty(),
        uniforms: Seq::empty(),
        plans: Seq::empty(),
        emitted: 0,
        missing: Seq::empty(),
        occurrences: after.occurrences,
        stats: PrepareStats { direct_hits: 0, reculls: 0, misses: 0 },
        cache: if resolution == before.resolution {
            before.cache
        } else {
            Map::empty()
        },
        resolution,
        counted_epoch: after.counted_epoch,
        ..before
    })
    &&& forall|b: u64| #[trigger] after.occurrences.count(b) == 0
}

/// The glyph cache with the known ones among the first `n` keys marked as used.
pub open spec fn marked_glyphs(
    glyphs: Map<GlyphKey, GlyphEntry>,
    epoch: u32,
    keys: Seq<GlyphKey>,
    n: nat,
) -> Map<GlyphKey, GlyphEntry>
    decreases n,
{
    if n == 0 {
        glyphs
    } else {
        let before = marked_glyphs(glyphs, epoch, keys, (n - 1) as nat);
        let key = keys[n - 1];
        if before.contains_key(key) {
            before.insert(key, used_in(before[key], epoch))
        } else {
            before
        }
    }
}

/// How many of the first `n` keys are known and were not used in this frame
/// before.
pub open spec fn newly_used(
    glyphs: Map<GlyphKey, GlyphEntry>,
    epoch: u32,
    keys: Seq<GlyphKey>,
    n: nat,
) -> int
    decreases n,
{
    if n == 0 {
        0
    } else {
        let before = marked_glyphs(glyphs, epoch, keys, (n - 1) as nat);
        let key = keys[n - 1];
        newly_used(glyphs, epoch, keys, (n - 1) as nat) + if before.contains_key(key)
            && before[key].last_used_epoch != epoch {
            1int
        } else {
            0
        }
    }
}

/// What marking keys makes of an atlas: known ones are used in this frame and
/// counted once, and nothing else changes.
pub open spec fn keys_marked(before: AtlasState, after: AtlasState, keys: Seq<GlyphKey>) -> bool {
    &&& after == (AtlasState { glyphs: after.glyphs, ..before })
    &&& after.glyphs.epoch() == before.glyphs.epoch()
    &&& after.glyphs@ == marked_glyphs(
        before.glyphs@,
        before.glyphs.epoch(),
        keys,
        keys.len(),
    )
    &&& after.glyphs.used() == before.glyphs.used() + newly_used(
        before.glyphs@,
        before.glyphs.epoch(),
        keys,
        keys.len(),
    )
    &&& after.glyphs.counts_used()
}

proof fn lemma_newly_used(
    glyphs: Map<GlyphKey, GlyphEntry>,
    epoch: u32,
    keys: Seq<GlyphKey>,
    n: nat,
)
    ensures
        0 <= newly_used(glyphs, epoch, keys, n) <= n,
    decreases n,
{
    if n > 0 {
        lemma_newly_used(glyphs, epoch, keys, (n - 1) as nat);
    }
}

proof fn lemma_marked_domain(
    glyphs: Map<GlyphKey, GlyphEntry>,
    epoch: u32,
    keys: Seq<GlyphKey>,
    n: nat,
)
    ensures
        marked_glyphs(glyphs, epoch, keys, n).dom() == glyphs.dom(),
    decreases n,
{
    if n > 0 {
        lemma_marked_domain(glyphs, epoch, keys, (n - 1) as nat);
        assert(marked_glyphs(glyphs, epoch, keys, n).dom() =~= glyphs.dom());
    }
}

proof fn lemma_marked_prefix(
    glyphs: Map<GlyphKey, GlyphEntry>,
    epoch: u32,
    a: Seq<GlyphKey>,
    b: Seq<GlyphKey>,
    n: nat,
)
    requires
        forall|i: int| 0 <= i < n ==> #[trigger] a[i] == b[i],
    ensures
        marked_glyphs(glyphs, epoch, a, n) == marked_glyphs(glyphs, epoch, b, n),
        newly_used(glyphs, epoch, a, n) == newly_used(glyphs, epoch, b, n),
    decreases n,
{
    if n > 0 {
        lemma_marked_prefix(glyphs, epoch, a, b, (n - 1) as nat);
        assert(a[n - 1] == b[n - 1]);
    }
}

/// How many keys come before the first that is not known.
pub open spec fn known_prefix(glyphs: Map<GlyphKey, GlyphEntry>, keys: Seq<GlyphKey>, i: int) -> int
    decreases keys.len() - i,
{
    if 0 <= i < keys.len() && glyphs.contains_key(keys[i]) {
        known_prefix(glyphs, keys, i + 1)
    } else {
        i
    }
}

/// Whether all keys are known.
pub open spec fn all_known(glyphs: Map<GlyphKey, GlyphEntry>, keys: Seq<GlyphKey>) -> bool {
    forall|i: int| 0 <= i < keys.len() ==> glyphs.contains_key(#[trigger] keys[i])
}

/// Marks keys as used, up to the first that is not known.
fn mark_known(atlas: &mut TextAtlas, keys: &Vec<GlyphKey>) -> (r: bool)
    requires
        old(atlas).wf(),
    ensures
        final(atlas).wf(),
        final(atlas).mode() == old(atlas).mode(),
        r == all_known(old(atlas)@.glyphs@, keys@),
        0 <= known_prefix(old(atlas)@.glyphs@, keys@, 0) <= keys.len(),
        r ==> known_prefix(old(atlas)@.glyphs@, keys@, 0) == keys.len(),
        keys_marked(
            old(atlas)@,
            final(atlas)@,
            keys@.take(known_prefix(old(atlas)@.glyphs@, keys@, 0)),
        ),
{
    let ghost glyphs = atlas@.glyphs@;
    let ghost epoch = atlas@.glyphs.epoch();
    proof {
        atlas.lemma_counts_used();
    }
    let mut i: usize = 0;
    while i < keys.len()
        invariant
            i <= keys.len(),
            atlas.wf(),
            atlas.mode() == old(atlas).mode(),
            glyphs == old(atlas)@.glyphs@,
            epoch == old(atlas)@.glyphs.epoch(),
            atlas@ == (AtlasState { glyphs: atlas@.glyphs, ..old(atlas)@ }),
            atlas@.glyphs.epoch() == epoch,
            atlas@.glyphs@ == marked_glyphs(glyphs, epoch, keys@, i as nat),
            atlas@.glyphs.used() == old(atlas)@.glyphs.used() + newly_used(
                glyphs,
                epoch,
                keys@,
                i as nat,
            ),
            atlas@.glyphs.counts_used(),
            known_prefix(glyphs, keys@, 0) == known_prefix(glyphs, keys@, i as int),
            forall|k: int| 0 <= k < i ==> glyphs.contains_key(#[trigger] keys@[k]),
        decreases keys.len() - i,
    {
        proof {
            lemma_newly_used(glyphs, epoch, keys@, i as nat);
            lemma_marked_domain(glyphs, epoch, keys@, i as nat);
            assert(glyphs.dom().contains(keys@[i as int]) == atlas@.glyphs@.dom().contains(
                keys@[i as int],
            ));
        }
        if atlas.glyph_mark_used(&keys[i]).is_none() {
            proof {
                lemma_marked_prefix(glyphs, epoch, keys@, keys@.take(i as int), i as nat);
            }
            return false;
        }
        i = i + 1;
    }
    assert(keys@.take(keys@.len() as int) =~= keys@);
    true
}

/// Whether a cached area can serve as it is or culled anew, as far as its
/// content goes.
pub open spec fn content_valid(cached: CachedTextArea, area: TextArea, generation: u32) -> bool {
    &&& !area.redraw
    &&& cached.scale.equal(area.scale)
    &&& cached.bounds == area.bounds
    &&& cached.default_color == area.default_color
    &&& cached.atlas_generation == generation
}

/// Whether an area stands where it was last prepared.
pub open spec fn stands_still(cached: CachedTextArea, area: TextArea) -> bool {
    same_place(cached.left, area.left) && same_place(cached.top, area.top)
}

/// Whether two widths are the same, where there are any.
pub open spec fn same_width(a: Option<Scalar>, b: Option<Scalar>) -> bool {
    match (a, b) {
        (Some(v), Some(w)) => v.equal(w),
        (None, None) => true,
        _ => false,
    }
}

fn is_same_width(a: Option<Scalar>, b: Option<Scalar>) -> (r: bool)
    ensures
        r == same_width(a, b),
{
    match (a, b) {
        (Some(v), Some(w)) => v.same(w),
        (None, None) => true,
        _ => false,
    }
}

/// The validated border of an area.
pub open spec fn area_border(area: TextArea, placement: Placement) -> Option<BorderUniform> {
    match border_width(area.border, area.scale, placement.border_product) {
        Some(width) => Some(BorderUniform { color: placement.border_color, width }),
        None => None,
    }
}

/// The width of a border.
pub open spec fn width_of(border: Option<BorderUniform>) -> Option<Scalar> {
    match border {
        Some(b) => Some(b.width),
        None => None,
    }
}

/// What is done with an area, given what is cached of it and the glyphs of
/// the atlas.
pub open spec fn area_class(
    cached: Option<CachedTextArea>,
    atlas: AtlasState,
    area: TextArea,
    placement: Placement,
) -> PlacementClass {
    match cached {
        Some(c) if content_valid(c, area, atlas.generation) && all_known(
            atlas.glyphs@,
            c.distinct_keys@,
        ) => placement_class(
            stands_still(c, area),
            c.scroll.equal(placement.scroll) && same_width(
                c.border_width,
                width_of(area_border(area, placement)),
            ),
            c.complete,
            c.non_vector_glyphs@.len() > 0,
        ),
        _ => PlacementClass::Miss,
    }
}

/// The glyphs that looking at a cached area marks as used.
pub open spec fn planned_keys(
    cached: Option<CachedTextArea>,
    atlas: AtlasState,
    area: TextArea,
) -> Seq<GlyphKey> {
    match cached {
        Some(c) if content_valid(c, area, atlas.generation) => c.distinct_keys@.take(
            known_prefix(atlas.glyphs@, c.distinct_keys@, 0),
        ),
        _ => Seq::empty(),
    }
}

/// What is cached under a key.
pub open spec fn cached_under(cache: Map<AreaKey, CachedTextArea>, key: AreaKey) -> Option<
    CachedTextArea,
> {
    if cache.contains_key(key) {
        Some(cache[key])
    } else {
        None
    }
}

/// One more area planned in a way.
pub open spec fn counted_once(stats: PrepareStats, class: PlacementClass) -> PrepareStats {
    match class {
        PlacementClass::Direct => PrepareStats {
            direct_hits: (stats.direct_hits + 1) as usize,
            ..stats
        },
        PlacementClass::ReCull => PrepareStats { reculls: (stats.reculls + 1) as usize, ..stats },
        PlacementClass::Miss => PrepareStats { misses: (stats.misses + 1) as usize, ..stats },
    }
}

/// The plan for an area.
pub open spec fn area_plan(
    v: RendererState,
    atlas: AtlasState,
    area: TextArea,
    placement: Placement,
) -> AreaPlan {
    let key = v.next_key(area.buffer);
    AreaPlan {
        key,
        class: area_class(cached_under(v.cache, key), atlas, area, placement),
        area,
        scroll: placement.scroll,
        border: area_border(area, placement),
    }
}

/// What planning an area makes of a renderer.
pub open spec fn area_planned(before: RendererState, after: RendererState, plan: AreaPlan) -> bool {
    &&& after == (RendererState {
        plans: before.plans.push(plan),
        stats: counted_once(before.stats, plan.class),
        occurrences: after.occurrences,
        ..before
    })
    &&& forall|b: u64| #[trigger]
        after.occurrences.count(b) == before.occurrences.count(b) + if b == plan.area.buffer {
            1int
        } else {
            0
        }
}

impl TextRenderer {
    /// Where the next area that shows a buffer was last prepared, if it is
    /// cached.
    pub fn cached_origin(&self, buffer: u64) -> (r: Option<Point>)
        ensures
            r == match cached_under(self@.cache, self@.next_key(buffer)) {
                Some(c) => Some(Point { x: c.left, y: c.top }),
                None => None,
            },
    {
        let key = AreaKey { buffer, occurrence: self.text_area_occurrences.get(buffer) };
        match self.text_area_cache.get(&key) {
            Some(cached) => Some(Point { x: cached.left, y: cached.top }),
            None => None,
        }
    }

    fn classify_area(
        &self,
        atlas: &mut TextAtlas,
        key: &AreaKey,
        area: &TextArea,
        placement: &Placement,
    ) -> (r: PlacementClass)
        requires
            old(atlas).wf(),
        ensures
            final(atlas).wf(),
            final(atlas).mode() == old(atlas).mode(),
            r == area_class(cached_under(self@.cache, *key), old(atlas)@, *area, *placement),
            keys_marked(
                old(atlas)@,
                final(atlas)@,
                planned_keys(cached_under(self@.cache, *key), old(atlas)@, *area),
            ),
    {
        proof {
            atlas.lemma_counts_used();
        }
        let cached = match self.text_area_cache.get(key) {
            Some(cached) => cached,
            None => {
                return PlacementClass::Miss;
            },
        };
        if area.redraw || !cached.scale.same(area.scale) || cached.bounds != area.bounds
            || cached.default_color != area.default_color || cached.atlas_generation
            != atlas.generation() {
            return PlacementClass::Miss;
        }
        if !mark_known(atlas, &cached.distinct_keys) {
            return PlacementClass::Miss;
        }
        let width = area.physical_border_width(placement.border_product);
        classify_still(
            is_same_place(cached.left, area.left) && is_same_place(cached.top, area.top),
            cached.scroll.same(&placement.scroll) && is_same_width(cached.border_width, width),
            cached.complete,
            cached.non_vector_glyphs.len() > 0,
        )
    }

    /// Plans an area: whether it is taken from the cache as it is, culled
    /// anew, or laid out anew. Glyphs of a cached area count as used. The atlas
    /// is the one that the renderer was made for.
    pub fn plan_area(
        &mut self,
        atlas: &mut TextAtlas,
        area: &TextArea,
        placement: &Placement,
    ) -> (r: AreaPlan)
        requires
            old(self).wf(),
            old(self)@.emitted == 0,
            old(self)@.plans.len() < usize::MAX,
            old(atlas).wf(),
            old(atlas)@.id == old(self)@.atlas_id,
        ensures
            final(self).wf(),
            final(atlas).wf(),
            final(atlas).mode() == old(atlas).mode(),
            r == area_plan(old(self)@, old(atlas)@, *area, *placement),
            area_planned(old(self)@, final(self)@, r),
            keys_marked(
                old(atlas)@,
                final(atlas)@,
                planned_keys(
                    cached_under(old(self)@.cache, old(self)@.next_key(area.buffer)),
                    old(atlas)@,
                    *area,
                ),
            ),
    {
        let key = AreaKey {
            buffer: area.buffer,
            occurrence: self.text_area_occurrences.get(area.buffer),
        };
        let class = self.classify_area(atlas, &key, area, placement);
        self.text_area_occurrences.next(area.buffer);
        let border = match area.physical_border_width(placement.border_product) {
            Some(width) => Some(BorderUniform { color: placement.border_color, width }),
            None => None,
        };
        let plan = AreaPlan { key, class, area: *area, scroll: placement.scroll, border };
        self.plans.push(plan);
        match class {
            PlacementClass::Direct => {
                self.prepare_stats.direct_hits = self.prepare_stats.direct_hits + 1;
            },
            PlacementClass::ReCull => {
                self.all_direct_hits = false;
                self.prepare_stats.reculls = self.prepare_stats.reculls + 1;
            },
            PlacementClass::Miss => {
                self.all_direct_hits = false;
                self.prepare_stats.misses = self.prepare_stats.misses + 1;
            },
        }
        if border.is_some() {
            self.bordered = true;
        }
        proof {
            lemma_planned(old(self)@, self@, plan);
            lemma_keyed_planned(old(self)@, self@, plan);
            assert(plan_reflected(plan, false, old(self)@.cache));
            lemma_reflects_planned(old(self)@, plan);
        }
        plan
    }
}

proof fn lemma_planned(before: RendererState, after: RendererState, plan: AreaPlan)
    requires
        before.backed(),
        before.counted(),
        before.emitted == 0,
        area_planned(before, after, plan),
        plan.key == before.next_key(plan.area.buffer),
        plan.class != PlacementClass::Miss ==> before.cache.contains_key(plan.key),
        plan.class == PlacementClass::Direct ==> same_width(
            before.cache[plan.key].border_width,
            width_of(plan.border),
        ),
        before.plans.len() < usize::MAX,
    ensures
        after.backed(),
        after.counted(),
        after.bordered() == (before.bordered() || plan.border is Some),
        after.all_direct() == (before.all_direct() && plan.class == PlacementClass::Direct),
{
    let n = before.plans.len() as int;
    assert forall|i: int| 0 <= i < after.plans.len() implies is_current(
        after.occurrences,
        (#[trigger] after.plans[i]).key,
    ) by {
        if i < n {
            assert(after.plans[i] == before.plans[i]);
        }
    }
    assert forall|i: int, j: int| 0 <= i < j < after.plans.len() implies (
    #[trigger] after.plans[i]).key != (#[trigger] after.plans[j]).key by {
        assert(after.plans[i] == before.plans[i]);
        if j < n {
            assert(after.plans[j] == before.plans[j]);
        } else {
            assert(is_current(before.occurrences, before.plans[i].key));
        }
    }
    assert forall|i: int|
        #![trigger after.plans[i]]
        after.emitted <= i < after.plans.len() && after.plans[i].class
            != PlacementClass::Miss implies {
        &&& after.cache.contains_key(after.plans[i].key)
        &&& after.plans[i].class == PlacementClass::Direct ==> (after.plans[i].border is None
            <==> after.cache[after.plans[i].key].border_width is None)
    } by {
        if i < n {
            assert(after.plans[i] == before.plans[i]);
        }
    }
    assert(after.plans[n] == plan);
    if before.bordered() {
        let i = choose|i: int|
            0 <= i < before.plans.len() && (#[trigger] before.plans[i]).border is Some;
        assert(after.plans[i] == before.plans[i]);
    }
    if after.bordered() && plan.border is None {
        let i = choose|i: int|
            0 <= i < after.plans.len() && (#[trigger] after.plans[i]).border is Some;
        assert(after.plans[i] == before.plans[i]);
    }
    if after.all_direct() {
        assert forall|i: int| 0 <= i < n implies (#[trigger] before.plans[i]).class
            == PlacementClass::Direct by {
            assert(after.plans[i] == before.plans[i]);
        }
    }
}

/// The keys among the first `n` that are not known.
pub open spec fn unknown_keys(
    glyphs: Map<GlyphKey, GlyphEntry>,
    keys: Seq<GlyphKey>,
    n: nat,
) -> Seq<GlyphKey>
    decreases n,
{
    if n == 0 {
        Seq::empty()
    } else {
        let before = unknown_keys(glyphs, keys, (n - 1) as nat);
        if glyphs.contains_key(keys[n - 1]) {
            before
        } else {
            before.push(keys[n - 1])
        }
    }
}

impl TextRenderer {
    /// Takes in the glyphs of an area that is laid out anew. Known glyphs count
    /// as used; the others are noted as missing.
    pub fn collect_glyphs(&mut self, atlas: &mut TextAtlas, keys: &Vec<GlyphKey>)
        requires
            old(self).wf(),
            old(atlas).wf(),
            old(atlas)@.id == old(self)@.atlas_id,
        ensures
            final(self).wf(),
            final(atlas).wf(),
            final(atlas).mode() == old(atlas).mode(),
            keys_marked(old(atlas)@, final(atlas)@, keys@),
            final(self)@ == (RendererState {
                missing: old(self)@.missing + unknown_keys(
                    old(atlas)@.glyphs@,
                    keys@,
                    keys@.len(),
                ),
                ..old(self)@
            }),
    {
        let ghost glyphs = atlas@.glyphs@;
        let ghost epoch = atlas@.glyphs.epoch();
        proof {
            atlas.lemma_counts_used();
        }
        let mut i: usize = 0;
        assert(self.missing_keys@ =~= old(self)@.missing + unknown_keys(glyphs, keys@, 0));
        while i < keys.len()
            invariant
                i <= keys.len(),
                old(self).wf(),
                self.wf(),
                atlas.wf(),
                atlas.mode() == old(atlas).mode(),
                glyphs == old(atlas)@.glyphs@,
                epoch == old(atlas)@.glyphs.epoch(),
                atlas@ == (AtlasState { glyphs: atlas@.glyphs, ..old(atlas)@ }),
                atlas@.glyphs.epoch() == epoch,
                atlas@.glyphs@ == marked_glyphs(glyphs, epoch, keys@, i as nat),
                atlas@.glyphs.used() == old(atlas)@.glyphs.used() + newly_used(
                    glyphs,
                    epoch,
                    keys@,
                    i as nat,
                ),
                atlas@.glyphs.counts_used(),
                self@ == (RendererState {
                    missing: old(self)@.missing + unknown_keys(glyphs, keys@, i as nat),
                    ..old(self)@
                }),
            decreases keys.len() - i,
        {
            proof {
                lemma_newly_used(glyphs, epoch, keys@, i as nat);
                lemma_marked_domain(glyphs, epoch, keys@, i as nat);
                assert(glyphs.dom().contains(keys@[i as int]) == atlas@.glyphs@.dom().contains(
                    keys@[i as int],
                ));
            }
            let key = keys[i];
            if atlas.glyph_mark_used(&key).is_none() {
                self.missing_keys.push(key);
            }
            i = i + 1;
            proof {
                assert(self.missing_keys@ =~= old(self)@.missing + unknown_keys(
                    glyphs,
                    keys@,
                    i as nat,
                ));
                lemma_streams_apart(old(self)@, self@);
            }
        }
    }

    /// The glyphs that have to be brought into the atlas, each once and in
    /// order, however many areas show them.
    pub fn distinct_misses(&self) -> (r: Vec<GlyphKey>)
        ensures
            distinct_of(r@, self@.missing),
    {
        distinct_keys(&self.missing_keys)
    }
}

/// Whether the streams have room for more instances. Draws count instances in
/// thirty-two bits.
pub open spec fn has_room(v: RendererState, instances: int, borders: int) -> bool {
    &&& v.instances.len() + instances <= u32::MAX
    &&& v.borders.len() + borders <= u32::MAX
    &&& v.uniforms.len() < u32::MAX
}

/// The draws that an area adds. Its borders come first, with uniforms of their
/// own; its glyphs follow, where draws are kept at all: in a frame that has
/// borders.
pub open spec fn area_draws(
    v: RendererState,
    instances: int,
    borders: int,
) -> Seq<OrderedDraw> {
    let border_draw = OrderedDraw {
        stream: DrawStream::Border,
        start: v.borders.len() as u32,
        end: (v.borders.len() + borders) as u32,
        mode: DrawMode::Underlay,
        uniform_offset: v.uniforms.len() as u32,
    };
    let fill_draw = OrderedDraw {
        stream: DrawStream::Normal,
        start: v.instances.len() as u32,
        end: (v.instances.len() + instances) as u32,
        mode: DrawMode::Fill,
        uniform_offset: 0,
    };
    let underlay = if borders > 0 {
        seq![border_draw]
    } else {
        Seq::empty()
    };
    if v.bordered() && instances > 0 {
        underlay.push(fill_draw)
    } else {
        underlay
    }
}

impl RendererState {
    /// The next area emitted: its instances follow those before it, its draws
    /// follow the draws before it, and what is cached of it is `area`.
    pub open spec fn area_emitted(self, area: CachedTextArea) -> RendererState {
        let plan = self.plans[self.emitted];
        RendererState {
            instances: self.instances + area.instances@,
            borders: self.borders + area.border_instances@,
            rasters: self.rasters + area.non_vector_glyphs@,
            draws: self.draws + area_draws(
                self,
                area.instances@.len() as int,
                area.border_instances@.len() as int,
            ),
            uniforms: if area.border_instances@.len() > 0 {
                self.uniforms.push(plan.border->0)
            } else {
                self.uniforms
            },
            cache: self.cache.insert(plan.key, area),
            emitted: self.emitted + 1,
            ..self
        }
    }
}

fn append_instances(to: &mut Vec<GlyphInstance>, from: &Vec<GlyphInstance>)
    ensures
        final(to)@ == old(to)@ + from@,
{
    let mut i: usize = 0;
    assert(to@ =~= old(to)@ + from@.take(0));
    while i < from.len()
        invariant
            i <= from.len(),
            to@ == old(to)@ + from@.take(i as int),
        decreases from.len() - i,
    {
        to.push(from[i]);
        i = i + 1;
        assert(to@ =~= old(to)@ + from@.take(i as int));
    }
    assert(from@.take(from@.len() as int) =~= from@);
}

fn append_rasters(to: &mut Vec<NonVectorGlyph>, from: &Vec<NonVectorGlyph>)
    ensures
        final(to)@ == old(to)@ + from@,
{
    let mut i: usize = 0;
    assert(to@ =~= old(to)@ + from@.take(0));
    while i < from.len()
        invariant
            i <= from.len(),
            to@ == old(to)@ + from@.take(i as int),
        decreases from.len() - i,
    {
        to.push(from[i]);
        i = i + 1;
        assert(to@ =~= old(to)@ + from@.take(i as int));
    }
    assert(from@.take(from@.len() as int) =~= from@);
}

proof fn lemma_emitted(v: RendererState, area: CachedTextArea)
    requires
        v.backed(),
        v.counted(),
        v.emitted < v.plans.len(),
        area.border_width is None ==> area.border_instances@.len() == 0,
    ensures
        v.area_emitted(area).backed(),
        v.area_emitted(area).counted(),
        v.area_emitted(area).bordered() == v.bordered(),
        v.area_emitted(area).all_direct() == v.all_direct(),
{
    let w = v.area_emitted(area);
    let plan = v.plans[v.emitted];
    assert forall|i: int|
        #![trigger w.plans[i]]
        w.emitted <= i < w.plans.len() && w.plans[i].class != PlacementClass::Miss implies {
        &&& w.cache.contains_key(w.plans[i].key)
        &&& w.plans[i].class == PlacementClass::Direct ==> (w.plans[i].border is None
            <==> w.cache[w.plans[i].key].border_width is None)
    } by {
        assert(v.plans[v.emitted].key != v.plans[i].key);
    }
}

impl TextRenderer {
    /// Emits an area: appends what it draws and puts it back into the cache.
    fn emit_area(&mut self, area: CachedTextArea)
        requires
            old(self).wf_but_for_cache(),
            old(self)@.emitted < old(self)@.plans.len(),
            has_room(
                old(self)@,
                area.instances@.len() as int,
                area.border_instances@.len() as int,
            ),
            area.border_instances@.len() > 0 ==> old(self)@.plans[old(self)@.emitted].border is Some,
        ensures
            final(self)@ == old(self)@.area_emitted(area),
            final(self).bordered == old(self).bordered,
            final(self).all_direct_hits == old(self).all_direct_hits,
    {
        let plan = self.plans[self.emitted];
        assert(self.emitted < self.plans.len());
        let next: usize = self.emitted + 1;
        let normal_start: u32 = self.instances.len() as u32;
        let border_start: u32 = self.border_instances.len() as u32;
        append_instances(&mut self.instances, &area.instances);
        append_instances(&mut self.border_instances, &area.border_instances);
        append_rasters(&mut self.non_vector_glyphs, &area.non_vector_glyphs);
        let normal_end: u32 = self.instances.len() as u32;
        let border_end: u32 = self.border_instances.len() as u32;
        if border_end > border_start {
            if let Some(paint) = plan.border {
                let uniform_offset: u32 = self.border_uniforms.len() as u32;
                self.border_uniforms.push(paint);
                self.draws.push(
                    OrderedDraw {
                        stream: DrawStream::Border,
                        start: border_start,
                        end: border_end,
                        mode: DrawMode::Underlay,
                        uniform_offset,
                    },
                );
            }
        }
        if self.bordered && normal_end > normal_start {
            self.draws.push(
                OrderedDraw {
                    stream: DrawStream::Normal,
                    start: normal_start,
                    end: normal_end,
                    mode: DrawMode::Fill,
                    uniform_offset: 0,
                },
            );
        }
        assert(self.draws@ =~= old(self)@.draws + area_draws(
            old(self)@,
            area.instances@.len() as int,
            area.border_instances@.len() as int,
        ));
        self.text_area_cache.insert(plan.key, area);
        self.emitted = next;
    }

    closed spec fn wf_but_for_cache(&self) -> bool {
        &&& 0 <= self@.emitted <= self@.plans.len()
        &&& self.bordered == self@.bordered()
    }
}

/// A cached area taken as it is. Its borders are made anew where it has any,
/// because border data may have moved.
pub open spec fn refreshed_borders(
    cached: CachedTextArea,
    atlas: AtlasState,
    border: Option<BorderUniform>,
) -> Seq<GlyphInstance> {
    if border is Some {
        borders_of(atlas, cached.distinct_keys@, cached.instances@, cached.instances@.len())
    } else {
        cached.border_instances@
    }
}

/// What a direct hit leaves in the cache.
pub open spec fn area_refreshed(
    before: CachedTextArea,
    after: CachedTextArea,
    atlas: AtlasState,
    border: Option<BorderUniform>,
) -> bool {
    &&& after.border_instances@ == refreshed_borders(before, atlas, border)
    &&& after == (CachedTextArea { border_instances: after.border_instances, ..before })
}

/// What culling anew leaves in the cache.
pub open spec fn area_reculled(
    before: CachedTextArea,
    after: CachedTextArea,
    atlas: AtlasState,
    plan: AreaPlan,
    rects: Seq<Rect>,
    visible: Seq<bool>,
) -> bool {
    let n = before.instances@.len();
    &&& after.instances@ == reculled(before.instances@, rects, visible, n)
    &&& after.border_instances@ == if plan.border is Some {
        borders_of(atlas, before.distinct_keys@, after.instances@, after.instances@.len())
    } else {
        Seq::empty()
    }
    &&& after.complete == (before.complete && all_visible(visible, n))
    &&& after == (CachedTextArea {
        left: plan.area.left,
        top: plan.area.top,
        scroll: plan.scroll,
        border_width: width_of(plan.border),
        instances: after.instances,
        border_instances: after.border_instances,
        complete: after.complete,
        ..before
    })
}

/// What laying out anew leaves in the cache.
pub open spec fn area_laid_out(
    after: CachedTextArea,
    atlas: AtlasState,
    plan: AreaPlan,
    items: Seq<WorkItem>,
    default_color: Rgba,
    all_runs_included: bool,
) -> bool {
    let style = AreaStyle { default_color, bordered: plan.border is Some };
    let emission = nothing_emitted(all_runs_included).with_items(
        atlas,
        items,
        style,
        items.len(),
    );
    &&& after.instances@ == emission.instances
    &&& after.border_instances@ == emission.borders
    &&& after.non_vector_glyphs@ == emission.rasters
    &&& after.complete == emission.complete
    &&& distinct_of(after.distinct_keys@, item_keys(items))
    &&& after.left == plan.area.left
    &&& after.top == plan.area.top
    &&& after.scroll == plan.scroll
    &&& after.scale == plan.area.scale
    &&& after.bounds == plan.area.bounds
    &&& after.default_color == plan.area.default_color
    &&& after.border_width == width_of(plan.border)
    &&& after.atlas_generation == atlas.generation
}

fn border_width_of(border: Option<BorderUniform>) -> (r: Option<Scalar>)
    ensures
        r == width_of(border),
{
    match border {
        Some(b) => Some(b.width),
        None => None,
    }
}

impl RendererState {
    /// The plan of the area that is emitted next.
    pub open spec fn current(self) -> AreaPlan {
        self.plans[self.emitted]
    }

    /// What is cached of the area that is emitted next.
    pub open spec fn current_cached(self) -> CachedTextArea {
        self.cache[self.current().key]
    }
}

impl TextRenderer {
    /// The plan of the area that is emitted next, while there is one.
    pub fn current_plan(&self) -> (r: Option<AreaPlan>)
        requires
            self.wf(),
        ensures
            r == (if self@.emitted < self@.plans.len() {
                Some(self@.current())
            } else {
                None
            }),
    {
        if self.emitted < self.plans.len() {
            Some(self.plans[self.emitted])
        } else {
            None
        }
    }

    /// The cached instances of the area that is emitted next.
    pub fn current_instances(&self) -> (r: Option<&Vec<GlyphInstance>>)
        requires
            self.wf(),
            self@.emitted < self@.plans.len(),
        ensures
            match r {
                Some(instances) => self@.cache.contains_key(self@.current().key) && instances@
                    == self@.current_cached().instances@,
                None => !self@.cache.contains_key(self@.current().key),
            },
    {
        match self.text_area_cache.get(&self.plans[self.emitted].key) {
            Some(cached) => Some(&cached.instances),
            None => None,
        }
    }

    /// Emits an area that is taken from the cache as it is.
    pub fn emit_direct(&mut self, atlas: &TextAtlas)
        requires
            old(self).wf(),
            old(self)@.emitted < old(self)@.plans.len(),
            atlas@.id == old(self)@.atlas_id,
            old(self)@.current().class == PlacementClass::Direct,
            old(self)@.current().border is Some ==> borders_resolved(
                atlas@,
                old(self)@.current_cached().distinct_keys@,
                old(self)@.current_cached().instances@,
            ),
            has_room(
                old(self)@,
                old(self)@.current_cached().instances@.len() as int,
                old(self)@.current_cached().instances@.len() as int,
            ),
        ensures
            final(self).wf(),
            exists|area: CachedTextArea|
                area_refreshed(
                    old(self)@.current_cached(),
                    area,
                    atlas@,
                    old(self)@.current().border,
                ) && final(self)@ == #[trigger] old(self)@.area_emitted(area),
    {
        let plan = self.plans[self.emitted];
        if let Some(cached) = self.text_area_cache.take(&plan.key) {
            let mut area = cached;
            if plan.border.is_some() {
                area.border_instances = border_instances_of(
                    atlas,
                    &area.distinct_keys,
                    &area.instances,
                );
            }
            let ghost taken = self@;
            let ghost given = area;
            self.emit_area(area);
            proof {
                lemma_take_emitted(old(self)@, taken, given);
                lemma_emitted(old(self)@, given);
                lemma_cover_kept(old(self)@, given);
                lemma_streams_kept(old(self)@, given);
                lemma_current_reflected(old(self)@);
                lemma_reflects_emitted(old(self)@, given);
            }
        }
    }

    /// Emits an area that is culled anew. `rects` holds the shifted rectangle
    /// of each cached instance and `visible` says whether it is visible there.
    pub fn emit_reculled(&mut self, atlas: &TextAtlas, rects: &Vec<Rect>, visible: &Vec<bool>)
        requires
            old(self).wf(),
            old(self)@.emitted < old(self)@.plans.len(),
            atlas@.id == old(self)@.atlas_id,
            old(self)@.current().class == PlacementClass::ReCull,
            rects.len() == old(self)@.current_cached().instances@.len(),
            visible.len() == old(self)@.current_cached().instances@.len(),
            old(self)@.current().border is Some ==> borders_resolved(
                atlas@,
                old(self)@.current_cached().distinct_keys@,
                old(self)@.current_cached().instances@,
            ),
            has_room(old(self)@, rects.len() as int, rects.len() as int),
        ensures
            final(self).wf(),
            exists|area: CachedTextArea|
                area_reculled(
                    old(self)@.current_cached(),
                    area,
                    atlas@,
                    old(self)@.current(),
                    rects@,
                    visible@,
                ) && final(self)@ == #[trigger] old(self)@.area_emitted(area),
    {
        let plan = self.plans[self.emitted];
        if let Some(cached) = self.text_area_cache.take(&plan.key) {
            let mut area = cached;
            let (instances, complete): (Vec<GlyphInstance>, bool) = re_cull_vector_instances(
                &area.instances,
                area.complete,
                rects,
                visible,
            );
            proof {
                lemma_reculled_length(area.instances@, rects@, visible@, area.instances@.len());
                if plan.border is Some {
                    lemma_reculled_resolved(
                        atlas@,
                        area.distinct_keys@,
                        area.instances@,
                        rects@,
                        visible@,
                        area.instances@.len(),
                    );
                }
            }
            area.border_instances = if plan.border.is_some() {
                border_instances_of(atlas, &area.distinct_keys, &instances)
            } else {
                Vec::new()
            };
            area.left = plan.area.left;
            area.top = plan.area.top;
            area.scroll = plan.scroll;
            area.border_width = border_width_of(plan.border);
            area.instances = instances;
            area.complete = complete;
            let ghost taken = self@;
            let ghost given = area;
            self.emit_area(area);
            proof {
                lemma_take_emitted(old(self)@, taken, given);
                lemma_emitted(old(self)@, given);
                lemma_cover_kept(old(self)@, given);
                lemma_streams_kept(old(self)@, given);
                lemma_current_reflected(old(self)@);
                lemma_reflects_emitted(old(self)@, given);
            }
        }
    }

    /// Emits an area that is laid out anew, and caches it. `items` holds its
    /// glyphs with their geometry; `all_runs_included` says whether all of its
    /// lines are among them.
    pub fn emit_miss(
        &mut self,
        atlas: &TextAtlas,
        items: &Vec<WorkItem>,
        default_color: Rgba,
        all_runs_included: bool,
    )
        requires
            old(self).wf(),
            old(self)@.emitted < old(self)@.plans.len(),
            atlas@.id == old(self)@.atlas_id,
            old(self)@.current().class == PlacementClass::Miss,
            forall|i: int|
                0 <= i < items.len() ==> item_ready(
                    atlas@,
                    #[trigger] items@[i],
                    old(self)@.current().border is Some,
                ),
            ({
                let emission = nothing_emitted(all_runs_included).with_items(
                    atlas@,
                    items@,
                    (AreaStyle { default_color, bordered: old(self)@.current().border is Some }),
                    items@.len(),
                );
                has_room(
                    old(self)@,
                    emission.instances.len() as int,
                    emission.borders.len() as int,
                )
            }),
        ensures
            final(self).wf(),
            exists|area: CachedTextArea|
                area_laid_out(
                    area,
                    atlas@,
                    old(self)@.current(),
                    items@,
                    default_color,
                    all_runs_included,
                ) && final(self)@ == #[trigger] old(self)@.area_emitted(area),
    {
        let plan = self.plans[self.emitted];
        let style = AreaStyle { default_color, bordered: plan.border.is_some() };
        let emission = emit_items(atlas, items, &style, all_runs_included);
        proof {
            if plan.border is None {
                lemma_no_borders_without_style(
                    nothing_emitted(all_runs_included),
                    atlas@,
                    items@,
                    style,
                    items@.len(),
                );
            }
        }
        let area = CachedTextArea {
            left: plan.area.left,
            top: plan.area.top,
            scroll: plan.scroll,
            scale: plan.area.scale,
            bounds: plan.area.bounds,
            default_color: plan.area.default_color,
            border_width: border_width_of(plan.border),
            atlas_generation: atlas.generation(),
            instances: emission.instances,
            border_instances: emission.border_instances,
            distinct_keys: emission.distinct_keys,
            non_vector_glyphs: emission.non_vector_glyphs,
            complete: emission.complete,
        };
        let ghost given = area;
        self.emit_area(area);
        proof {
            lemma_emitted(old(self)@, given);
            lemma_cover_kept(old(self)@, given);
            lemma_streams_kept(old(self)@, given);
            lemma_reflects_emitted(old(self)@, given);
        }
    }
}

proof fn lemma_take_emitted(v: RendererState, taken: RendererState, area: CachedTextArea)
    requires
        taken == (RendererState { cache: v.cache.remove(v.current().key), ..v }),
    ensures
        taken.area_emitted(area) == v.area_emitted(area),
{
    assert(taken.cache.insert(v.current().key, area) =~= v.cache.insert(v.current().key, area));
    assert(taken.bordered() == v.bordered());
}

proof fn lemma_reculled_length(
    instances: Seq<GlyphInstance>,
    rects: Seq<Rect>,
    visible: Seq<bool>,
    n: nat,
)
    ensures
        reculled(instances, rects, visible, n).len() <= n,
    decreases n,
{
    if n > 0 {
        lemma_reculled_length(instances, rects, visible, (n - 1) as nat);
    }
}

proof fn lemma_reculled_resolved(
    atlas: AtlasState,
    keys: Seq<GlyphKey>,
    instances: Seq<GlyphInstance>,
    rects: Seq<Rect>,
    visible: Seq<bool>,
    n: nat,
)
    requires
        n <= instances.len(),
        borders_resolved(atlas, keys, instances),
    ensures
        borders_resolved(atlas, keys, reculled(instances, rects, visible, n)),
    decreases n,
{
    if n > 0 {
        lemma_reculled_resolved(atlas, keys, instances, rects, visible, (n - 1) as nat);
        assert(offset_resolved(atlas, keys, instances[n - 1].glyph_offset));
    }
}

/// What the end of a frame makes of a renderer. Areas that are not part of the
/// frame leave the cache. The vertex streams have to be uploaded unless every
/// area was taken from the cache as it is and the stream is what it was.
pub open spec fn frame_finished(
    before: RendererState,
    after: RendererState,
    generation: u32,
    raster_count: u32,
    upload: FrameUpload,
) -> bool {
    &&& after == (RendererState {
        cache: after.cache,
        glyphs_to_render: before.instances.len() as u32,
        raster_glyphs_to_render: raster_count,
        last_stats: before.stats,
        prepared_generation: generation,
        ..before
    })
    &&& forall|k: AreaKey| #[trigger]
        after.cache.contains_key(k) <==> before.cache.contains_key(k) && is_current(
            before.occurrences,
            k,
        )
    &&& forall|k: AreaKey| #[trigger]
        after.cache.contains_key(k) ==> after.cache[k] == of_generation(
            before.cache[k],
            generation,
        )
    &&& upload.vertices == !(before.all_direct() && before.instances == before.previous
        && before.instances.len() == before.glyphs_to_render)
    &&& upload.borders == !(before.all_direct() && before.borders == before.previous_borders)
}

impl TextRenderer {
    /// Finishes a frame of which every area is emitted. It can be drawn from
    /// the atlas as long as that is not reset. `raster_count` is the number of
    /// glyphs drawn from raster images.
    pub fn finish_prepare(&mut self, atlas: &TextAtlas, raster_count: u32) -> (r: FrameUpload)
        requires
            old(self).wf(),
            atlas@.id == old(self)@.atlas_id,
            old(self)@.emitted == old(self)@.plans.len(),
            old(self)@.instances.len() <= u32::MAX,
        ensures
            final(self).wf(),
            frame_finished(old(self)@, final(self)@, atlas@.generation, raster_count, r),
            drawable(final(self)@, atlas@),
    {
        let generation: u32 = atlas.generation();
        self.text_area_cache.retain(&self.text_area_occurrences, generation);
        let normal_unchanged: bool = instance_stream_unchanged(
            &self.instances,
            &self.previous_instances,
        );
        let border_unchanged: bool = instance_stream_unchanged(
            &self.border_instances,
            &self.previous_border_instances,
        );
        let skip: bool = self.all_direct_hits && normal_unchanged && self.instances.len()
            == self.glyphs_to_render as usize;
        self.glyphs_to_render = self.instances.len() as u32;
        self.raster_glyphs_to_render = raster_count;
        self.prepared_atlas_generation = generation;
        self.last_prepare_stats = self.prepare_stats;
        proof {
            lemma_streams_retained(old(self)@, self@);
            lemma_reflects_retained(
                self@.plans,
                self@.emitted,
                self@.occurrences,
                old(self)@.cache,
                self@.cache,
                generation,
            );
        }
        FrameUpload { vertices: !skip, borders: !(self.all_direct_hits && border_unchanged) }
    }

    /// The raster glyphs of the frame.
    pub fn non_vector_glyphs(&self) -> (r: &Vec<NonVectorGlyph>)
        ensures
            r@ == self@.rasters,
    {
        &self.non_vector_glyphs
    }

    /// How borders of the frame are painted, area by area.
    pub fn border_uniforms(&self) -> (r: &Vec<BorderUniform>)
        ensures
            r@ == self@.uniforms,
    {
        &self.border_uniforms
    }

    /// Vector instances emitted by the frame.
    pub fn prepared_instances(&self) -> (r: &Vec<GlyphInstance>)
        ensures
            r@ == self@.instances,
    {
        &self.instances
    }

    /// Border instances emitted by the frame.
    pub fn prepared_border_instances(&self) -> (r: &Vec<GlyphInstance>)
        ensures
            r@ == self@.borders,
    {
        &self.border_instances
    }

    /// How the areas of the last finished frame were prepared.
    pub fn last_prepare_stats(&self) -> (r: PrepareStats)
        ensures
            r == self@.last_stats,
    {
        self.last_prepare_stats
    }

    /// The plans of the frame.
    pub fn plans(&self) -> (r: &Vec<AreaPlan>)
        ensures
            r@ == self@.plans,
    {
        &self.plans
    }

    /// What is cached of an area.
    pub fn cached_area(&self, key: &AreaKey) -> (r: Option<&CachedTextArea>)
        ensures
            match r {
                Some(area) => self@.cache.contains_key(*key) && *area == self@.cache[*key],
                None => !self@.cache.contains_key(*key),
            },
    {
        self.text_area_cache.get(key)
    }

    /// The identity of the atlas that this renderer was made for.
    pub fn atlas_id(&self) -> (r: u64)
        ensures
            r == self@.atlas_id,
    {
        self.atlas_id
    }

    /// The atlas keeps track of what can be let go; a renderer has nothing of
    /// its own.
    pub fn trim(&mut self)
        ensures
            *final(self) == *old(self),
    {
    }
}

/// A draw as it is handed to the device. The uniforms of border draws lie
/// `stride` bytes apart.
pub open spec fn draw_call(draw: OrderedDraw, stride: u64) -> DrawCall {
    match draw.stream {
        DrawStream::Border => DrawCall::Border {
            start: draw.start,
            end: draw.end,
            uniform_offset: (draw.uniform_offset * stride % 0x1_0000_0000) as u32,
        },
        DrawStream::Normal => DrawCall::Fill { start: draw.start, end: draw.end },
    }
}

/// The draws of a frame: one for all glyphs where there are no borders, and
/// otherwise the draws of the areas in their order. Raster glyphs come last.
pub open spec fn frame_calls(v: RendererState, stride: u64) -> Seq<DrawCall> {
    let vector = if v.borders.len() == 0 {
        if v.glyphs_to_render > 0 {
            seq![DrawCall::Glyphs { count: v.glyphs_to_render }]
        } else {
            Seq::empty()
        }
    } else {
        v.draws.map_values(|d: OrderedDraw| draw_call(d, stride))
    };
    if v.raster_glyphs_to_render > 0 {
        vector.push(DrawCall::Raster { count: v.raster_glyphs_to_render })
    } else {
        vector
    }
}

/// Whether a prepared frame can be drawn from an atlas: it is the atlas the
/// renderer was made for, and it was not reset since.
pub open spec fn drawable(v: RendererState, atlas: AtlasState) -> bool {
    atlas.id == v.atlas_id && atlas.generation == v.prepared_generation
}

impl TextRenderer {
    /// The draws of the frame that was prepared last. `stride` is the distance
    /// of border uniforms in bytes.
    pub fn render(&self, atlas: &TextAtlas, stride: u64) -> (r: Result<Vec<DrawCall>, RenderError>)
        requires
            self.wf(),
            self@.uniforms.len() * stride <= u64::MAX,
        ensures
            match r {
                Ok(calls) => drawable(self@, atlas@) && calls@ == frame_calls(self@, stride),
                Err(e) => !drawable(self@, atlas@) && e == RenderError::RemovedFromAtlas,
            },
    {
        if atlas.id() != self.atlas_id {
            return Err(RenderError::RemovedFromAtlas);
        }
        if atlas.generation() != self.prepared_atlas_generation {
            return Err(RenderError::RemovedFromAtlas);
        }
        let mut calls: Vec<DrawCall> = Vec::new();
        if self.border_instances.len() == 0 {
            if self.glyphs_to_render > 0 {
                calls.push(DrawCall::Glyphs { count: self.glyphs_to_render });
                assert(calls@ =~= seq![DrawCall::Glyphs { count: self.glyphs_to_render }]);
            }
        } else {
            let ghost all = self@.draws.map_values(|d: OrderedDraw| draw_call(d, stride));
            let mut i: usize = 0;
            while i < self.draws.len()
                invariant
                    i <= self.draws.len(),
                    self.wf(),
                    self@.uniforms.len() * stride <= u64::MAX,
                    all == self@.draws.map_values(|d: OrderedDraw| draw_call(d, stride)),
                    calls@ == all.take(i as int),
                decreases self.draws.len() - i,
            {
                let draw = self.draws[i];
                proof {
                    lemma_uniforms_suffice(self@, i as int);
                    if draw.stream == DrawStream::Border {
                        assert(draw.uniform_offset * stride <= self@.uniforms.len() * stride)
                            by (nonlinear_arith)
                            requires
                                draw.uniform_offset <= self@.uniforms.len(),
                        ;
                    }
                }
                let call = match draw.stream {
                    DrawStream::Border => {
                        let bytes: u64 = draw.uniform_offset as u64 * stride;
                        DrawCall::Border {
                            start: draw.start,
                            end: draw.end,
                            uniform_offset: (bytes % 0x1_0000_0000) as u32,
                        }
                    },
                    DrawStream::Normal => DrawCall::Fill { start: draw.start, end: draw.end },
                };
                calls.push(call);
                i = i + 1;
                assert(calls@ =~= all.take(i as int));
            }
            assert(calls@ =~= all);
        }
        if self.raster_glyphs_to_render > 0 {
            calls.push(DrawCall::Raster { count: self.raster_glyphs_to_render });
        }
        assert(calls@ =~= frame_calls(self@, stride));
        Ok(calls)
    }
}

} // verus!
