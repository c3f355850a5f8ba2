//! What holds from frame to frame: which areas are taken from the cache, and
//! that a frame that is prepared again draws what it drew before.

use crate::area_cache::{is_current, of_generation, AreaKey, CachedTextArea, Occurrences};
use crate::culling::{same_place, PlacementClass};
use crate::draw_order::{cached_instances, cached_rasters, streams_cached};
use crate::scalar::Scalar;
use crate::text_atlas::{next_epoch, AtlasState};
use crate::text_renderer::{
    all_known, area_border, area_plan, area_planned, area_refreshed, frame_begun, frame_finished,
    prepares_again, same_width, uses_begun, width_of, AreaPlan, FrameUpload, Placement,
    PrepareStats, RendererState,
};
use crate::types::{Resolution, TextArea};
use vstd::prelude::*;

verus! {

/// How many of the first `n` plans show a buffer.
pub open spec fn shown_before(plans: Seq<AreaPlan>, buffer: u64, n: nat) -> nat
    decreases n,
{
    if n == 0 {
        0
    } else {
        shown_before(plans, buffer, (n - 1) as nat) + (if plans[n - 1].area.buffer == buffer {
            1nat
        } else {
            0
        })
    }
}

/// Whether the key of each plan is the buffer that its area shows and the
/// number of areas before it that show the same one.
#[verifier::opaque]
pub open spec fn plans_keyed(plans: Seq<AreaPlan>, occurrences: Occurrences) -> bool {
    &&& forall|i: int|
        0 <= i < plans.len() ==> {
            &&& (#[trigger] plans[i]).key.buffer == plans[i].area.buffer
            &&& plans[i].key.occurrence == shown_before(plans, plans[i].area.buffer, i as nat)
        }
    &&& forall|b: u64| #[trigger] occurrences.count(b) == shown_before(plans, b, plans.len())
}

proof fn lemma_shown_prefix(a: Seq<AreaPlan>, b: Seq<AreaPlan>, buffer: u64, n: nat)
    requires
        n <= a.len(),
        n <= b.len(),
        forall|i: int| 0 <= i < n ==> (#[trigger] a[i]).area.buffer == b[i].area.buffer,
    ensures
        shown_before(a, buffer, n) == shown_before(b, buffer, n),
    decreases n,
{
    if n > 0 {
        lemma_shown_prefix(a, b, buffer, (n - 1) as nat);
        assert(a[n - 1].area.buffer == b[n - 1].area.buffer);
    }
}

/// Planning an area keeps the keys in order.
pub proof fn lemma_keyed_planned(before: RendererState, after: RendererState, plan: AreaPlan)
    requires
        plans_keyed(before.plans, before.occurrences),
        area_planned(before, after, plan),
        plan.key == before.next_key(plan.area.buffer),
    ensures
        plans_keyed(after.plans, after.occurrences),
{
    reveal(plans_keyed);
    let n = before.plans.len();
    assert(after.plans[n as int] == plan);
    assert forall|i: int| 0 <= i < after.plans.len() implies {
        &&& (#[trigger] after.plans[i]).key.buffer == after.plans[i].area.buffer
        &&& after.plans[i].key.occurrence == shown_before(
            after.plans,
            after.plans[i].area.buffer,
            i as nat,
        )
    } by {
        lemma_shown_prefix(after.plans, before.plans, after.plans[i].area.buffer, i as nat);
        if i < n {
            assert(after.plans[i] == before.plans[i]);
        }
    }
    assert forall|b: u64| #[trigger] after.occurrences.count(b) == shown_before(
        after.plans,
        b,
        after.plans.len(),
    ) by {
        lemma_shown_prefix(after.plans, before.plans, b, n);
        assert(before.occurrences.count(b) == shown_before(before.plans, b, n));
    }
}

/// Whether two numbers are the same, as numbers or bit by bit.
pub open spec fn alike(a: Scalar, b: Scalar) -> bool {
    a == b || a.equal(b)
}

/// Whether an area was cached with the content that a plan asks for.
pub open spec fn content_reflected(cached: CachedTextArea, plan: AreaPlan) -> bool {
    &&& alike(cached.scale, plan.area.scale)
    &&& cached.bounds == plan.area.bounds
    &&& cached.default_color == plan.area.default_color
}

/// Whether an area was cached in the place, with the scroll offset and the
/// border width that a plan asks for.
pub open spec fn placement_reflected(cached: CachedTextArea, plan: AreaPlan) -> bool {
    &&& alike(cached.left, plan.area.left)
    &&& alike(cached.top, plan.area.top)
    &&& cached.scroll == plan.scroll || cached.scroll.equal(plan.scroll)
    &&& cached.border_width == width_of(plan.border) || same_width(
        cached.border_width,
        width_of(plan.border),
    )
}

/// Whether what is cached fits plan `i`: all of it once the area is emitted,
/// and before that what the class of the plan relies on.
pub open spec fn plan_reflected(
    plan: AreaPlan,
    emitted: bool,
    cache: Map<AreaKey, CachedTextArea>,
) -> bool {
    &&& emitted || plan.class != PlacementClass::Miss ==> {
        &&& cache.contains_key(plan.key)
        &&& content_reflected(cache[plan.key], plan)
    }
    &&& emitted || plan.class == PlacementClass::Direct ==> placement_reflected(
        cache[plan.key],
        plan,
    )
}

/// Whether what is cached fits the plans of the frame.
#[verifier::opaque]
pub open spec fn cache_reflects(
    plans: Seq<AreaPlan>,
    emitted: int,
    cache: Map<AreaKey, CachedTextArea>,
) -> bool {
    forall|i: int|
        0 <= i < plans.len() ==> plan_reflected(#[trigger] plans[i], i < emitted, cache)
}

/// A frame without areas.
pub proof fn lemma_no_plans(occurrences: Occurrences, cache: Map<AreaKey, CachedTextArea>)
    requires
        forall|b: u64| #[trigger] occurrences.count(b) == 0,
    ensures
        plans_keyed(Seq::empty(), occurrences),
        cache_reflects(Seq::empty(), 0, cache),
{
    reveal(plans_keyed);
    reveal(cache_reflects);
}

/// What is cached of the area that is emitted next fits its plan.
pub proof fn lemma_current_reflected(v: RendererState)
    requires
        0 <= v.emitted < v.plans.len(),
        cache_reflects(v.plans, v.emitted, v.cache),
    ensures
        plan_reflected(v.current(), false, v.cache),
{
    reveal(cache_reflects);
}

/// Planning an area keeps the cache in step with the plans.
pub proof fn lemma_reflects_planned(v: RendererState, plan: AreaPlan)
    requires
        v.emitted == 0,
        cache_reflects(v.plans, v.emitted, v.cache),
        plan_reflected(plan, false, v.cache),
    ensures
        cache_reflects(v.plans.push(plan), v.emitted, v.cache),
{
    reveal(cache_reflects);
    let plans = v.plans.push(plan);
    assert forall|i: int| 0 <= i < plans.len() implies plan_reflected(
        #[trigger] plans[i],
        i < v.emitted,
        v.cache,
    ) by {
        if i < v.plans.len() {
            assert(plans[i] == v.plans[i]);
        }
    }
}

/// Emitting an area as its plan asks keeps the cache in step with the plans.
pub proof fn lemma_reflects_emitted(v: RendererState, area: CachedTextArea)
    requires
        0 <= v.emitted < v.plans.len(),
        forall|i: int, j: int|
            0 <= i < j < v.plans.len() ==> (#[trigger] v.plans[i]).key != (
            #[trigger] v.plans[j]).key,
        cache_reflects(v.plans, v.emitted, v.cache),
        content_reflected(area, v.current()),
        placement_reflected(area, v.current()),
    ensures
        cache_reflects(
            v.area_emitted(area).plans,
            v.area_emitted(area).emitted,
            v.area_emitted(area).cache,
        ),
{
    reveal(cache_reflects);
    let w = v.area_emitted(area);
    assert forall|i: int| 0 <= i < w.plans.len() implies plan_reflected(
        #[trigger] w.plans[i],
        i < w.emitted,
        w.cache,
    ) by {
        assert(plan_reflected(v.plans[i], i < v.emitted, v.cache));
        if i < v.emitted {
            assert(v.plans[i].key != v.plans[v.emitted].key);
        } else if i > v.emitted {
            assert(v.plans[v.emitted].key != v.plans[i].key);
        }
    }
}

/// Finishing a frame keeps the cache in step with the plans.
pub proof fn lemma_reflects_retained(
    plans: Seq<AreaPlan>,
    emitted: int,
    occurrences: Occurrences,
    before: Map<AreaKey, CachedTextArea>,
    after: Map<AreaKey, CachedTextArea>,
    generation: u32,
)
    requires
        cache_reflects(plans, emitted, before),
        forall|i: int|
            0 <= i < plans.len() ==> is_current(occurrences, (#[trigger] plans[i]).key),
        forall|k: AreaKey| #[trigger]
            after.contains_key(k) <==> before.contains_key(k) && is_current(occurrences, k),
        forall|k: AreaKey| #[trigger]
            after.contains_key(k) ==> after[k] == of_generation(before[k], generation),
    ensures
        cache_reflects(plans, emitted, after),
{
    reveal(cache_reflects);
    assert forall|i: int| 0 <= i < plans.len() implies plan_reflected(
        #[trigger] plans[i],
        i < emitted,
        after,
    ) by {
        assert(plan_reflected(plans[i], i < emitted, before));
        assert(is_current(occurrences, plans[i].key));
        assert(after.contains_key(plans[i].key) <==> before.contains_key(plans[i].key));
    }
}

/// What one renderer uses stays counted when another begins to prepare in the
/// same frame.
pub proof fn lemma_renderers_count_together(
    v: RendererState,
    before: AtlasState,
    after: AtlasState,
)
    requires
        uses_begun(v, before, after),
        !prepares_again(v, before),
    ensures
        after.glyphs.used() == before.glyphs.used(),
        after.glyphs.used_keys() == before.glyphs.used_keys(),
{
}

/// A renderer that prepares once more in a frame starts a count, in which no
/// glyph is in use.
pub proof fn lemma_preparing_again_counts_anew(
    v: RendererState,
    before: AtlasState,
    after: AtlasState,
)
    requires
        uses_begun(v, before, after),
        prepares_again(v, before),
    ensures
        after.glyphs.used() == 0,
        after.glyphs@.dom() == before.glyphs@.dom(),
{
    assert(after.glyphs@.dom() =~= before.glyphs@.dom());
}

/// The end of a frame is the end for every renderer: one that prepared in it
/// does not prepare once more in the next.
pub proof fn lemma_next_frame_is_new(v: RendererState, before: AtlasState, after: AtlasState)
    requires
        prepares_again(v, before),
        after.glyphs.epoch() == next_epoch(before.glyphs.epoch()),
    ensures
        !prepares_again(v, after),
{
}

/// An area to be prepared, and where.
pub struct AreaInput {
    pub area: TextArea,
    pub placement: Placement,
}

/// What planning an area and taking in its glyphs makes of a renderer.
pub open spec fn area_taken(before: RendererState, after: RendererState, plan: AreaPlan) -> bool {
    area_planned(before, RendererState { missing: before.missing, ..after }, plan)
}

/// Whether `states` are what a renderer goes through while areas are planned
/// one after the other, with the atlas as it is at each step.
pub open spec fn areas_planned(
    states: Seq<RendererState>,
    atlases: Seq<AtlasState>,
    inputs: Seq<AreaInput>,
) -> bool {
    &&& states.len() == inputs.len() + 1
    &&& atlases.len() == inputs.len()
    &&& forall|i: int|
        0 <= i < inputs.len() ==> area_taken(
            states[i],
            states[i + 1],
            area_plan(
                states[i],
                atlases[i],
                (#[trigger] inputs[i]).area,
                inputs[i].placement,
            ),
        )
}

/// On the first frame, and whenever the resolution changed, every area is laid
/// out anew.
pub proof fn lemma_fresh_frame_misses(
    before: RendererState,
    resolution: Resolution,
    states: Seq<RendererState>,
    atlases: Seq<AtlasState>,
    inputs: Seq<AreaInput>,
)
    requires
        before.cache == Map::<AreaKey, CachedTextArea>::empty() || before.resolution != resolution,
        areas_planned(states, atlases, inputs),
        frame_begun(before, states[0], resolution),
        inputs.len() <= usize::MAX,
    ensures
        states.last().plans.len() == inputs.len(),
        states.last().stats == (PrepareStats {
            direct_hits: 0,
            reculls: 0,
            misses: inputs.len() as usize,
        }),
        forall|i: int|
            0 <= i < inputs.len() ==> (#[trigger] states.last().plans[i]).class
                == PlacementClass::Miss,
{
    lemma_misses_step(states, atlases, inputs, inputs.len());
}

proof fn lemma_misses_step(
    states: Seq<RendererState>,
    atlases: Seq<AtlasState>,
    inputs: Seq<AreaInput>,
    n: nat,
)
    requires
        areas_planned(states, atlases, inputs),
        states[0].cache == Map::<AreaKey, CachedTextArea>::empty(),
        states[0].plans == Seq::<AreaPlan>::empty(),
        states[0].stats == (PrepareStats { direct_hits: 0, reculls: 0, misses: 0 }),
        n <= inputs.len() <= usize::MAX,
    ensures
        states[n as int].cache == Map::<AreaKey, CachedTextArea>::empty(),
        states[n as int].plans.len() == n,
        states[n as int].stats == (PrepareStats { direct_hits: 0, reculls: 0, misses: n as usize }),
        forall|i: int|
            0 <= i < n ==> (#[trigger] states[n as int].plans[i]).class == PlacementClass::Miss,
    decreases n,
{
    if n > 0 {
        let m = n - 1;
        lemma_misses_step(states, atlases, inputs, m as nat);
        let input = inputs[m];
        let plan = area_plan(states[m], atlases[m], input.area, input.placement);
        assert(area_taken(states[m], states[m + 1], plan));
        assert(plan.class == PlacementClass::Miss);
        assert(states[n as int].plans == states[m].plans.push(plan));
        assert forall|i: int| 0 <= i < n implies (#[trigger] states[n as int].plans[i]).class
            == PlacementClass::Miss by {
            if i < m {
                assert(states[n as int].plans[i] == states[m].plans[i]);
            }
        }
    }
}

/// Whether an area is what it was when a plan was made for it: it shows the
/// same buffer, which needs no redraw, it stands in the same place, and neither
/// its scale, its bounds, its colour, the scroll offset nor the width of its
/// border changed. The colour of its border may.
pub open spec fn unchanged(plan: AreaPlan, input: AreaInput) -> bool {
    let area = input.area;
    let placement = input.placement;
    &&& !area.redraw
    &&& area.buffer == plan.area.buffer
    &&& area.scale.equal(plan.area.scale)
    &&& area.bounds == plan.area.bounds
    &&& area.default_color == plan.area.default_color
    &&& same_place(area.left, plan.area.left)
    &&& same_place(area.top, plan.area.top)
    &&& placement.scroll.equal(plan.scroll)
    &&& same_width(width_of(plan.border), width_of(area_border(area, placement)))
}

/// Whether a frame of unchanged areas is planned again on an atlas that was not
/// reset and still has their glyphs. `drawn` is the frame as it was finished.
pub open spec fn planned_again(
    drawn: RendererState,
    states: Seq<RendererState>,
    atlases: Seq<AtlasState>,
    inputs: Seq<AreaInput>,
) -> bool {
    &&& inputs.len() == drawn.plans.len()
    &&& areas_planned(states, atlases, inputs)
    &&& frame_begun(drawn, states[0], drawn.resolution)
    &&& forall|i: int|
        0 <= i < inputs.len() ==> {
            &&& unchanged(drawn.plans[i], #[trigger] inputs[i])
            &&& atlases[i].generation == drawn.prepared_generation
            &&& all_known(
                atlases[i].glyphs@,
                drawn.cache[drawn.plans[i].key].distinct_keys@,
            )
        }
}

/// Whether every area of a frame was emitted and is cached as it was planned,
/// for the atlas as it is. Holds of every frame that is finished.
pub open spec fn fully_cached(v: RendererState) -> bool {
    &&& v.emitted == v.plans.len()
    &&& plans_keyed(v.plans, v.occurrences)
    &&& cache_reflects(v.plans, v.emitted, v.cache)
    &&& streams_cached(v)
    &&& v.glyphs_to_render == v.instances.len()
    &&& forall|i: int|
        0 <= i < v.plans.len() ==> v.cache[(#[trigger] v.plans[i]).key].atlas_generation
            == v.prepared_generation
}

/// A finished frame is cached as a whole.
pub proof fn lemma_finished_fully_cached(
    before: RendererState,
    after: RendererState,
    generation: u32,
    raster_count: u32,
    upload: FrameUpload,
)
    requires
        frame_finished(before, after, generation, raster_count, upload),
        before.emitted == before.plans.len(),
        before.instances.len() <= u32::MAX,
        plans_keyed(after.plans, after.occurrences),
        cache_reflects(after.plans, after.emitted, after.cache),
        streams_cached(after),
    ensures
        fully_cached(after),
{
    reveal(cache_reflects);
    assert forall|i: int| 0 <= i < after.plans.len() implies after.cache[(
    #[trigger] after.plans[i]).key].atlas_generation == after.prepared_generation by {
        assert(plan_reflected(after.plans[i], i < after.emitted, after.cache));
    }
}

/// A frame of unchanged areas takes every area from the cache as it is.
pub proof fn lemma_unchanged_frame_hits(
    drawn: RendererState,
    states: Seq<RendererState>,
    atlases: Seq<AtlasState>,
    inputs: Seq<AreaInput>,
)
    requires
        fully_cached(drawn),
        planned_again(drawn, states, atlases, inputs),
        inputs.len() <= usize::MAX,
    ensures
        states.last().stats == (PrepareStats {
            direct_hits: inputs.len() as usize,
            reculls: 0,
            misses: 0,
        }),
        states.last().all_direct(),
        hits_planned(drawn, states.last(), inputs.len()),
{
    lemma_hits_step(drawn, states, atlases, inputs, inputs.len());
}

/// Whether the first `n` areas of a frame are planned as direct hits on those
/// of the frame before, and nothing is emitted yet.
pub open spec fn hits_planned(drawn: RendererState, v: RendererState, n: nat) -> bool {
    &&& v.cache == drawn.cache
    &&& v.emitted == 0
    &&& v.instances.len() == 0
    &&& v.rasters.len() == 0
    &&& v.previous == drawn.instances
    &&& v.glyphs_to_render == drawn.glyphs_to_render
    &&& v.plans.len() == n
    &&& forall|i: int|
        0 <= i < n ==> {
            &&& (#[trigger] v.plans[i]).class == PlacementClass::Direct
            &&& v.plans[i].key == drawn.plans[i].key
            &&& v.plans[i].area.buffer == drawn.plans[i].area.buffer
        }
}

#[verifier::rlimit(40)]
proof fn lemma_hits_step(
    drawn: RendererState,
    states: Seq<RendererState>,
    atlases: Seq<AtlasState>,
    inputs: Seq<AreaInput>,
    n: nat,
)
    requires
        fully_cached(drawn),
        planned_again(drawn, states, atlases, inputs),
        n <= inputs.len() <= usize::MAX,
    ensures
        hits_planned(drawn, states[n as int], n),
        states[n as int].stats == (PrepareStats { direct_hits: n as usize, reculls: 0, misses: 0 }),
        forall|b: u64| #[trigger]
            states[n as int].occurrences.count(b) == shown_before(drawn.plans, b, n),
    decreases n,
{
    reveal(plans_keyed);
    reveal(cache_reflects);
    if n > 0 {
        let m = n - 1;
        lemma_hits_step(drawn, states, atlases, inputs, m as nat);
        let v = states[m];
        let w = states[n as int];
        let input = inputs[m];
        let plan = area_plan(v, atlases[m], input.area, input.placement);
        let before = drawn.plans[m];
        assert(area_taken(v, w, plan));
        assert(unchanged(before, input));
        assert(plan_reflected(before, m < drawn.emitted, drawn.cache));
        let key = v.next_key(input.area.buffer);
        assert(v.occurrences.count(input.area.buffer) == shown_before(
            drawn.plans,
            before.area.buffer,
            m as nat,
        ));
        assert(key == before.key);
        assert(plan.class == PlacementClass::Direct);
        assert(w.plans == v.plans.push(plan));
        assert forall|i: int| 0 <= i < n implies {
            &&& (#[trigger] w.plans[i]).class == PlacementClass::Direct
            &&& w.plans[i].key == drawn.plans[i].key
            &&& w.plans[i].area.buffer == drawn.plans[i].area.buffer
        } by {
            if i < m {
                assert(w.plans[i] == v.plans[i]);
            }
        }
        let taken = RendererState { missing: v.missing, ..w };
        assert forall|b: u64| #[trigger] w.occurrences.count(b) == shown_before(
            drawn.plans,
            b,
            n,
        ) by {
            assert(taken.occurrences.count(b) == v.occurrences.count(b) + if b
                == plan.area.buffer {
                1int
            } else {
                0
            });
        }
    }
}

/// Whether `states` are what a renderer goes through while areas are taken from
/// the cache as they are, one after the other.
pub open spec fn areas_hit(
    states: Seq<RendererState>,
    areas: Seq<CachedTextArea>,
    atlas: AtlasState,
) -> bool {
    &&& states.len() == areas.len() + 1
    &&& forall|i: int|
        0 <= i < areas.len() ==> {
            &&& states[i + 1] == states[i].area_emitted(#[trigger] areas[i])
            &&& area_refreshed(
                states[i].current_cached(),
                areas[i],
                atlas,
                states[i].current().border,
            )
        }
}

/// A frame that is emitted from the cache as it is has the glyphs of the frame
/// before, in the same order, and its glyphs need not be uploaded.
pub proof fn lemma_unchanged_frame_repeats(
    drawn: RendererState,
    states: Seq<RendererState>,
    areas: Seq<CachedTextArea>,
    atlas: AtlasState,
    after: RendererState,
    generation: u32,
    raster_count: u32,
    upload: FrameUpload,
)
    requires
        fully_cached(drawn),
        hits_planned(drawn, states[0], drawn.plans.len()),
        areas_hit(states, areas, atlas),
        areas.len() == drawn.plans.len(),
        frame_finished(states.last(), after, generation, raster_count, upload),
    ensures
        after.instances == drawn.instances,
        after.rasters == drawn.rasters,
        !upload.vertices,
{
    lemma_repeat_step(drawn, states, areas, atlas, areas.len());
    let v = states.last();
    assert forall|i: int| 0 <= i < v.plans.len() implies (#[trigger] v.plans[i]).class
        == PlacementClass::Direct by {
        assert(states[0].plans[i].class == PlacementClass::Direct);
    }
}

proof fn lemma_repeat_step(
    drawn: RendererState,
    states: Seq<RendererState>,
    areas: Seq<CachedTextArea>,
    atlas: AtlasState,
    n: nat,
)
    requires
        fully_cached(drawn),
        hits_planned(drawn, states[0], drawn.plans.len()),
        areas_hit(states, areas, atlas),
        areas.len() == drawn.plans.len(),
        n <= areas.len(),
    ensures
        states[n as int].instances == cached_instances(drawn, n),
        states[n as int].rasters == cached_rasters(drawn, n),
        states[n as int].emitted == n,
        states[n as int].plans == states[0].plans,
        states[n as int].previous == drawn.instances,
        states[n as int].glyphs_to_render == drawn.glyphs_to_render,
        forall|k: AreaKey| #[trigger]
            drawn.cache.contains_key(k) ==> {
                &&& states[n as int].cache.contains_key(k)
                &&& states[n as int].cache[k].instances@ == drawn.cache[k].instances@
                &&& states[n as int].cache[k].non_vector_glyphs@
                    == drawn.cache[k].non_vector_glyphs@
            },
    decreases n,
{
    if n == 0 {
        assert(states[0].instances =~= cached_instances(drawn, 0));
        assert(states[0].rasters =~= cached_rasters(drawn, 0));
    } else {
        let m = n - 1;
        lemma_repeat_step(drawn, states, areas, atlas, m as nat);
        let v = states[m];
        assert(states[m + 1] == v.area_emitted(areas[m]));
        assert(states[0].plans[m].key == drawn.plans[m].key);
        assert(drawn.cache.contains_key(drawn.plans[m].key));
    }
}

} // verus!
