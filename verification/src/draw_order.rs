//! The order of draws in a frame.

use crate::area_cache::{is_current, of_generation, AreaKey, CachedTextArea};
use crate::emit::NonVectorGlyph;
use crate::instance::GlyphInstance;
use crate::text_atlas::{atlas_reset, AtlasState};
use crate::text_renderer::{
    area_draws, area_refreshed, drawable, frame_begun, frame_calls, frame_finished, has_room,
    DrawCall, DrawMode, DrawStream, FrameUpload, OrderedDraw, RendererState,
};
use crate::types::Resolution;
use vstd::prelude::*;

verus! {

/// Where the last of the first `n` draws from a stream ends.
pub open spec fn stream_end(draws: Seq<OrderedDraw>, stream: DrawStream, n: nat) -> int
    decreases n,
{
    if n == 0 {
        0
    } else if draws[n - 1].stream == stream {
        draws[n - 1].end as int
    } else {
        stream_end(draws, stream, (n - 1) as nat)
    }
}

/// How many of the first `n` draws are from a stream.
pub open spec fn stream_count(draws: Seq<OrderedDraw>, stream: DrawStream, n: nat) -> int
    decreases n,
{
    if n == 0 {
        0
    } else {
        stream_count(draws, stream, (n - 1) as nat) + if draws[n - 1].stream == stream {
            1int
        } else {
            0
        }
    }
}

/// Whether each draw goes on where the draw before it from the same stream
/// ended, glyphs are filled and borders are drawn underneath, and each border
/// draw has uniforms of its own, in order.
pub open spec fn draws_tile(draws: Seq<OrderedDraw>) -> bool {
    forall|i: int|
        0 <= i < draws.len() ==> {
            let d = #[trigger] draws[i];
            &&& d.start == stream_end(draws, d.stream, i as nat)
            &&& d.start < d.end
            &&& match d.stream {
                DrawStream::Border => {
                    &&& d.mode == DrawMode::Underlay
                    &&& d.uniform_offset == stream_count(draws, DrawStream::Border, i as nat)
                },
                DrawStream::Normal => d.mode == DrawMode::Fill,
            }
        }
}

/// Whether the draws of a frame cover what was emitted: every border instance,
/// and every glyph instance if the frame has borders. A frame without borders
/// has no draws of its own.
pub open spec fn draws_cover(v: RendererState) -> bool {
    let n = v.draws.len();
    &&& draws_tile(v.draws)
    &&& stream_end(v.draws, DrawStream::Border, n) == v.borders.len()
    &&& stream_count(v.draws, DrawStream::Border, n) == v.uniforms.len()
    &&& if v.bordered() {
        stream_end(v.draws, DrawStream::Normal, n) == v.instances.len()
    } else {
        n == 0 && v.borders.len() == 0
    }
}

/// Nothing is drawn at the beginning of a frame.
pub proof fn lemma_cover_begins(before: RendererState, after: RendererState, resolution: Resolution)
    requires
        frame_begun(before, after, resolution),
    ensures
        draws_cover(after),
{
}

/// The first of two draw sequences is not changed by what follows it.
proof fn lemma_prefix(a: Seq<OrderedDraw>, b: Seq<OrderedDraw>, stream: DrawStream, n: nat)
    requires
        n <= a.len(),
        a.len() <= b.len(),
        forall|i: int| 0 <= i < a.len() ==> #[trigger] a[i] == b[i],
    ensures
        stream_end(a, stream, n) == stream_end(b, stream, n),
        stream_count(a, stream, n) == stream_count(b, stream, n),
    decreases n,
{
    if n > 0 {
        lemma_prefix(a, b, stream, (n - 1) as nat);
        assert(a[n - 1] == b[n - 1]);
    }
}

proof fn lemma_push(draws: Seq<OrderedDraw>, d: OrderedDraw)
    requires
        draws_tile(draws),
        d.start == stream_end(draws, d.stream, draws.len()),
        d.start < d.end,
        d.stream == DrawStream::Border ==> d.mode == DrawMode::Underlay && d.uniform_offset
            == stream_count(draws, DrawStream::Border, draws.len()),
        d.stream == DrawStream::Normal ==> d.mode == DrawMode::Fill,
    ensures
        ({
            let w = draws.push(d);
            &&& draws_tile(w)
            &&& stream_end(w, d.stream, w.len()) == d.end
            &&& d.stream == DrawStream::Border ==> stream_end(w, DrawStream::Normal, w.len())
                == stream_end(draws, DrawStream::Normal, draws.len())
            &&& d.stream == DrawStream::Normal ==> stream_end(w, DrawStream::Border, w.len())
                == stream_end(draws, DrawStream::Border, draws.len())
            &&& stream_count(w, DrawStream::Border, w.len()) == stream_count(
                draws,
                DrawStream::Border,
                draws.len(),
            ) + if d.stream == DrawStream::Border {
                1int
            } else {
                0
            }
        }),
{
    let w = draws.push(d);
    let n = draws.len();
    lemma_prefix(draws, w, DrawStream::Border, n);
    lemma_prefix(draws, w, DrawStream::Normal, n);
    assert forall|i: int| 0 <= i < w.len() implies {
        let e = #[trigger] w[i];
        &&& e.start == stream_end(w, e.stream, i as nat)
        &&& e.start < e.end
        &&& match e.stream {
            DrawStream::Border => {
                &&& e.mode == DrawMode::Underlay
                &&& e.uniform_offset == stream_count(w, DrawStream::Border, i as nat)
            },
            DrawStream::Normal => e.mode == DrawMode::Fill,
        }
    } by {
        if i < n {
            assert(w[i] == draws[i]);
            lemma_prefix(draws, w, w[i].stream, i as nat);
            lemma_prefix(draws, w, DrawStream::Border, i as nat);
        }
    }
}

/// Emitting an area keeps the draws in order: the draws of the frame go on
/// covering the streams without a gap, area after area.
pub proof fn lemma_cover_kept(v: RendererState, area: CachedTextArea)
    requires
        draws_cover(v),
        0 <= v.emitted < v.plans.len(),
        has_room(v, area.instances@.len() as int, area.border_instances@.len() as int),
        area.border_instances@.len() > 0 ==> v.plans[v.emitted].border is Some,
    ensures
        draws_cover(v.area_emitted(area)),
{
    let w = v.area_emitted(area);
    let instances = area.instances@.len() as int;
    let borders = area.border_instances@.len() as int;
    assert(w.bordered() == v.bordered());
    let border_draw = OrderedDraw {
        stream: DrawStream::Border,
        start: v.borders.len() as u32,
        end: (v.borders.len() + borders) as u32,
        mode: DrawMode::Underlay,
        uniform_offset: v.uniforms.len() as u32,
    };
    let fill_draw = OrderedDraw {
        stream: DrawStream::Normal,
        start: v.instances.len() as u32,
        end: (v.instances.len() + instances) as u32,
        mode: DrawMode::Fill,
        uniform_offset: 0,
    };
    let one = if borders > 0 {
        v.draws.push(border_draw)
    } else {
        v.draws
    };
    if borders > 0 {
        assert(v.bordered());
        lemma_push(v.draws, border_draw);
    }
    if v.bordered() && instances > 0 {
        lemma_push(one, fill_draw);
        assert(w.draws =~= one.push(fill_draw));
    } else {
        assert(w.draws =~= one);
    }
}

/// The borders of an area are drawn before its glyphs, and both after
/// everything that was emitted before.
pub proof fn lemma_underlay_first(v: RendererState, instances: int, borders: int)
    requires
        v.bordered(),
        instances > 0,
        borders > 0,
    ensures
        area_draws(v, instances, borders).len() == 2,
        area_draws(v, instances, borders)[0].mode == DrawMode::Underlay,
        area_draws(v, instances, borders)[1].mode == DrawMode::Fill,
{
}

/// A frame without borders is drawn at once.
pub proof fn lemma_borderless_frame(v: RendererState, stride: u64)
    requires
        draws_cover(v),
        !v.bordered(),
        v.glyphs_to_render == v.instances.len(),
        v.glyphs_to_render > 0,
        v.raster_glyphs_to_render == 0,
    ensures
        frame_calls(v, stride) == seq![DrawCall::Glyphs { count: v.instances.len() as u32 }],
{
}

/// Glyphs drawn from raster images come after everything else.
pub proof fn lemma_raster_last(v: RendererState, stride: u64)
    requires
        v.raster_glyphs_to_render > 0,
    ensures
        frame_calls(v, stride).last() == (DrawCall::Raster { count: v.raster_glyphs_to_render }),
{
}

/// A frame that was prepared before its atlas was reset is not drawn.
pub proof fn lemma_reset_forbids_drawing(
    v: RendererState,
    before: AtlasState,
    after: AtlasState,
)
    requires
        drawable(v, before),
        atlas_reset(before, after),
    ensures
        !drawable(v, after),
{
}

/// A frame is only drawn from the atlas that the renderer was made for.
pub proof fn lemma_other_atlas_forbids_drawing(v: RendererState, atlas: AtlasState)
    requires
        atlas.id != v.atlas_id,
    ensures
        !drawable(v, atlas),
{
}

/// A vertex stream is left as it is on the device only where it is the stream
/// of the frame before: areas that change their order are uploaded, though
/// each of them is taken from the cache as it is.
pub proof fn lemma_changed_stream_uploaded(
    before: RendererState,
    after: RendererState,
    generation: u32,
    raster_count: u32,
    upload: FrameUpload,
)
    requires
        frame_finished(before, after, generation, raster_count, upload),
    ensures
        !upload.vertices ==> after.instances == before.previous,
        !upload.borders ==> after.borders == before.previous_borders,
        before.instances != before.previous ==> upload.vertices,
        before.borders != before.previous_borders ==> upload.borders,
{
}

/// Every border draw has uniforms.
pub proof fn lemma_uniforms_suffice(v: RendererState, i: int)
    requires
        draws_cover(v),
        0 <= i < v.draws.len(),
    ensures
        v.draws[i].stream == DrawStream::Border ==> v.draws[i].uniform_offset < v.uniforms.len(),
{
    if v.draws[i].stream == DrawStream::Border {
        lemma_count_rises(v.draws, (i + 1) as nat, v.draws.len());
    }
}

proof fn lemma_count_rises(draws: Seq<OrderedDraw>, m: nat, n: nat)
    requires
        m <= n,
    ensures
        stream_count(draws, DrawStream::Border, m) <= stream_count(draws, DrawStream::Border, n),
    decreases n,
{
    if m < n {
        lemma_count_rises(draws, m, (n - 1) as nat);
    }
}

/// The cached instances of the first `n` areas, one area after the other.
pub open spec fn cached_instances(v: RendererState, n: nat) -> Seq<GlyphInstance>
    decreases n,
{
    if n == 0 {
        Seq::empty()
    } else {
        cached_instances(v, (n - 1) as nat) + v.cache[v.plans[n - 1].key].instances@
    }
}

/// The cached border instances of the first `n` areas.
pub open spec fn cached_borders(v: RendererState, n: nat) -> Seq<GlyphInstance>
    decreases n,
{
    if n == 0 {
        Seq::empty()
    } else {
        cached_borders(v, (n - 1) as nat) + v.cache[v.plans[n - 1].key].border_instances@
    }
}

/// The cached raster glyphs of the first `n` areas.
pub open spec fn cached_rasters(v: RendererState, n: nat) -> Seq<NonVectorGlyph>
    decreases n,
{
    if n == 0 {
        Seq::empty()
    } else {
        cached_rasters(v, (n - 1) as nat) + v.cache[v.plans[n - 1].key].non_vector_glyphs@
    }
}

/// Whether the streams of a frame are what is cached of its areas, in their
/// order, and every area that was emitted is cached.
pub open spec fn streams_cached(v: RendererState) -> bool {
    &&& v.instances == cached_instances(v, v.emitted as nat)
    &&& v.borders == cached_borders(v, v.emitted as nat)
    &&& v.rasters == cached_rasters(v, v.emitted as nat)
    &&& forall|i: int|
        0 <= i < v.emitted ==> v.cache.contains_key((#[trigger] v.plans[i]).key)
}

/// Whether two frames have cached the same of their first `n` areas.
pub open spec fn same_areas(v: RendererState, w: RendererState, n: nat) -> bool {
    forall|i: int|
        #![trigger v.plans[i]]
        #![trigger w.plans[i]]
        0 <= i < n ==> {
            let a = v.cache[v.plans[i].key];
            let b = w.cache[w.plans[i].key];
            &&& a.instances@ == b.instances@
            &&& a.border_instances@ == b.border_instances@
            &&& a.non_vector_glyphs@ == b.non_vector_glyphs@
        }
}

proof fn lemma_same_areas(v: RendererState, w: RendererState, n: nat)
    requires
        same_areas(v, w, n),
    ensures
        cached_instances(v, n) == cached_instances(w, n),
        cached_borders(v, n) == cached_borders(w, n),
        cached_rasters(v, n) == cached_rasters(w, n),
    decreases n,
{
    if n > 0 {
        lemma_same_areas(v, w, (n - 1) as nat);
        let a = v.plans[n - 1];
        let b = w.plans[n - 1];
        assert(v.cache[a.key].instances@ == w.cache[b.key].instances@);
    }
}

/// Emitting an area keeps the streams equal to what is cached.
pub proof fn lemma_streams_kept(v: RendererState, area: CachedTextArea)
    requires
        v.backed(),
        streams_cached(v),
        0 <= v.emitted < v.plans.len(),
    ensures
        streams_cached(v.area_emitted(area)),
{
    let w = v.area_emitted(area);
    let n = v.emitted as nat;
    assert forall|i: int|
        #![trigger v.plans[i]]
        #![trigger w.plans[i]]
        0 <= i < n implies {
        let a = v.cache[v.plans[i].key];
        let b = w.cache[w.plans[i].key];
        &&& a.instances@ == b.instances@
        &&& a.border_instances@ == b.border_instances@
        &&& a.non_vector_glyphs@ == b.non_vector_glyphs@
    } by {
        assert(v.plans[i].key != v.plans[v.emitted].key);
    }
    lemma_same_areas(v, w, n);
    assert(w.cache[w.plans[n as int].key] == area);
}

/// Finishing a frame keeps the streams equal to what is cached.
pub proof fn lemma_streams_retained(v: RendererState, w: RendererState)
    requires
        v.backed(),
        streams_cached(v),
        w == (RendererState {
            cache: w.cache,
            glyphs_to_render: w.glyphs_to_render,
            raster_glyphs_to_render: w.raster_glyphs_to_render,
            last_stats: w.last_stats,
            prepared_generation: w.prepared_generation,
            ..v
        }),
        forall|k: AreaKey| #[trigger]
            w.cache.contains_key(k) <==> v.cache.contains_key(k) && is_current(v.occurrences, k),
        forall|k: AreaKey| #[trigger]
            w.cache.contains_key(k) ==> w.cache[k] == of_generation(
                v.cache[k],
                w.prepared_generation,
            ),
    ensures
        streams_cached(w),
{
    let n = v.emitted as nat;
    assert forall|i: int| 0 <= i < n implies w.cache.contains_key((#[trigger] v.plans[i]).key) by {
        assert(is_current(v.occurrences, v.plans[i].key));
    }
    assert forall|i: int|
        #![trigger v.plans[i]]
        #![trigger w.plans[i]]
        0 <= i < n implies {
        let a = v.cache[v.plans[i].key];
        let b = w.cache[w.plans[i].key];
        &&& a.instances@ == b.instances@
        &&& a.border_instances@ == b.border_instances@
        &&& a.non_vector_glyphs@ == b.non_vector_glyphs@
    } by {
        assert(w.cache.contains_key(v.plans[i].key));
    }
    lemma_same_areas(v, w, n);
}

/// What has no part in the streams may change.
pub proof fn lemma_streams_apart(v: RendererState, w: RendererState)
    requires
        streams_cached(v),
        w.cache == v.cache,
        w.plans == v.plans,
        w.emitted == v.emitted,
        w.instances == v.instances,
        w.borders == v.borders,
        w.rasters == v.rasters,
    ensures
        streams_cached(w),
{
    lemma_same_areas(v, w, v.emitted as nat);
}

/// Frames of which the same is cached, area by area, have the same streams: a
/// frame that is prepared again from the cache draws what it drew before.
pub proof fn lemma_same_areas_same_streams(v: RendererState, w: RendererState)
    requires
        streams_cached(v),
        streams_cached(w),
        0 <= v.emitted,
        v.emitted == w.emitted,
        same_areas(v, w, v.emitted as nat),
    ensures
        v.instances == w.instances,
        v.borders == w.borders,
        v.rasters == w.rasters,
{
    lemma_same_areas(v, w, v.emitted as nat);
}

/// An area that is taken from the cache as it is keeps its instances, and no
/// other area is touched.
pub proof fn lemma_direct_hit_keeps_instances(
    v: RendererState,
    area: CachedTextArea,
    atlas: AtlasState,
    key: AreaKey,
)
    requires
        0 <= v.emitted < v.plans.len(),
        v.cache.contains_key(v.current().key),
        area_refreshed(v.current_cached(), area, atlas, v.current().border),
        v.cache.contains_key(key),
    ensures
        v.area_emitted(area).cache.contains_key(key),
        v.area_emitted(area).cache[key].instances@ == v.cache[key].instances@,
        key != v.current().key ==> v.area_emitted(area).cache[key] == v.cache[key],
{
}

} // verus!
