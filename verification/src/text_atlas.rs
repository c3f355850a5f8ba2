//! The glyph atlas: the glyph blobs that lie in the storage buffer, and where.
//!
//! The buffer is only ever appended to. A texel is two words. The atlas keeps
//! a copy of what the device buffer holds or will hold after the next flush.

use crate::band::{bands_buildable, BandGeometry};
use crate::bytes::{in_memory, signed, to_signed, to_unsigned, unsigned, word_bytes};
use crate::colr::{ColorV1Data, ColorV1SubGlyph, Command, CMD_DRAW_GRADIENT, CMD_DRAW_SOLID};
use crate::commands::{
    draws_before, draws_numbered, is_draw, is_header, payload_left, payload_len,
};
use crate::glyph_cache::{
    non_vector_glyph, sentinel, used_in, ColorGlyphEntry, ColorV1GlyphEntry, GlyphEntry, GlyphKey,
    GlyphMap, KeyMap,
};
use crate::outline::{no_bounds, Bounds, GlyphOutline};
use crate::prep::{
    build_blob, lemma_blob_length, mono_blob, mono_texels, outline_quantizable, prepare_mono,
    PrepScratch, PreparedMono,
};
use crate::scalar::Scalar;
use crate::types::{ColorMode, PrepareError};
use crate::words::{pack_i16_pair, packed};
use vstd::arithmetic::power2::{
    lemma2_to64, lemma_pow2_strictly_increases, lemma_pow2_unfold, pow2,
};
use vstd::prelude::*;

verus! {

/// Texels of an atlas buffer before it grows.
pub const INITIAL_BUFFER_CAPACITY: u32 = 8192;

/// Bytes per texel.
pub const BYTES_PER_TEXEL: u64 = 8;

/// The largest blob whose offsets fit sixteen bits.
pub const MAX_BLOB_TEXELS: u32 = 65535;

/// The most texels that a buffer can grow to.
pub const MAX_BUFFER_TEXELS: u32 = 0x8000_0000;

/// An atlas of cached glyph blobs.
pub struct TextAtlas {
    id: u64,
    color_mode: ColorMode,
    buffer_capacity: u32,
    buffer_cursor: u32,
    buffer_data: Vec<i32>,
    gpu_flush_cursor: u32,
    generation: u32,
    scratch: PrepScratch,
    glyphs: GlyphMap,
    color_glyphs: KeyMap<ColorGlyphEntry>,
    color_v1_glyphs: KeyMap<ColorV1GlyphEntry>,
    border_offsets: KeyMap<u32>,
}

/// What an atlas holds.
pub struct AtlasState {
    /// Tells atlases apart.
    pub id: u64,
    /// Texels that fit the device buffer.
    pub capacity: u32,
    /// The words of the buffer, two for each texel in use.
    pub data: Seq<i32>,
    /// Texels that are already on the device.
    pub flushed: u32,
    /// Counts resets.
    pub generation: u32,
    pub glyphs: GlyphMap,
    pub color_glyphs: Map<GlyphKey, ColorGlyphEntry>,
    pub color_v1_glyphs: Map<GlyphKey, ColorV1GlyphEntry>,
    /// Where the border data of glyphs lies.
    pub border_offsets: Map<GlyphKey, u32>,
}

impl AtlasState {
    /// Texels in use.
    pub open spec fn cursor(self) -> int {
        self.data.len() as int / 2
    }

    /// The atlas with `words` appended, in a buffer that grew if it had to. A
    /// new buffer holds nothing yet, so all of it is to be flushed.
    pub open spec fn appended(self, words: Seq<i32>) -> AtlasState {
        let data = self.data + words;
        let end = data.len() as int / 2;
        if end > self.capacity {
            AtlasState { data, capacity: grown(self.capacity as int, end) as u32, flushed: 0, ..self }
        } else {
            AtlasState { data, ..self }
        }
    }
}

/// The least doubling of `capacity` that holds `least` texels.
pub open spec fn grown(capacity: int, least: int) -> int
    decreases
            if capacity >= least {
                0
            } else {
                least - capacity
            },
{
    if capacity >= least || capacity <= 0 {
        capacity
    } else {
        grown(2 * capacity, least)
    }
}

impl View for TextAtlas {
    type V = AtlasState;

    closed spec fn view(&self) -> AtlasState {
        AtlasState {
            id: self.id,
            capacity: self.buffer_capacity,
            data: self.buffer_data@,
            flushed: self.gpu_flush_cursor,
            generation: self.generation,
            glyphs: self.glyphs,
            color_glyphs: self.color_glyphs@,
            color_v1_glyphs: self.color_v1_glyphs@,
            border_offsets: self.border_offsets@,
        }
    }
}

impl TextAtlas {
    /// Holds of every atlas that the functions below return or leave behind.
    pub closed spec fn wf(&self) -> bool {
        &&& self.buffer_data.len() == 2 * self.buffer_cursor
        &&& self.buffer_cursor <= self.buffer_capacity
        &&& self.gpu_flush_cursor <= self.buffer_cursor
        &&& INITIAL_BUFFER_CAPACITY <= self.buffer_capacity <= MAX_BUFFER_TEXELS
        &&& doubled(self.buffer_capacity as int)
        &&& self.glyphs.wf()
        &&& self.color_glyphs.wf()
        &&& self.color_v1_glyphs.wf()
        &&& self.border_offsets.wf()
    }

    /// What the invariant says of the contents: the texels in use fit the
    /// buffer, and only texels in use were flushed.
    pub proof fn lemma_wf(&self)
        requires
            self.wf(),
        ensures
            self@.data.len() == 2 * self@.cursor(),
            0 <= self@.flushed <= self@.cursor() <= self@.capacity,
            INITIAL_BUFFER_CAPACITY <= self@.capacity <= MAX_BUFFER_TEXELS,
            doubled(self@.capacity as int),
            self@.glyphs.wf(),
    {
    }
}

/// Whether a capacity comes from doubling the initial one.
pub open spec fn doubled(capacity: int) -> bool {
    exists|k: nat| capacity == INITIAL_BUFFER_CAPACITY * #[trigger] pow2(k)
}

proof fn lemma_double(capacity: int, least: int)
    requires
        doubled(capacity),
        capacity < least <= MAX_BUFFER_TEXELS,
    ensures
        doubled(2 * capacity),
        2 * capacity <= MAX_BUFFER_TEXELS,
{
    let k = choose|k: nat| capacity == INITIAL_BUFFER_CAPACITY * #[trigger] pow2(k);
    lemma2_to64();
    lemma_pow2_unfold(k + 1);
    assert(2 * capacity == INITIAL_BUFFER_CAPACITY * pow2(k + 1));
    if k >= 18 {
        if k > 18 {
            lemma_pow2_strictly_increases(18, k);
        }
    } else if k < 17 {
        lemma_pow2_strictly_increases(k, 17);
    }
}

/// A buffer grows to a doubling of its capacity that holds what it has to,
/// and to less than twice that.
pub proof fn lemma_grown(capacity: int, least: int)
    requires
        0 < capacity <= MAX_BUFFER_TEXELS,
        doubled(capacity),
        least <= MAX_BUFFER_TEXELS,
    ensures
        doubled(grown(capacity, least)),
        least <= grown(capacity, least) <= MAX_BUFFER_TEXELS,
        capacity <= grown(capacity, least),
        grown(capacity, least) < 2 * least || grown(capacity, least) == capacity,
    decreases
            if capacity >= least {
                0
            } else {
                least - capacity
            },
{
    if capacity < least {
        lemma_double(capacity, least);
        lemma_grown(2 * capacity, least);
    }
}

proof fn lemma_initial_doubled()
    ensures
        doubled(INITIAL_BUFFER_CAPACITY as int),
{
    lemma2_to64();
    assert(INITIAL_BUFFER_CAPACITY == INITIAL_BUFFER_CAPACITY * pow2(0));
}

impl TextAtlas {
    pub fn new(id: u64) -> (r: TextAtlas)
        ensures
            r.wf(),
            r.mode() == ColorMode::Accurate,
            r@.id == id,
            r@.capacity == INITIAL_BUFFER_CAPACITY,
            r@.data == Seq::<i32>::empty(),
            r@.flushed == 0,
            r@.generation == 0,
            r@.glyphs@ == Map::<GlyphKey, GlyphEntry>::empty(),
            r@.glyphs.epoch() == 1,
            r@.glyphs.used() == 0,
            r@.glyphs.counts_used(),
            r@.color_glyphs == Map::<GlyphKey, ColorGlyphEntry>::empty(),
            r@.color_v1_glyphs == Map::<GlyphKey, ColorV1GlyphEntry>::empty(),
            r@.border_offsets == Map::<GlyphKey, u32>::empty(),
    {
        TextAtlas::with_color_mode(id, ColorMode::Accurate)
    }

    pub fn with_color_mode(id: u64, color_mode: ColorMode) -> (r: TextAtlas)
        ensures
            r.wf(),
            r.mode() == color_mode,
            r@.id == id,
            r@.capacity == INITIAL_BUFFER_CAPACITY,
            r@.data == Seq::<i32>::empty(),
            r@.flushed == 0,
            r@.generation == 0,
            r@.glyphs@ == Map::<GlyphKey, GlyphEntry>::empty(),
            r@.glyphs.epoch() == 1,
            r@.glyphs.used() == 0,
            r@.glyphs.counts_used(),
            r@.color_glyphs == Map::<GlyphKey, ColorGlyphEntry>::empty(),
            r@.color_v1_glyphs == Map::<GlyphKey, ColorV1GlyphEntry>::empty(),
            r@.border_offsets == Map::<GlyphKey, u32>::empty(),
    {
        proof {
            lemma_initial_doubled();
        }
        TextAtlas {
            id,
            color_mode,
            buffer_capacity: INITIAL_BUFFER_CAPACITY,
            buffer_cursor: 0,
            buffer_data: Vec::new(),
            gpu_flush_cursor: 0,
            generation: 0,
            scratch: PrepScratch::default(),
            glyphs: GlyphMap::new(),
            color_glyphs: KeyMap::new(),
            color_v1_glyphs: KeyMap::new(),
            border_offsets: KeyMap::new(),
        }
    }

    pub closed spec fn mode(&self) -> ColorMode {
        self.color_mode
    }

    /// Tells this atlas from others.
    pub fn id(&self) -> (r: u64)
        ensures
            r == self@.id,
    {
        self.id
    }

    pub fn color_mode(&self) -> (r: ColorMode)
        ensures
            r == self.mode(),
    {
        self.color_mode
    }

    /// Number of cached glyph entries, sentinels included.
    pub fn glyph_count(&self) -> (r: usize)
        requires
            self.wf(),
        ensures
            r == self@.glyphs@.dom().len(),
    {
        self.glyphs.len()
    }

    /// Read access to the glyph cache.
    pub fn glyph_map(&self) -> (r: &GlyphMap)
        ensures
            *r == self@.glyphs,
    {
        &self.glyphs
    }

    /// Counts the resets of this atlas.
    pub fn generation(&self) -> (r: u32)
        ensures
            r == self@.generation,
    {
        self.generation
    }

    /// Texels in use.
    pub fn buffer_elements_used(&self) -> (r: u32)
        requires
            self.wf(),
        ensures
            r == self@.cursor(),
    {
        self.buffer_cursor
    }

    /// Texels that fit the buffer.
    pub fn buffer_capacity(&self) -> (r: u32)
        ensures
            r == self@.capacity,
    {
        self.buffer_capacity
    }

    /// Looks up a glyph without marking it used.
    pub fn glyph(&self, key: &GlyphKey) -> (r: Option<GlyphEntry>)
        ensures
            r == (if self@.glyphs@.contains_key(*key) {
                Some(self@.glyphs@[*key])
            } else {
                None
            }),
    {
        self.glyphs.get(key)
    }

    /// Makes room for `least` texels in all.
    fn grow_buffer(&mut self, least: u32)
        requires
            old(self).wf(),
            old(self)@.capacity < least <= MAX_BUFFER_TEXELS,
        ensures
            final(self).wf(),
            final(self).mode() == old(self).mode(),
            final(self)@ == (AtlasState {
                capacity: grown(old(self)@.capacity as int, least as int) as u32,
                flushed: 0,
                ..old(self)@
            }),
            least <= final(self)@.capacity,
    {
        proof {
            lemma_grown(self.buffer_capacity as int, least as int);
        }
        let ghost start = self.buffer_capacity as int;
        let mut capacity: u32 = self.buffer_capacity;
        while capacity < least
            invariant
                0 < capacity <= MAX_BUFFER_TEXELS,
                doubled(capacity as int),
                least <= MAX_BUFFER_TEXELS,
                grown(capacity as int, least as int) == grown(start, least as int),
            decreases MAX_BUFFER_TEXELS - capacity,
        {
            proof {
                lemma_double(capacity as int, least as int);
            }
            capacity = capacity * 2;
        }
        self.buffer_capacity = capacity;
        self.gpu_flush_cursor = 0;
    }

    /// Appends words for whole texels.
    fn append(&mut self, words: &Vec<i32>)
        requires
            old(self).wf(),
            words.len() % 2 == 0,
            old(self)@.cursor() + words.len() / 2 <= MAX_BUFFER_TEXELS,
        ensures
            final(self).wf(),
            final(self).mode() == old(self).mode(),
            final(self)@ == old(self)@.appended(words@),
    {
        let end: u32 = self.buffer_cursor + (words.len() / 2) as u32;
        if end > self.buffer_capacity {
            self.grow_buffer(end);
        }
        push_all(&mut self.buffer_data, words);
        self.buffer_cursor = end;
    }
}

fn push_all(to: &mut Vec<i32>, from: &Vec<i32>)
    ensures
        final(to)@ == old(to)@ + from@,
{
    let mut i: usize = 0;
    assert(to@ =~= old(to)@ + from@.take(0));
    while i < from.len()
        invariant
            i <= from.len(),
            to@ == old(to)@ + from@.take(i as int),
        decreases from.len() - i,
    {
        to.push(from[i]);
        i = i + 1;
        assert(to@ =~= old(to)@ + from@.take(i as int));
    }
    assert(from@.take(from@.len() as int) =~= from@);
}

/// Whether a blob of `texels` finds no place in an atlas: it is too large for
/// its offsets, or it does not fit the buffer and the grown buffer would
/// exceed `max_bytes`.
pub open spec fn blob_refused(atlas: AtlasState, texels: int, max_bytes: u64) -> bool {
    ||| texels > MAX_BLOB_TEXELS
    ||| {
        &&& atlas.cursor() + texels > atlas.capacity
        &&& (atlas.cursor() + texels) * BYTES_PER_TEXEL > max_bytes
    }
}

/// The entry of a glyph blob placed at texel `offset`.
pub open spec fn placed_entry(
    outline: GlyphOutline,
    geometry: BandGeometry,
    band_count_x: u32,
    band_count_y: u32,
    units_per_em: Scalar,
    offset: int,
) -> GlyphEntry {
    GlyphEntry {
        band_offset: offset as u32,
        band_max_x: if band_count_x == 0 {
            0
        } else {
            (band_count_x - 1) as u32
        },
        band_max_y: if band_count_y == 0 {
            0
        } else {
            (band_count_y - 1) as u32
        },
        band_transform: geometry.transform,
        bounds: outline.bounds,
        units_per_em,
        last_used_epoch: 0,
    }
}

/// Whether a blob that is not refused fits what a buffer can grow to. It does
/// where `max_bytes` is at most eight bytes for each texel of the largest
/// buffer.
pub open spec fn blob_fits(atlas: AtlasState, texels: int, max_bytes: u64) -> bool {
    !blob_refused(atlas, texels, max_bytes) ==> atlas.cursor() + texels <= MAX_BUFFER_TEXELS
}

impl TextAtlas {
    /// Places a prepared blob in the atlas. `max_bytes` is the largest buffer
    /// that the device can bind.
    pub fn commit_mono(&mut self, glyph: &PreparedMono, max_bytes: u64) -> (r: Result<
        GlyphEntry,
        PrepareError,
    >)
        requires
            old(self).wf(),
            blob_fits(old(self)@, glyph.blob_size as int, max_bytes),
            glyph.blob_data@.len() == 2 * glyph.blob_size,
        ensures
            final(self).wf(),
            final(self).mode() == old(self).mode(),
            match r {
                Ok(entry) => {
                    &&& !blob_refused(old(self)@, glyph.blob_size as int, max_bytes)
                    &&& final(self)@ == old(self)@.appended(glyph.blob_data@)
                    &&& entry.band_offset == old(self)@.cursor()
                    &&& entry.band_max_x == if glyph.band_count_x == 0 {
                        0
                    } else {
                        glyph.band_count_x - 1
                    }
                    &&& entry.band_max_y == if glyph.band_count_y == 0 {
                        0
                    } else {
                        glyph.band_count_y - 1
                    }
                    &&& entry.band_transform == glyph.band_transform
                    &&& entry.bounds == glyph.bounds
                    &&& entry.units_per_em == glyph.units_per_em
                    &&& entry.last_used_epoch == 0
                },
                Err(e) => {
                    &&& e == PrepareError::AtlasFull
                    &&& blob_refused(old(self)@, glyph.blob_size as int, max_bytes)
                    &&& final(self)@ == old(self)@
                },
            },
    {
        if glyph.blob_size > MAX_BLOB_TEXELS {
            return Err(PrepareError::AtlasFull);
        }
        let offset: u32 = self.buffer_cursor;
        let end: u32 = offset + glyph.blob_size;
        if end > self.buffer_capacity && end as u64 * BYTES_PER_TEXEL > max_bytes {
            return Err(PrepareError::AtlasFull);
        }
        self.append(&glyph.blob_data);
        let band_max_x: u32 = glyph.band_count_x.saturating_sub(1);
        let band_max_y: u32 = glyph.band_count_y.saturating_sub(1);
        Ok(
            GlyphEntry::new(
                offset,
                band_max_x,
                band_max_y,
                glyph.band_transform,
                glyph.bounds,
                glyph.units_per_em,
            ),
        )
    }

    /// Packs a glyph outline and places it in the atlas. An outline with a
    /// coordinate that does not quantize to sixteen bits is left to the raster
    /// fallback.
    pub fn upload_glyph(
        &mut self,
        outline: &GlyphOutline,
        band_count_x: u32,
        band_count_y: u32,
        units_per_em: Scalar,
        geometry: &BandGeometry,
        max_bytes: u64,
    ) -> (r: Result<GlyphEntry, PrepareError>)
        requires
            old(self).wf(),
            bands_buildable(*outline, *geometry, band_count_x, band_count_y),
            mono_texels(*outline, *geometry, band_count_x, band_count_y) <= i32::MAX,
            blob_fits(
                old(self)@,
                mono_texels(*outline, *geometry, band_count_x, band_count_y),
                max_bytes,
            ),
        ensures
            final(self).wf(),
            final(self).mode() == old(self).mode(),
            ({
                let texels = mono_texels(*outline, *geometry, band_count_x, band_count_y);
                if !outline_quantizable(*outline) {
                    &&& r == Ok::<GlyphEntry, PrepareError>(sentinel(u32::MAX))
                    &&& final(self)@ == old(self)@
                } else if blob_refused(old(self)@, texels, max_bytes) {
                    &&& r == Err::<GlyphEntry, PrepareError>(PrepareError::AtlasFull)
                    &&& final(self)@ == old(self)@
                } else {
                    &&& r == Ok::<GlyphEntry, PrepareError>(
                        placed_entry(
                            *outline,
                            *geometry,
                            band_count_x,
                            band_count_y,
                            units_per_em,
                            old(self)@.cursor(),
                        ),
                    )
                    &&& final(self)@ == old(self)@.appended(
                        mono_blob(*outline, *geometry, band_count_x, band_count_y),
                    )
                }
            }),
    {
        match prepare_mono(
            outline,
            band_count_x,
            band_count_y,
            units_per_em,
            geometry,
            &mut self.scratch,
        ) {
            None => Ok(non_vector_glyph()),
            Some(glyph) => self.commit_mono(&glyph, max_bytes),
        }
    }

    /// Full reset: an empty atlas at its initial size, of the next generation.
    fn reset_atlas(&mut self)
        requires
            old(self).wf(),
        ensures
            final(self).wf(),
            final(self).mode() == old(self).mode(),
            atlas_reset(old(self)@, final(self)@),
            final(self)@.glyphs.epoch() == old(self)@.glyphs.epoch(),
    {
        proof {
            lemma_initial_doubled();
        }
        self.glyphs.clear();
        self.color_glyphs.clear();
        self.color_v1_glyphs.clear();
        self.border_offsets.clear();
        self.buffer_cursor = 0;
        self.buffer_data = Vec::new();
        self.gpu_flush_cursor = 0;
        self.generation = self.generation.wrapping_add(1);
        self.buffer_capacity = INITIAL_BUFFER_CAPACITY;
    }
}

/// What a reset leaves behind.
pub open spec fn atlas_reset(before: AtlasState, after: AtlasState) -> bool {
    &&& after.id == before.id
    &&& after.capacity == INITIAL_BUFFER_CAPACITY
    &&& after.data == Seq::<i32>::empty()
    &&& after.flushed == 0
    &&& after.generation == if before.generation == u32::MAX {
        0
    } else {
        before.generation + 1
    }
    &&& after.glyphs@ == Map::<GlyphKey, GlyphEntry>::empty()
    &&& after.glyphs.used() == 0
    &&& after.color_glyphs == Map::<GlyphKey, ColorGlyphEntry>::empty()
    &&& after.color_v1_glyphs == Map::<GlyphKey, ColorV1GlyphEntry>::empty()
    &&& after.border_offsets == Map::<GlyphKey, u32>::empty()
}

/// Whether an atlas is due for a reset: its buffer has grown, and fewer than
/// a quarter of the cached glyphs are in use.
pub open spec fn reset_due(atlas: AtlasState) -> bool {
    let cached = atlas.glyphs@.dom().len();
    &&& atlas.capacity > INITIAL_BUFFER_CAPACITY
    &&& 4 * atlas.glyphs.used() < cached
}

/// The number of the frame after `epoch`; 0 is skipped.
pub open spec fn next_epoch(epoch: u32) -> u32 {
    if epoch == u32::MAX {
        1
    } else {
        (epoch + 1) as u32
    }
}

/// What the start of a frame makes of an atlas: no glyph is used yet, and
/// nothing else changes, except that entries forget their last use when the
/// frame counter starts over.
pub open spec fn frame_advanced(before: AtlasState, after: AtlasState) -> bool {
    &&& after == (AtlasState { glyphs: after.glyphs, ..before })
    &&& after.glyphs.used() == 0
    &&& after.glyphs@ == if before.glyphs.epoch() == u32::MAX {
        before.glyphs@.map_values(|e: GlyphEntry| used_in(e, 0))
    } else {
        before.glyphs@
    }
}

/// Starting a frame keeps every glyph, with where it lies and what it looks
/// like.
pub proof fn lemma_frame_keeps_glyphs(before: AtlasState, after: AtlasState, key: GlyphKey)
    requires
        frame_advanced(before, after),
    ensures
        after.glyphs@.contains_key(key) == before.glyphs@.contains_key(key),
        after.glyphs@.dom() == before.glyphs@.dom(),
        before.glyphs@.contains_key(key) ==> used_in(after.glyphs@[key], 0) == used_in(
            before.glyphs@[key],
            0,
        ),
{
    assert(after.glyphs@.dom() =~= before.glyphs@.dom());
}

impl TextAtlas {
    /// Starts a frame: glyphs count as in use from here on.
    pub fn begin_frame(&mut self)
        requires
            old(self).wf(),
        ensures
            final(self).wf(),
            final(self).mode() == old(self).mode(),
            final(self)@.glyphs.counts_used(),
            final(self)@.glyphs.epoch() == next_epoch(old(self)@.glyphs.epoch()),
            frame_advanced(old(self)@, final(self)@),
    {
        self.glyphs.next_frame();
    }

    /// End-of-frame cache management.
    ///
    /// Starts a frame in which no glyph is used yet. When the buffer has grown
    /// beyond its initial size and fewer than a quarter of the cached glyphs
    /// were in use, the atlas is reset first: it is emptied and goes back to
    /// its initial size, and later frames extract the visible glyphs anew. A
    /// stable document with many glyphs does not trigger a reset.
    ///
    /// Returns whether the atlas was reset, so that its device buffer is to be
    /// made anew.
    pub fn trim(&mut self) -> (r: bool)
        requires
            old(self).wf(),
        ensures
            final(self).wf(),
            final(self).mode() == old(self).mode(),
            r == reset_due(old(self)@),
            final(self)@.glyphs.counts_used(),
            final(self)@.glyphs.epoch() == next_epoch(old(self)@.glyphs.epoch()),
            if r {
                atlas_reset(old(self)@, final(self)@)
            } else {
                frame_advanced(old(self)@, final(self)@)
            },
    {
        let cached: usize = self.glyphs.len();
        let in_use: usize = self.glyphs.in_use_count();
        let due: bool = self.buffer_capacity > INITIAL_BUFFER_CAPACITY && cached > 0 && in_use <= (
        cached - 1) / 4;
        if due {
            self.reset_atlas();
        }
        self.glyphs.next_frame();
        assert(due ==> self.glyphs@ =~= Map::<GlyphKey, GlyphEntry>::empty());
        due
    }
}

impl TextAtlas {
    /// The atlas counts the glyphs that were used in the current frame, each
    /// once.
    pub proof fn lemma_counts_used(&self)
        requires
            self.wf(),
        ensures
            self@.glyphs.counts_used(),
    {
        self.glyphs.lemma_counts_used();
    }
}

/// A piece of the buffer that the device does not have yet.
#[derive(Debug)]
pub struct BufferUpload {
    /// Where the piece begins in the device buffer, in bytes.
    pub byte_offset: u64,
    pub bytes: Vec<u8>,
}

/// The words that the device does not have yet, as unsigned words.
pub open spec fn pending_words(atlas: AtlasState) -> Seq<u32> {
    Seq::new(
        (atlas.data.len() - 2 * atlas.flushed) as nat,
        |i: int| unsigned(atlas.data[2 * atlas.flushed + i]),
    )
}

impl TextAtlas {
    /// Hands out all blobs that the device does not have yet, in one piece,
    /// and counts them as flushed. To be called once per frame, when all
    /// glyphs of the frame are in the atlas.
    pub fn flush_uploads(&mut self) -> (r: Option<BufferUpload>)
        requires
            old(self).wf(),
        ensures
            final(self).wf(),
            final(self).mode() == old(self).mode(),
            final(self)@ == (AtlasState { flushed: old(self)@.cursor() as u32, ..old(self)@ }),
            match r {
                Some(upload) => {
                    &&& old(self)@.flushed < old(self)@.cursor()
                    &&& upload.byte_offset == old(self)@.flushed * BYTES_PER_TEXEL
                    &&& in_memory(pending_words(old(self)@), upload.bytes@)
                },
                None => old(self)@.flushed == old(self)@.cursor(),
            },
    {
        let start: u32 = self.gpu_flush_cursor;
        let end: u32 = self.buffer_cursor;
        if start >= end {
            return None;
        }
        let first: usize = start as usize * 2;
        let mut words: Vec<u32> = Vec::new();
        let mut i: usize = first;
        while i < self.buffer_data.len()
            invariant
                self.wf(),
                first == 2 * self.gpu_flush_cursor,
                first <= i <= self.buffer_data.len(),
                words@ == pending_words(self@).take(i - first),
            decreases self.buffer_data.len() - i,
        {
            words.push(to_unsigned(self.buffer_data[i]));
            i = i + 1;
            assert(words@ =~= pending_words(self@).take(i - first));
        }
        assert(words@ =~= pending_words(self@));
        let bytes = word_bytes(&words);
        self.gpu_flush_cursor = end;
        Some(BufferUpload { byte_offset: start as u64 * BYTES_PER_TEXEL, bytes })
    }
}

/// A texel that is in the atlas stays where it is and keeps its words,
/// whatever is appended later and however often the buffer grows.
pub proof fn lemma_append_keeps_texels(atlas: AtlasState, words: Seq<i32>, i: int)
    requires
        0 <= i < atlas.data.len(),
    ensures
        i < atlas.appended(words).data.len(),
        atlas.appended(words).data[i] == atlas.data[i],
{
}

/// An appended blob is read back from the texel at which it was placed.
pub proof fn lemma_append_places_blob(atlas: AtlasState, words: Seq<i32>)
    requires
        atlas.data.len() % 2 == 0,
    ensures
        atlas.appended(words).data.subrange(
            2 * atlas.cursor(),
            2 * atlas.cursor() + words.len(),
        ) == words,
{
    assert(atlas.appended(words).data.subrange(
        2 * atlas.cursor(),
        2 * atlas.cursor() + words.len(),
    ) =~= words);
}

/// After an append the device needs all words that it does not have: the
/// appended ones, or the whole buffer when it grew.
pub proof fn lemma_append_pending(atlas: AtlasState, words: Seq<i32>)
    requires
        atlas.data.len() % 2 == 0,
        words.len() % 2 == 0,
        atlas.flushed <= atlas.cursor(),
    ensures
        pending_words(atlas.appended(words)) == if atlas.cursor() + words.len() / 2 > atlas.capacity {
            (atlas.data + words).map_values(|w: i32| unsigned(w))
        } else {
            pending_words(atlas) + words.map_values(|w: i32| unsigned(w))
        },
{
    assert(pending_words(atlas.appended(words)) =~= if atlas.cursor() + words.len() / 2
        > atlas.capacity {
        (atlas.data + words).map_values(|w: i32| unsigned(w))
    } else {
        pending_words(atlas) + words.map_values(|w: i32| unsigned(w))
    });
}

/// An atlas whose buffer never grew is not reset.
pub proof fn lemma_no_reset_without_growth(atlas: AtlasState)
    requires
        atlas.capacity == INITIAL_BUFFER_CAPACITY,
    ensures
        !reset_due(atlas),
{
}

/// An atlas of which at least a quarter of the glyphs is in use is not reset;
/// an empty atlas is not reset either.
pub proof fn lemma_no_reset_of_working_set(atlas: AtlasState)
    requires
        4 * atlas.glyphs.used() >= atlas.glyphs@.dom().len(),
    ensures
        !reset_due(atlas),
{
}

/// A reset changes the generation, so that whoever noted the generation
/// before it can tell.
pub proof fn lemma_reset_changes_generation(before: AtlasState, after: AtlasState)
    requires
        atlas_reset(before, after),
    ensures
        after.generation != before.generation,
{
}

/// The number of bands along each axis of an outline that commands refer to.
pub open spec fn sub_band_count(outline: GlyphOutline) -> u32 {
    let curves = outline.curves.len();
    if curves < 1 {
        1
    } else if curves > 16 {
        16
    } else {
        curves as u32
    }
}

/// The words in front of such an outline: the greatest band indices, then the
/// band transform.
pub open spec fn sub_header(geometry: BandGeometry, band_count: u32) -> Seq<i32> {
    seq![
        packed((band_count - 1) as i16, (band_count - 1) as i16),
        0,
        signed(geometry.transform.scale_x.bits),
        signed(geometry.transform.scale_y.bits),
        signed(geometry.transform.offset_x.bits),
        signed(geometry.transform.offset_y.bits),
    ]
}

/// The words of such an outline: its header, then its bands and curves.
#[verifier::opaque]
pub open spec fn sub_blob(outline: GlyphOutline, geometry: BandGeometry) -> Seq<i32> {
    let count = sub_band_count(outline);
    sub_header(geometry, count) + mono_blob(outline, geometry, count, count)
}

/// The words of the first `n` outlines.
pub open spec fn sub_blobs(
    subs: Seq<ColorV1SubGlyph>,
    geometries: Seq<BandGeometry>,
    n: nat,
) -> Seq<i32>
    decreases n,
{
    if n == 0 {
        Seq::empty()
    } else {
        sub_blobs(subs, geometries, (n - 1) as nat) + sub_blob(
            subs[n - 1].outline,
            geometries[n - 1],
        )
    }
}

/// The texel of the blob at which outline `i` begins: behind the commands,
/// two texels each, and the outlines before it.
pub open spec fn sub_offset(v1: ColorV1Data, geometries: Seq<BandGeometry>, i: int) -> int {
    2 * v1.commands.len() + sub_blobs(v1.sub_glyphs@, geometries, i as nat).len() / 2
}

/// A command that names its outline by the texel at which it begins.
pub open spec fn placed_command(
    command: Command,
    v1: ColorV1Data,
    geometries: Seq<BandGeometry>,
) -> Command {
    if (command.opcode == CMD_DRAW_SOLID || command.opcode == CMD_DRAW_GRADIENT) && 0 <= command.x
        < v1.sub_glyphs.len() {
        Command { x: sub_offset(v1, geometries, command.x as int) as i32, ..command }
    } else {
        command
    }
}

/// All commands of a glyph with their outlines placed. Entries that belong to
/// a header are not commands and stay as they are.
pub open spec fn placed_commands(v1: ColorV1Data, geometries: Seq<BandGeometry>) -> Seq<Command> {
    Seq::new(
        v1.commands@.len(),
        |i: int|
            if is_header(v1.commands@, i) {
                placed_command(v1.commands@[i], v1, geometries)
            } else {
                v1.commands@[i]
            },
    )
}

/// Commands as words, four each.
pub open spec fn command_words(commands: Seq<Command>) -> Seq<i32> {
    Seq::new(
        4 * commands.len(),
        |i: int|
            if i % 4 == 0 {
                commands[i / 4].opcode
            } else if i % 4 == 1 {
                commands[i / 4].x
            } else if i % 4 == 2 {
                commands[i / 4].y
            } else {
                commands[i / 4].z
            },
    )
}

/// The words of a colour glyph: its commands, then its outlines.
pub open spec fn v1_blob(v1: ColorV1Data, geometries: Seq<BandGeometry>) -> Seq<i32> {
    command_words(placed_commands(v1, geometries)) + sub_blobs(
        v1.sub_glyphs@,
        geometries,
        v1.sub_glyphs@.len(),
    )
}

/// `bounds` widened to take in `other`.
pub open spec fn united(bounds: Bounds, other: Bounds) -> Bounds {
    Bounds {
        min_x: bounds.min_x.least(other.min_x),
        min_y: bounds.min_y.least(other.min_y),
        max_x: bounds.max_x.greatest(other.max_x),
        max_y: bounds.max_y.greatest(other.max_y),
    }
}

/// The bounds of the first `n` outlines together.
pub open spec fn union_bounds(subs: Seq<ColorV1SubGlyph>, n: nat) -> Bounds
    decreases n,
{
    if n == 0 {
        no_bounds()
    } else {
        united(union_bounds(subs, (n - 1) as nat), subs[n - 1].outline.bounds)
    }
}

/// What `upload_color_v1` asks of outline `i`.
pub open spec fn sub_buildable(sub: ColorV1SubGlyph, geometry: BandGeometry) -> bool {
    let count = sub_band_count(sub.outline);
    &&& bands_buildable(sub.outline, geometry, count, count)
    &&& mono_texels(sub.outline, geometry, count, count) <= i32::MAX
}

proof fn lemma_sub_blobs_rise(
    subs: Seq<ColorV1SubGlyph>,
    geometries: Seq<BandGeometry>,
    m: nat,
    n: nat,
)
    requires
        m <= n,
    ensures
        sub_blobs(subs, geometries, m).len() <= sub_blobs(subs, geometries, n).len(),
    decreases n,
{
    if m < n {
        lemma_sub_blobs_rise(subs, geometries, m, (n - 1) as nat);
    }
}

fn count_sub_bands(outline: &GlyphOutline) -> (r: u32)
    ensures
        r == sub_band_count(*outline),
{
    let curves: usize = outline.curves.len();
    if curves < 1 {
        1
    } else if curves > 16 {
        16
    } else {
        curves as u32
    }
}

fn push_header(words: &mut Vec<i32>, geometry: &BandGeometry, band_count: u32)
    requires
        1 <= band_count <= 16,
    ensures
        final(words)@ == old(words)@ + sub_header(*geometry, band_count),
{
    let greatest: i16 = (band_count - 1) as i16;
    words.push(pack_i16_pair(greatest, greatest));
    words.push(0);
    words.push(to_signed(geometry.transform.scale_x.bits));
    words.push(to_signed(geometry.transform.scale_y.bits));
    words.push(to_signed(geometry.transform.offset_x.bits));
    words.push(to_signed(geometry.transform.offset_y.bits));
    assert(words@ =~= old(words)@ + sub_header(*geometry, band_count));
}

/// Appends the words of an outline and counts its texels.
fn push_sub_blob(
    words: &mut Vec<i32>,
    sub: &ColorV1SubGlyph,
    geometry: &BandGeometry,
    scratch: &mut PrepScratch,
) -> (r: u32)
    requires
        sub_buildable(*sub, *geometry),
    ensures
        final(words)@ == old(words)@ + sub_blob(sub.outline, *geometry),
        sub_blob(sub.outline, *geometry).len() == 2 * r,
{
    let band_count: u32 = count_sub_bands(&sub.outline);
    push_header(words, geometry, band_count);
    let (blob, texels): (Vec<i32>, u32) = build_blob(
        &sub.outline,
        band_count,
        band_count,
        geometry,
        scratch,
    );
    push_all(words, &blob);
    proof {
        reveal(sub_blob);
        assert(words@ =~= old(words)@ + sub_blob(sub.outline, *geometry));
    }
    3 + texels
}

/// What `upload_color_v1` asks of a glyph for an atlas that uses `cursor` texels.
pub open spec fn v1_uploadable(v1: ColorV1Data, geometries: Seq<BandGeometry>, cursor: int) -> bool {
    &&& geometries.len() == v1.sub_glyphs.len()
    &&& forall|i: int|
        0 <= i < v1.sub_glyphs.len() ==> sub_buildable(
            #[trigger] v1.sub_glyphs@[i],
            geometries[i],
        )
    &&& cursor + v1_blob(v1, geometries).len() / 2 <= MAX_BUFFER_TEXELS
}

proof fn lemma_sub_offset_bound(v1: ColorV1Data, geometries: Seq<BandGeometry>, i: int)
    requires
        0 <= i <= v1.sub_glyphs.len(),
        v1_blob(v1, geometries).len() / 2 <= MAX_BUFFER_TEXELS,
    ensures
        2 * v1.commands.len() <= sub_offset(v1, geometries, i) <= MAX_BUFFER_TEXELS,
        i < v1.sub_glyphs.len() ==> sub_offset(v1, geometries, i) <= i32::MAX,
{
    let n = v1.sub_glyphs@.len();
    lemma_sub_blobs_rise(v1.sub_glyphs@, geometries, i as nat, n);
    if i < n {
        lemma_sub_blobs_rise(v1.sub_glyphs@, geometries, (i + 1) as nat, n);
        assert(sub_blob(v1.sub_glyphs@[i].outline, geometries[i]).len() >= 6) by {
            reveal(sub_blob);
        }
    }
}

fn payload_count(header: &Command) -> (r: u64)
    ensures
        r == payload_len(*header),
{
    if header.opcode != CMD_DRAW_GRADIENT {
        return 0;
    }
    let geometry: u64 = if header.y == 1 {
        3
    } else {
        2
    };
    let stops: u64 = if header.z > 0 {
        header.z as u64
    } else {
        0
    };
    3 + geometry + stops
}

/// Makes the commands of a glyph name their outlines by where they begin.
fn place_commands(v1: &ColorV1Data, geometries: &Vec<BandGeometry>, offsets: &Vec<u32>) -> (commands:
    Vec<Command>)
    requires
        offsets.len() == v1.sub_glyphs.len(),
        v1_blob(*v1, geometries@).len() / 2 <= MAX_BUFFER_TEXELS,
        forall|k: int|
            0 <= k < v1.sub_glyphs.len() ==> #[trigger] offsets@[k] == sub_offset(
                *v1,
                geometries@,
                k,
            ),
    ensures
        commands@ == placed_commands(*v1, geometries@),
{
    let mut commands: Vec<Command> = Vec::new();
    let mut left: u64 = 0;
    let mut i: usize = 0;
    while i < v1.commands.len()
        invariant
            i <= v1.commands.len(),
            left == payload_left(v1.commands@, i as nat),
            offsets.len() == v1.sub_glyphs.len(),
            v1_blob(*v1, geometries@).len() / 2 <= MAX_BUFFER_TEXELS,
            forall|k: int|
                0 <= k < v1.sub_glyphs.len() ==> #[trigger] offsets@[k] == sub_offset(
                    *v1,
                    geometries@,
                    k,
                ),
            commands.len() == i,
            forall|k: int|
                0 <= k < i ==> #[trigger] commands@[k] == placed_commands(*v1, geometries@)[k],
        decreases v1.commands.len() - i,
    {
        let mut command = v1.commands[i];
        let header: bool = left == 0;
        left = if header {
            payload_count(&command)
        } else {
            left - 1
        };
        if header && (command.opcode == CMD_DRAW_SOLID || command.opcode == CMD_DRAW_GRADIENT) && command.x
            >= 0 && (command.x as usize) < offsets.len() {
            proof {
                lemma_sub_offset_bound(*v1, geometries@, command.x as int);
            }
            command.x = offsets[command.x as usize] as i32;
        }
        commands.push(command);
        i = i + 1;
    }
    assert(commands@ =~= placed_commands(*v1, geometries@));
    commands
}

fn write_commands(commands: &Vec<Command>) -> (words: Vec<i32>)
    ensures
        words@ == command_words(commands@),
{
    let mut words: Vec<i32> = Vec::new();
    let mut i: usize = 0;
    while i < commands.len()
        invariant
            i <= commands.len(),
            words@ == command_words(commands@).take(4 * i),
        decreases commands.len() - i,
    {
        let command = commands[i];
        words.push(command.opcode);
        words.push(command.x);
        words.push(command.y);
        words.push(command.z);
        i = i + 1;
        proof {
            let all = command_words(commands@);
            let at = 4 * i - 4;
            assert(all[at] == command.opcode);
            assert(all[at + 1] == command.x);
            assert(all[at + 2] == command.y);
            assert(all[at + 3] == command.z);
            assert(words@ =~= all.take(4 * i));
        }
    }
    assert(words@ =~= command_words(commands@));
    words
}

/// Tells each outline where it begins.
fn set_offsets(subs: &mut Vec<ColorV1SubGlyph>, offsets: &Vec<u32>)
    requires
        offsets.len() == old(subs).len(),
    ensures
        final(subs).len() == old(subs).len(),
        forall|k: int|
            0 <= k < old(subs).len() ==> {
                &&& (#[trigger] final(subs)@[k]).outline == old(subs)@[k].outline
                &&& final(subs)@[k].blob_offset == offsets@[k]
            },
{
    let mut i: usize = 0;
    while i < offsets.len()
        invariant
            i <= offsets.len(),
            offsets.len() == subs.len(),
            subs.len() == old(subs).len(),
            forall|k: int|
                0 <= k < subs.len() ==> (#[trigger] subs@[k]).outline == old(subs)@[k].outline,
            forall|k: int| 0 <= k < i ==> (#[trigger] subs@[k]).blob_offset == offsets@[k],
        decreases offsets.len() - i,
    {
        subs[i].blob_offset = offsets[i];
        i = i + 1;
    }
}

impl TextAtlas {
    /// Builds the words of all outlines of a colour glyph, and where they begin.
    fn build_sub_blobs(&mut self, v1: &ColorV1Data, geometries: &Vec<BandGeometry>) -> (r: (
        Vec<i32>,
        Vec<u32>,
        Bounds,
    ))
        requires
            old(self).wf(),
            v1_uploadable(*v1, geometries@, old(self)@.cursor()),
        ensures
            final(self).wf(),
            final(self).mode() == old(self).mode(),
            final(self)@ == old(self)@,
            r.0@ == sub_blobs(v1.sub_glyphs@, geometries@, v1.sub_glyphs@.len()),
            r.0@.len() % 2 == 0,
            r.1.len() == v1.sub_glyphs.len(),
            forall|i: int|
                0 <= i < v1.sub_glyphs.len() ==> #[trigger] r.1@[i] == sub_offset(
                    *v1,
                    geometries@,
                    i,
                ),
            r.2 == union_bounds(v1.sub_glyphs@, v1.sub_glyphs@.len()),
    {
        let mut words: Vec<i32> = Vec::new();
        let mut offsets: Vec<u32> = Vec::new();
        let mut bounds = Bounds::empty();
        proof {
            lemma_sub_offset_bound(*v1, geometries@, 0);
        }
        let mut offset: u32 = v1.commands.len() as u32 * 2;
        let mut i: usize = 0;
        while i < v1.sub_glyphs.len()
            invariant
                i <= v1.sub_glyphs.len(),
                self.wf(),
                self.mode() == old(self).mode(),
                self@ == old(self)@,
                v1_uploadable(*v1, geometries@, self@.cursor()),
                0 <= self@.cursor(),
                words@ == sub_blobs(v1.sub_glyphs@, geometries@, i as nat),
                words@.len() % 2 == 0,
                offset == sub_offset(*v1, geometries@, i as int),
                offsets.len() == i,
                forall|k: int|
                    0 <= k < i ==> #[trigger] offsets@[k] == sub_offset(*v1, geometries@, k),
                bounds == union_bounds(v1.sub_glyphs@, i as nat),
            decreases v1.sub_glyphs.len() - i,
        {
            assert(sub_buildable(v1.sub_glyphs@[i as int], geometries@[i as int]));
            bounds = unite(&bounds, &v1.sub_glyphs[i].outline.bounds);
            let texels: u32 = push_sub_blob(
                &mut words,
                &v1.sub_glyphs[i],
                &geometries[i],
                &mut self.scratch,
            );
            offsets.push(offset);
            proof {
                lemma_sub_offset_bound(*v1, geometries@, i + 1);
            }
            offset = offset + texels;
            i = i + 1;
        }
        (words, offsets, bounds)
    }

    /// Places a colour glyph that is drawn by commands. `geometries` holds the
    /// band geometry of each of its outlines. Commands that draw an outline
    /// come to name it by the texel at which it begins, and each outline
    /// learns that texel.
    pub fn upload_color_v1(
        &mut self,
        v1: &mut ColorV1Data,
        units_per_em: Scalar,
        geometries: &Vec<BandGeometry>,
    ) -> (r: Result<ColorV1GlyphEntry, PrepareError>)
        requires
            old(self).wf(),
            v1_uploadable(*old(v1), geometries@, old(self)@.cursor()),
        ensures
            final(self).wf(),
            final(self).mode() == old(self).mode(),
            final(self)@ == old(self)@.appended(v1_blob(*old(v1), geometries@)),
            r == Ok::<ColorV1GlyphEntry, PrepareError>(
                (ColorV1GlyphEntry {
                    blob_offset: old(self)@.cursor() as u32,
                    cmd_count: (2 * old(v1).commands.len()) as u32,
                    bounds: union_bounds(old(v1).sub_glyphs@, old(v1).sub_glyphs@.len()),
                    units_per_em,
                }),
            ),
            final(v1).commands@ == placed_commands(*old(v1), geometries@),
            final(v1).cmd_count == old(v1).cmd_count,
            final(v1).sub_glyphs.len() == old(v1).sub_glyphs.len(),
            forall|i: int|
                0 <= i < old(v1).sub_glyphs.len() ==> {
                    &&& (#[trigger] final(v1).sub_glyphs@[i]).outline == old(
                        v1).sub_glyphs@[i].outline
                    &&& final(v1).sub_glyphs@[i].blob_offset == sub_offset(
                        *old(v1),
                        geometries@,
                        i,
                    )
                },
    {
        let ghost given = *v1;
        let (body, offsets, bounds): (Vec<i32>, Vec<u32>, Bounds) = self.build_sub_blobs(
            v1,
            geometries,
        );
        proof {
            lemma_sub_offset_bound(given, geometries@, 0);
        }
        let cmd_count: u32 = v1.commands.len() as u32 * 2;
        let commands = place_commands(v1, geometries, &offsets);
        let mut words: Vec<i32> = write_commands(&commands);
        push_all(&mut words, &body);
        assert(words@ =~= v1_blob(given, geometries@));
        v1.commands = commands;
        set_offsets(&mut v1.sub_glyphs, &offsets);
        let blob_offset: u32 = self.buffer_cursor;
        self.append(&words);
        Ok(ColorV1GlyphEntry { blob_offset, cmd_count, bounds, units_per_em })
    }
}

fn unite(bounds: &Bounds, other: &Bounds) -> (r: Bounds)
    ensures
        r == united(*bounds, *other),
{
    Bounds {
        min_x: bounds.min_x.min(other.min_x),
        min_y: bounds.min_y.min(other.min_y),
        max_x: bounds.max_x.max(other.max_x),
        max_y: bounds.max_y.max(other.max_y),
    }
}

proof fn lemma_sub_blob_even(outline: GlyphOutline, geometry: BandGeometry)
    ensures
        sub_blob(outline, geometry).len() % 2 == 0,
{
    reveal(sub_blob);
    let count = sub_band_count(outline);
    lemma_blob_length(outline, geometry, count, count);
}

proof fn lemma_sub_blobs_even(
    subs: Seq<ColorV1SubGlyph>,
    geometries: Seq<BandGeometry>,
    n: nat,
)
    ensures
        sub_blobs(subs, geometries, n).len() % 2 == 0,
    decreases n,
{
    if n > 0 {
        lemma_sub_blobs_even(subs, geometries, (n - 1) as nat);
        lemma_sub_blob_even(subs[n - 1].outline, geometries[n - 1]);
    }
}

proof fn lemma_sub_blobs_at(
    subs: Seq<ColorV1SubGlyph>,
    geometries: Seq<BandGeometry>,
    n: nat,
    k: int,
)
    requires
        0 <= k < n,
    ensures
        ({
            let from = sub_blobs(subs, geometries, k as nat).len() as int;
            let blob = sub_blob(subs[k].outline, geometries[k]);
            &&& from + blob.len() <= sub_blobs(subs, geometries, n).len()
            &&& sub_blobs(subs, geometries, n).subrange(from, from + blob.len()) == blob
        }),
    decreases n,
{
    let from = sub_blobs(subs, geometries, k as nat).len() as int;
    let blob = sub_blob(subs[k].outline, geometries[k]);
    let all = sub_blobs(subs, geometries, n);
    let before = sub_blobs(subs, geometries, (n - 1) as nat);
    if k < n - 1 {
        lemma_sub_blobs_at(subs, geometries, (n - 1) as nat, k);
        assert(all.subrange(from, from + blob.len()) =~= before.subrange(from, from + blob.len()));
    } else {
        assert(all.subrange(from, from + blob.len()) =~= blob);
    }
}

/// A command that draws outline `k` comes to name the texel of the blob at
/// which the words of that outline begin.
pub proof fn lemma_command_finds_outline(
    v1: ColorV1Data,
    geometries: Seq<BandGeometry>,
    command: Command,
)
    requires
        command.opcode == CMD_DRAW_SOLID || command.opcode == CMD_DRAW_GRADIENT,
        0 <= command.x < v1.sub_glyphs.len(),
        v1_uploadable(v1, geometries, 0),
    ensures
        ({
            let at = 2 * placed_command(command, v1, geometries).x;
            let k = command.x as int;
            let blob = sub_blob(v1.sub_glyphs@[k].outline, geometries[k]);
            &&& 0 <= at
            &&& at + blob.len() <= v1_blob(v1, geometries).len()
            &&& v1_blob(v1, geometries).subrange(at, at + blob.len()) == blob
        }),
{
    let k = command.x as int;
    let subs = v1.sub_glyphs@;
    let blob = sub_blob(subs[k].outline, geometries[k]);
    lemma_sub_blobs_at(subs, geometries, subs.len(), k);
    lemma_sub_blobs_even(subs, geometries, k as nat);
    lemma_sub_offset_bound(v1, geometries, k);
    let from = sub_blobs(subs, geometries, k as nat).len() as int;
    let all = sub_blobs(subs, geometries, subs.len());
    let at = 4 * v1.commands.len() + from;
    assert(at == 2 * placed_command(command, v1, geometries).x);
    assert(v1_blob(v1, geometries).subrange(at, at + blob.len()) =~= all.subrange(
        from,
        from + blob.len(),
    ));
}

/// Placing changes nothing of a command sequence but the outline that a header
/// names: the first operand of headers that draw one. So the placed sequence is
/// read as the sequence was.
pub proof fn lemma_placing_keeps(v1: ColorV1Data, geometries: Seq<BandGeometry>, i: int)
    requires
        0 <= i < v1.commands.len(),
    ensures
        ({
            let given = v1.commands@;
            let placed = placed_commands(v1, geometries);
            &&& placed.len() == given.len()
            &&& placed[i] == (Command { x: placed[i].x, ..given[i] })
            &&& !is_draw(given, i) ==> placed[i] == given[i]
            &&& is_header(placed, i) == is_header(given, i)
            &&& is_draw(placed, i) == is_draw(given, i)
        }),
{
    lemma_placing_read(v1, geometries, i as nat);
}

proof fn lemma_placing_read(v1: ColorV1Data, geometries: Seq<BandGeometry>, n: nat)
    requires
        n <= v1.commands.len(),
    ensures
        payload_left(placed_commands(v1, geometries), n) == payload_left(v1.commands@, n),
    decreases n,
{
    if n > 0 {
        lemma_placing_read(v1, geometries, (n - 1) as nat);
    }
}

/// In the sequence of an encoder every header that draws an outline finds it:
/// the one that comes behind `k` others names the texel where outline `k`
/// begins.
pub proof fn lemma_placed_draws(v1: ColorV1Data, geometries: Seq<BandGeometry>, i: int)
    requires
        draws_numbered(v1.commands@, v1.sub_glyphs@.len()),
        v1.sub_glyphs.len() <= i32::MAX,
        0 <= i < v1.commands.len(),
        is_draw(v1.commands@, i),
        v1_blob(v1, geometries).len() / 2 <= MAX_BUFFER_TEXELS,
    ensures
        draws_before(v1.commands@, i as nat) < v1.sub_glyphs.len(),
        placed_commands(v1, geometries)[i].x == sub_offset(
            v1,
            geometries,
            draws_before(v1.commands@, i as nat) as int,
        ),
{
    let k = draws_before(v1.commands@, i as nat);
    lemma_draws_grow(v1.commands@, (i + 1) as nat, v1.commands@.len());
    assert(draws_before(v1.commands@, (i + 1) as nat) == k + 1);
    assert(v1.commands@[i].x == k);
    lemma_sub_offset_bound(v1, geometries, k as int);
}

proof fn lemma_draws_grow(commands: Seq<Command>, m: nat, n: nat)
    requires
        m <= n,
    ensures
        draws_before(commands, m) <= draws_before(commands, n),
    decreases n,
{
    if m < n {
        lemma_draws_grow(commands, m, (n - 1) as nat);
    }
}

impl TextAtlas {
    /// Looks up a glyph and marks it used in this frame.
    pub fn glyph_mark_used(&mut self, key: &GlyphKey) -> (r: Option<GlyphEntry>)
        requires
            old(self).wf(),
        ensures
            final(self).wf(),
            final(self).mode() == old(self).mode(),
            final(self)@ == (AtlasState { glyphs: final(self)@.glyphs, ..old(self)@ }),
            glyph_marked(old(self)@.glyphs, final(self)@.glyphs, *key),
            r == (if old(self)@.glyphs@.contains_key(*key) {
                Some(used_in(old(self)@.glyphs@[*key], old(self)@.glyphs.epoch()))
            } else {
                None
            }),
            final(self)@.glyphs.counts_used(),
    {
        self.glyphs.get_and_mark_used(key)
    }

    /// Puts a glyph into the cache and marks it used in this frame. A glyph
    /// counts once per frame.
    pub fn insert_glyph(&mut self, key: GlyphKey, entry: GlyphEntry) -> (r: GlyphEntry)
        requires
            old(self).wf(),
        ensures
            final(self).wf(),
            final(self).mode() == old(self).mode(),
            final(self)@ == (AtlasState { glyphs: final(self)@.glyphs, ..old(self)@ }),
            r == used_in(entry, old(self)@.glyphs.epoch()),
            final(self)@.glyphs@ == old(self)@.glyphs@.insert(key, r),
            final(self)@.glyphs.epoch() == old(self)@.glyphs.epoch(),
            final(self)@.glyphs.used() == old(self)@.glyphs.used() + (if old(self)@.glyphs.used_keys().contains(key) {
                0int
            } else {
                1
            }),
            final(self)@.glyphs.counts_used(),
    {
        self.glyphs.insert_and_mark_used(key, entry)
    }

    /// The layers of a colour glyph.
    pub fn color_glyph(&self, key: &GlyphKey) -> (r: Option<&ColorGlyphEntry>)
        ensures
            match r {
                Some(entry) => self@.color_glyphs.contains_key(*key) && *entry
                    == self@.color_glyphs[*key],
                None => !self@.color_glyphs.contains_key(*key),
            },
    {
        self.color_glyphs.get(key)
    }

    pub fn insert_color_glyph(&mut self, key: GlyphKey, entry: ColorGlyphEntry)
        requires
            old(self).wf(),
        ensures
            final(self).wf(),
            final(self).mode() == old(self).mode(),
            final(self)@ == (AtlasState {
                color_glyphs: old(self)@.color_glyphs.insert(key, entry),
                ..old(self)@
            }),
    {
        self.color_glyphs.insert(key, entry);
    }

    /// The command sequence of a colour glyph.
    pub fn color_v1_glyph(&self, key: &GlyphKey) -> (r: Option<ColorV1GlyphEntry>)
        ensures
            r == (if self@.color_v1_glyphs.contains_key(*key) {
                Some(self@.color_v1_glyphs[*key])
            } else {
                None
            }),
    {
        match self.color_v1_glyphs.get(key) {
            Some(entry) => Some(*entry),
            None => None,
        }
    }

    pub fn insert_color_v1_glyph(&mut self, key: GlyphKey, entry: ColorV1GlyphEntry)
        requires
            old(self).wf(),
        ensures
            final(self).wf(),
            final(self).mode() == old(self).mode(),
            final(self)@ == (AtlasState {
                color_v1_glyphs: old(self)@.color_v1_glyphs.insert(key, entry),
                ..old(self)@
            }),
    {
        self.color_v1_glyphs.insert(key, entry);
    }

    /// Where the border data of a glyph lies.
    pub fn border_descriptor(&self, key: &GlyphKey) -> (r: Option<u32>)
        ensures
            r == (if self@.border_offsets.contains_key(*key) {
                Some(self@.border_offsets[*key])
            } else {
                None
            }),
    {
        match self.border_offsets.get(key) {
            Some(offset) => Some(*offset),
            None => None,
        }
    }

    /// Notes where the border data of a glyph lies.
    pub fn insert_border_descriptor(&mut self, key: GlyphKey, offset: u32)
        requires
            old(self).wf(),
        ensures
            final(self).wf(),
            final(self).mode() == old(self).mode(),
            final(self)@ == (AtlasState {
                border_offsets: old(self)@.border_offsets.insert(key, offset),
                ..old(self)@
            }),
    {
        self.border_offsets.insert(key, offset);
    }
}

/// What looking up a glyph makes of the cache: a glyph that is there is used
/// in this frame, and counted once.
pub open spec fn glyph_marked(before: GlyphMap, after: GlyphMap, key: GlyphKey) -> bool {
    &&& after.epoch() == before.epoch()
    &&& after@ == if before@.contains_key(key) {
        before@.insert(key, used_in(before@[key], before.epoch()))
    } else {
        before@
    }
    &&& after.used() == before.used() + if before@.contains_key(key)
        && before@[key].last_used_epoch != before.epoch() {
        1int
    } else {
        0
    }
}

/// What the device has, followed by what is flushed to it, is the whole
/// buffer.
pub proof fn lemma_flush_completes(atlas: AtlasState)
    requires
        atlas.data.len() % 2 == 0,
        atlas.flushed <= atlas.cursor(),
    ensures
        atlas.data.map_values(|w: i32| unsigned(w)).take(2 * atlas.flushed) + pending_words(atlas)
            == atlas.data.map_values(|w: i32| unsigned(w)),
{
    assert(atlas.data.map_values(|w: i32| unsigned(w)).take(2 * atlas.flushed) + pending_words(
        atlas,
    ) =~= atlas.data.map_values(|w: i32| unsigned(w)));
}

} // verus!
