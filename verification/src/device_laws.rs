//! What the graphics device finds where it looks: vertices, uniforms and texels
//! field by field, in buffers that are large enough.

use crate::border_upload::{uniform_words, uniforms_planned, uniforms_written, UniformPlan};
use crate::bytes::in_memory;
use crate::instance::{instance_words, lemma_stream_words, stream_words, GlyphInstance};
use crate::number_laws::{big_word, lemma_words_read_back, little_word};
use crate::outline::QuadCurve;
use crate::text_atlas::BufferUpload;
use crate::text_renderer::BorderUniform;
use crate::texture::{
    all_band_texels, all_curve_texels, bands_for, entry_texels, glyph_curve_texels, glyphs_chained,
    lemma_curve_found, root_code, BandTexel, PreparedGlyph, TextureCursor,
};
use crate::upload::{
    border_write, copy_buffer_size, is_uniform_stride, lemma_uniform_stride_unique, power_above,
    raster_write, stream_bytes, uniform_recreate, vertex_write, BufferWrite,
};
use vstd::arithmetic::power2::{lemma2_to64, lemma_pow2_pos, lemma_pow2_unfold, pow2};
use vstd::prelude::*;

verus! {

/// The word at a byte, in the byte order of a machine.
pub open spec fn word_at(bytes: Seq<u8>, at: int, little: bool) -> int {
    if little {
        little_word(bytes, at)
    } else {
        big_word(bytes, at)
    }
}

/// Whether words are read from bytes in the byte order of a machine.
#[verifier::opaque]
pub open spec fn read_in_order(words: Seq<u32>, bytes: Seq<u8>, little: bool) -> bool {
    forall|i: int| 0 <= i < words.len() ==> word_at(bytes, 4 * i, little) == #[trigger] words[i]
}

/// What lies in memory is read back word by word, in one byte order or the other.
pub proof fn lemma_read_in_order(words: Seq<u32>, bytes: Seq<u8>) -> (little: bool)
    requires
        in_memory(words, bytes),
    ensures
        bytes.len() == 4 * words.len(),
        read_in_order(words, bytes, little),
{
    reveal(read_in_order);
    lemma_words_read_back(words, bytes);
    forall|i: int| 0 <= i < words.len() ==> little_word(bytes, 4 * i) == #[trigger] words[i]
}

/// A word is read back from its four bytes.
pub proof fn lemma_word_read(words: Seq<u32>, bytes: Seq<u8>, little: bool, i: int)
    requires
        read_in_order(words, bytes, little),
        0 <= i < words.len(),
    ensures
        word_at(bytes, 4 * i, little) == words[i],
{
    reveal(read_in_order);
}

/// Whether forty-eight bytes from `at` on are an instance: its rectangle, its
/// colour, where its glyph begins, its command texels, its depth and its size.
pub open spec fn vertex_at(bytes: Seq<u8>, at: int, i: GlyphInstance, little: bool) -> bool {
    &&& word_at(bytes, at, little) == i.screen_rect.x.bits
    &&& word_at(bytes, at + 4, little) == i.screen_rect.y.bits
    &&& word_at(bytes, at + 8, little) == i.screen_rect.width.bits
    &&& word_at(bytes, at + 12, little) == i.screen_rect.height.bits
    &&& word_at(bytes, at + 16, little) == i.color.r.bits
    &&& word_at(bytes, at + 20, little) == i.color.g.bits
    &&& word_at(bytes, at + 24, little) == i.color.b.bits
    &&& word_at(bytes, at + 28, little) == i.color.a.bits
    &&& word_at(bytes, at + 32, little) == i.glyph_offset
    &&& word_at(bytes, at + 36, little) == i.cmd_texel_count
    &&& word_at(bytes, at + 40, little) == i.depth.bits
    &&& word_at(bytes, at + 44, little) == i.ppem.bits
}

/// The words of instance `k` of a stream, field by field.
pub proof fn lemma_stream_layout(stream: Seq<GlyphInstance>, k: int)
    requires
        0 <= k < stream.len(),
    ensures
        ({
            let w = stream_words(stream);
            let i = stream[k];
            &&& w.len() == 12 * stream.len()
            &&& w[12 * k] == i.screen_rect.x.bits
            &&& w[12 * k + 1] == i.screen_rect.y.bits
            &&& w[12 * k + 2] == i.screen_rect.width.bits
            &&& w[12 * k + 3] == i.screen_rect.height.bits
            &&& w[12 * k + 4] == i.color.r.bits
            &&& w[12 * k + 5] == i.color.g.bits
            &&& w[12 * k + 6] == i.color.b.bits
            &&& w[12 * k + 7] == i.color.a.bits
            &&& w[12 * k + 8] == i.glyph_offset
            &&& w[12 * k + 9] == i.cmd_texel_count
            &&& w[12 * k + 10] == i.depth.bits
            &&& w[12 * k + 11] == i.ppem.bits
        }),
    decreases stream.len(),
{
    let front = stream.drop_last();
    lemma_stream_words(stream, stream);
    lemma_stream_words(front, front);
    let n = stream_words(front).len() as int;
    let last = instance_words(stream.last());
    assert(stream_words(stream) == stream_words(front) + last);
    if k < front.len() {
        lemma_stream_layout(front, k);
        assert(stream[k] == front[k]);
    } else {
        assert(n == 12 * k);
        assert(stream_words(stream)[12 * k] == last[0]);
        assert(stream_words(stream)[12 * k + 1] == last[1]);
        assert(stream_words(stream)[12 * k + 2] == last[2]);
        assert(stream_words(stream)[12 * k + 3] == last[3]);
        assert(stream_words(stream)[12 * k + 4] == last[4]);
        assert(stream_words(stream)[12 * k + 5] == last[5]);
        assert(stream_words(stream)[12 * k + 6] == last[6]);
        assert(stream_words(stream)[12 * k + 7] == last[7]);
        assert(stream_words(stream)[12 * k + 8] == last[8]);
        assert(stream_words(stream)[12 * k + 9] == last[9]);
        assert(stream_words(stream)[12 * k + 10] == last[10]);
        assert(stream_words(stream)[12 * k + 11] == last[11]);
    }
}

/// Whether the bytes of a stream hold every instance in its place.
pub open spec fn vertices_at(bytes: Seq<u8>, stream: Seq<GlyphInstance>, little: bool) -> bool {
    forall|k: int| 0 <= k < stream.len() ==> vertex_at(bytes, 48 * k, #[trigger] stream[k], little)
}

/// In the bytes of a vertex stream every instance takes forty-eight bytes, one
/// behind the other, and every field of it is found at its own place.
pub proof fn lemma_vertex_bytes(stream: Seq<GlyphInstance>, bytes: Seq<u8>)
    requires
        in_memory(stream_words(stream), bytes),
    ensures
        bytes.len() == 48 * stream.len(),
        vertices_at(bytes, stream, true) || vertices_at(bytes, stream, false),
{
    let w = stream_words(stream);
    lemma_stream_words(stream, stream);
    let little = lemma_read_in_order(w, bytes);
    assert forall|k: int| 0 <= k < stream.len() implies vertex_at(
        bytes,
        48 * k,
        #[trigger] stream[k],
        little,
    ) by {
        lemma_vertex_read(stream, bytes, little, k);
    }
}

proof fn lemma_vertex_read(stream: Seq<GlyphInstance>, bytes: Seq<u8>, little: bool, k: int)
    requires
        read_in_order(stream_words(stream), bytes, little),
        0 <= k < stream.len(),
    ensures
        vertex_at(bytes, 48 * k, stream[k], little),
{
    let w = stream_words(stream);
    lemma_stream_layout(stream, k);
    lemma_word_read(w, bytes, little, 12 * k);
    lemma_word_read(w, bytes, little, 12 * k + 1);
    lemma_word_read(w, bytes, little, 12 * k + 2);
    lemma_word_read(w, bytes, little, 12 * k + 3);
    lemma_word_read(w, bytes, little, 12 * k + 4);
    lemma_word_read(w, bytes, little, 12 * k + 5);
    lemma_word_read(w, bytes, little, 12 * k + 6);
    lemma_word_read(w, bytes, little, 12 * k + 7);
    lemma_word_read(w, bytes, little, 12 * k + 8);
    lemma_word_read(w, bytes, little, 12 * k + 9);
    lemma_word_read(w, bytes, little, 12 * k + 10);
    lemma_word_read(w, bytes, little, 12 * k + 11);
}

/// Whether bytes are border uniforms: the colour, the width, and nothing behind
/// it.
pub open spec fn uniforms_at(bytes: Seq<u8>, u: BorderUniform, little: bool) -> bool {
    &&& word_at(bytes, 0, little) == u.color.r.bits
    &&& word_at(bytes, 4, little) == u.color.g.bits
    &&& word_at(bytes, 8, little) == u.color.b.bits
    &&& word_at(bytes, 12, little) == u.color.a.bits
    &&& word_at(bytes, 16, little) == u.width.bits
    &&& word_at(bytes, 20, little) == 0
    &&& word_at(bytes, 24, little) == 0
    &&& word_at(bytes, 28, little) == 0
}

/// In the bytes of border uniforms every field is found at its own place.
pub proof fn lemma_uniform_bytes(u: BorderUniform, bytes: Seq<u8>)
    requires
        in_memory(uniform_words(u), bytes),
    ensures
        bytes.len() == 32,
        uniforms_at(bytes, u, true) || uniforms_at(bytes, u, false),
{
    let w = uniform_words(u);
    let little = lemma_read_in_order(w, bytes);
    lemma_word_read(w, bytes, little, 0);
    lemma_word_read(w, bytes, little, 1);
    lemma_word_read(w, bytes, little, 2);
    lemma_word_read(w, bytes, little, 3);
    lemma_word_read(w, bytes, little, 4);
    lemma_word_read(w, bytes, little, 5);
    lemma_word_read(w, bytes, little, 6);
    lemma_word_read(w, bytes, little, 7);
    assert(uniforms_at(bytes, u, little));
}

/// Whether a size is a power of two.
pub open spec fn power_of_two(size: int) -> bool {
    exists|k: nat| size == #[trigger] pow2(k)
}

/// Whether a size is the least power of two that holds `bytes`, or the least
/// size that a buffer has.
pub open spec fn least_power(size: int, bytes: int, least: int) -> bool {
    &&& power_of_two(size)
    &&& size >= bytes
    &&& size >= least
    &&& size == least || size < 2 * bytes
}

proof fn lemma_power(from: int, n: int)
    requires
        power_of_two(from),
    ensures
        power_of_two(power_above(from, n)),
        power_above(from, n) >= n,
        power_above(from, n) >= from,
        power_above(from, n) == from || power_above(from, n) < 2 * n,
    decreases
            if from >= n {
                0
            } else {
                n - from
            },
{
    let k = choose|k: nat| from == #[trigger] pow2(k);
    lemma_pow2_pos(k);
    if from < n {
        lemma_pow2_unfold(k + 1);
        assert(2 * from == pow2(k + 1));
        lemma_power(2 * from, n);
    }
}

/// A new buffer is the least power of two that holds what is written to it, and
/// never under four bytes.
pub proof fn lemma_new_buffer_size(size: int)
    requires
        0 <= size,
    ensures
        least_power(copy_buffer_size(size), size, 4),
{
    lemma2_to64();
    assert(1 == pow2(0));
    lemma_power(1, size);
    assert(4 == pow2(2));
}

/// The vertex buffer is left alone where there is nothing to write, written
/// where it is large enough, and otherwise made anew just large enough; an
/// instance takes forty-eight bytes.
pub proof fn lemma_vertex_buffer(size: u64, count: u32)
    ensures
        match vertex_write(size, count as int) {
            BufferWrite::Keep => count == 0,
            BufferWrite::Write => count > 0 && size >= 48 * count,
            BufferWrite::Recreate { size: new_size } => count > 0 && size < 48 * count
                && least_power(new_size as int, 48 * count, 4),
        },
{
    lemma_new_buffer_size(48 * count);
    lemma_fits_u64(48 * count);
}

proof fn lemma_fits_u64(size: int)
    requires
        0 <= size <= 48 * u32::MAX,
    ensures
        copy_buffer_size(size) <= u64::MAX,
{
    lemma_new_buffer_size(size);
}

/// The border vertex buffer is made anew where it is too small, and otherwise
/// written exactly where the stream is to be uploaded.
pub proof fn lemma_border_buffer(size: u64, count: u32, upload: bool)
    ensures
        match border_write(size, count as int, upload) {
            BufferWrite::Keep => count == 0 || (size >= 48 * count && !upload),
            BufferWrite::Write => count > 0 && size >= 48 * count && upload,
            BufferWrite::Recreate { size: new_size } => count > 0 && size < 48 * count
                && least_power(new_size as int, 48 * count, 4),
        },
{
    lemma_new_buffer_size(48 * count);
    lemma_fits_u64(48 * count);
}

/// The raster vertex buffer is left alone where there is nothing to write,
/// written where it is large enough, and otherwise made anew just large enough,
/// never under 4096 bytes.
pub proof fn lemma_raster_buffer(size: u64, bytes: u64)
    requires
        bytes <= 0x8000_0000_0000_0000,
    ensures
        match raster_write(size, bytes) {
            BufferWrite::Keep => bytes == 0,
            BufferWrite::Write => bytes > 0 && size >= bytes,
            BufferWrite::Recreate { size: new_size } => bytes > 0 && size < bytes && least_power(
                new_size as int,
                bytes as int,
                4096,
            ),
        },
{
    lemma2_to64();
    assert(1 == pow2(0));
    lemma_power(1, bytes as int);
    assert(4096 == pow2(12));
}

/// The uniforms of two areas lie as close together as the device and their size
/// of thirty-two bytes allow.
pub proof fn lemma_uniforms_lie_close(stride: int, alignment: u32, other: int)
    requires
        is_uniform_stride(stride, alignment),
    ensures
        stride >= 32,
        alignment > 0 ==> stride % alignment as int == 0,
        other >= 32 && (alignment == 0 || other % alignment as int == 0) ==> stride <= other,
{
    let unit = if alignment == 0 {
        1
    } else {
        alignment as int
    };
    if 32 <= other < stride && (alignment == 0 || other % alignment as int == 0) {
        assert(other % unit == 0);
        lemma_uniform_stride_unique(stride, other, alignment);
    }
}

/// A uniform buffer is kept where it is large enough. A new one is as large as
/// it has to be, and never under thirty-two bytes.
pub proof fn lemma_uniform_buffer(size: Option<u64>, required: u64)
    ensures
        match uniform_recreate(size, required) {
            None => size is Some && size->0 >= required,
            Some(new_size) => {
                &&& size is None || size->0 < required
                &&& new_size >= required && new_size >= 32
                &&& new_size == required || new_size == 32
            },
        },
{
}

/// A curve is found in the curve texture two texels per curve behind the place
/// of its glyph: its first point and its second, then its third.
pub proof fn lemma_texture_holds_curve(glyphs: Seq<PreparedGlyph>, n: nat, g: int, i: int)
    requires
        0 <= g < n <= glyphs.len(),
        0 <= i < glyphs[g].curves@.len(),
        glyphs_chained(glyphs, n),
    ensures
        ({
            let texels = all_curve_texels(glyphs, n);
            let at = glyphs[g].curve_offset + 2 * i;
            let c = glyphs[g].curves@[i];
            &&& at + 1 < texels.len()
            &&& texels[at].x == c.p1.x
            &&& texels[at].y == c.p1.y
            &&& texels[at].z == c.p2.x
            &&& texels[at].w == c.p2.y
            &&& texels[at + 1].x == c.p3.x
            &&& texels[at + 1].y == c.p3.y
        }),
{
    lemma_curve_found(glyphs, n, g, i);
}

/// The number in component `k` of a texel.
pub open spec fn component(t: BandTexel, k: int) -> u32 {
    if k == 0 {
        t.x
    } else if k == 1 {
        t.y
    } else if k == 2 {
        t.z
    } else {
        t.w
    }
}

proof fn lemma_row(entries: Seq<u32>, i: int)
    ensures
        entry_texels(entries).len() == (entries.len() + 3) / 4,
        0 <= i < entries.len() ==> i / 4 < entry_texels(entries).len() && component(
            entry_texels(entries)[i / 4],
            i % 4,
        ) == entries[i],
        entries.len() <= i < 4 * entry_texels(entries).len() ==> component(
            entry_texels(entries)[i / 4],
            i % 4,
        ) == 0,
{
    if 0 <= i < 4 * entry_texels(entries).len() {
        assert(4 * (i / 4) + i % 4 == i);
    }
}

proof fn lemma_bands_prefix(glyphs: Seq<PreparedGlyph>, m: nat, n: nat)
    requires
        m <= n,
    ensures
        all_band_texels(glyphs, m).len() <= all_band_texels(glyphs, n).len(),
        forall|k: int|
            0 <= k < all_band_texels(glyphs, m).len() ==> #[trigger] all_band_texels(
                glyphs,
                n,
            )[k] == all_band_texels(glyphs, m)[k],
    decreases n,
{
    if m < n {
        lemma_bands_prefix(glyphs, m, (n - 1) as nat);
    }
}

/// A number of the bands of a glyph is found in the band texture four to a texel
/// behind the place of its glyph. What fills up the last texel is zero.
pub proof fn lemma_texture_holds_bands(glyphs: Seq<PreparedGlyph>, n: nat, g: int, i: int)
    requires
        0 <= g < n <= glyphs.len(),
        0 <= i < 4 * ((glyphs[g].entries@.len() + 3) / 4),
        glyphs_chained(glyphs, n),
    ensures
        ({
            let texels = all_band_texels(glyphs, n);
            let at = glyphs[g].band_offset + i / 4;
            let entries = glyphs[g].entries@;
            &&& at < texels.len()
            &&& component(texels[at], i % 4) == if i < entries.len() {
                entries[i]
            } else {
                0
            }
        }),
{
    let entries = glyphs[g].entries@;
    let before = all_band_texels(glyphs, g as nat);
    let upto = all_band_texels(glyphs, (g + 1) as nat);
    lemma_row(entries, i);
    lemma_bands_prefix(glyphs, (g + 1) as nat, n);
    assert(upto == before + entry_texels(entries));
    assert(i / 4 < entry_texels(entries).len());
    assert(upto[before.len() + i / 4] == entry_texels(entries)[i / 4]);
}

/// Both textures hold nothing but their glyphs: two texels for each curve, and
/// one for each four numbers.
pub proof fn lemma_texture_sizes(glyphs: Seq<PreparedGlyph>, n: nat)
    requires
        n < glyphs.len(),
    ensures
        all_curve_texels(glyphs, 0).len() == 0,
        all_band_texels(glyphs, 0).len() == 0,
        all_curve_texels(glyphs, n + 1).len() == all_curve_texels(glyphs, n).len() + 2
            * glyphs[n as int].curves@.len(),
        all_band_texels(glyphs, n + 1).len() == all_band_texels(glyphs, n).len() + (
        glyphs[n as int].entries@.len() + 3) / 4,
{
    lemma_curves_size(glyphs[n as int].curves@, glyphs[n as int].curves@.len());
}

proof fn lemma_curves_size(curves: Seq<QuadCurve>, n: nat)
    ensures
        glyph_curve_texels(curves, n).len() == 2 * n,
    decreases n,
{
    if n > 0 {
        lemma_curves_size(curves, (n - 1) as nat);
    }
}

/// A glyph takes two texels of the curve texture for each curve, and one of the
/// band texture for each four numbers.
pub proof fn lemma_cursor_moves_on(cursor: TextureCursor, curves: nat, entries: nat)
    requires
        cursor.curve_offset + 2 * curves <= u32::MAX,
        cursor.band_offset + entries / 4 <= u32::MAX,
    ensures
        cursor.fits(curves as int, entries as int),
        cursor.behind(curves as int, entries as int).curve_offset == cursor.curve_offset + 2
            * curves,
        cursor.behind(curves as int, entries as int).band_offset == cursor.band_offset + entries
            / 4,
{
}

/// Shapes made of lines have one band. Others have four, eight from ten curves
/// on, and twelve from thirty curves on.
pub proof fn lemma_band_counts(curves: int, more: int)
    requires
        0 <= curves <= more,
    ensures
        bands_for(true, curves) == 1,
        bands_for(false, curves) <= bands_for(false, more),
        bands_for(false, curves) == 4 <==> curves <= 9,
        bands_for(false, curves) == 12 <==> curves >= 30,
        bands_for(false, curves) == 4 || bands_for(false, curves) == 8 || bands_for(false, curves)
            == 12,
{
}

/// Which roots of a quadratic count. Where it begins and ends on one side, none
/// counts, unless its control point lies on the other side: then both do. Where
/// it changes sides one counts: the second if it begins below, the first if it
/// begins above.
pub proof fn lemma_roots_that_count(begins: bool, middle: bool, ends: bool)
    ensures
        begins == ends && middle == begins ==> root_code(begins, middle, ends) == 0,
        begins == ends && middle != begins ==> root_code(begins, middle, ends) == 0x101,
        begins && !ends ==> root_code(begins, middle, ends) == 0x100,
        !begins && ends ==> root_code(begins, middle, ends) == 1,
{
}

/// The bytes of a stream are forty-eight for each instance.
pub proof fn lemma_bytes_of_stream(count: int)
    ensures
        stream_bytes(count) == 48 * count,
{
}

/// The uniforms of each area are written a whole number of strides from the
/// beginning of the buffer, as many as the areas before it, and hold the colour and
/// the width of its border.
pub proof fn lemma_uniforms_are_written(
    writes: Seq<BufferUpload>,
    uniforms: Seq<BorderUniform>,
    plan: UniformPlan,
    n: int,
    k: int,
)
    requires
        uniforms_written(writes, uniforms, plan, n),
        0 <= k < n,
    ensures
        writes.len() == n,
        writes[k].byte_offset == k * plan.stride,
        writes[k].bytes@.len() == 32,
        uniforms_at(writes[k].bytes@, uniforms[k], true) || uniforms_at(
            writes[k].bytes@,
            uniforms[k],
            false,
        ),
{
    lemma_uniform_bytes(uniforms[k], writes[k].bytes@);
}

/// The plan for the uniforms of some areas has room for all of them.
pub proof fn lemma_uniforms_are_planned(
    plan: UniformPlan,
    size: Option<u64>,
    count: int,
    alignment: u32,
)
    requires
        uniforms_planned(plan, size, count, alignment),
    ensures
        plan.required == plan.stride * count,
        plan.stride >= 32,
        alignment > 0 ==> plan.stride % alignment as u64 == 0,
        plan.recreate is None ==> size is Some && size->0 >= plan.required,
        plan.recreate is Some ==> plan.recreate->0 >= plan.required && plan.recreate->0 >= 32,
{
}

} // verus!
