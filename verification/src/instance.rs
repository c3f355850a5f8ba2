//! Per-glyph data of the vertex stream.

use crate::bytes::{in_memory, word_bytes};
use crate::outline::Rgba;
use crate::scalar::Scalar;
use vstd::prelude::*;

verus! {

/// A rectangle on the screen.
#[derive(Clone, Copy, Debug, PartialEq, Eq, Structural)]
pub struct Rect {
    pub x: Scalar,
    pub y: Scalar,
    pub width: Scalar,
    pub height: Scalar,
}

/// Per-instance vertex data of a glyph.
#[derive(Clone, Copy, Debug, PartialEq, Eq, Structural)]
pub struct GlyphInstance {
    pub screen_rect: Rect,
    pub color: Rgba,
    /// Texel of the atlas at which the glyph begins.
    pub glyph_offset: u32,
    /// Texels of commands in front of the glyph; 0 for plain outlines.
    pub cmd_texel_count: u32,
    pub depth: Scalar,
    pub ppem: Scalar,
}

/// Words of an instance in the vertex stream.
pub const INSTANCE_WORDS: usize = 12;

/// Bytes of an instance in the vertex stream.
pub const INSTANCE_BYTES: u64 = 48;

/// The words of an instance, in the order of the vertex stream.
pub open spec fn instance_words(i: GlyphInstance) -> Seq<u32> {
    seq![
        i.screen_rect.x.bits,
        i.screen_rect.y.bits,
        i.screen_rect.width.bits,
        i.screen_rect.height.bits,
        i.color.r.bits,
        i.color.g.bits,
        i.color.b.bits,
        i.color.a.bits,
        i.glyph_offset,
        i.cmd_texel_count,
        i.depth.bits,
        i.ppem.bits,
    ]
}

/// The words of a vertex stream.
pub open spec fn stream_words(stream: Seq<GlyphInstance>) -> Seq<u32>
    decreases stream.len(),
{
    if stream.len() == 0 {
        Seq::empty()
    } else {
        stream_words(stream.drop_last()) + instance_words(stream.last())
    }
}

/// The bytes of a vertex stream as the graphics device reads them.
pub fn instance_bytes(stream: &Vec<GlyphInstance>) -> (r: Vec<u8>)
    ensures
        in_memory(stream_words(stream@), r@),
        r@.len() == INSTANCE_BYTES * stream@.len(),
{
    let mut words: Vec<u32> = Vec::new();
    let mut i: usize = 0;
    while i < stream.len()
        invariant
            i <= stream.len(),
            words@ == stream_words(stream@.take(i as int)),
            words@.len() == INSTANCE_WORDS * i,
        decreases stream.len() - i,
    {
        let ghost before = words@;
        let instance = stream[i];
        words.push(instance.screen_rect.x.bits);
        words.push(instance.screen_rect.y.bits);
        words.push(instance.screen_rect.width.bits);
        words.push(instance.screen_rect.height.bits);
        words.push(instance.color.r.bits);
        words.push(instance.color.g.bits);
        words.push(instance.color.b.bits);
        words.push(instance.color.a.bits);
        words.push(instance.glyph_offset);
        words.push(instance.cmd_texel_count);
        words.push(instance.depth.bits);
        words.push(instance.ppem.bits);
        i = i + 1;
        proof {
            let longer = stream@.take(i as int);
            assert(longer.drop_last() =~= stream@.take(i - 1));
            assert(words@ =~= before + instance_words(instance));
        }
    }
    assert(stream@.take(stream@.len() as int) =~= stream@);
    word_bytes(&words)
}

/// Whether two vertex streams are the same, byte for byte.
pub fn instance_stream_unchanged(
    current: &Vec<GlyphInstance>,
    previous: &Vec<GlyphInstance>,
) -> (r: bool)
    ensures
        r == (current@ == previous@),
{
    if current.len() != previous.len() {
        return false;
    }
    let mut i: usize = 0;
    while i < current.len()
        invariant
            i <= current.len(),
            current.len() == previous.len(),
            forall|k: int| 0 <= k < i ==> #[trigger] current@[k] == previous@[k],
        decreases current.len() - i,
    {
        if current[i] != previous[i] {
            assert(current@[i as int] != previous@[i as int]);
            return false;
        }
        i = i + 1;
    }
    assert(current@ =~= previous@);
    true
}

/// Instances are equal exactly when their words are.
pub proof fn lemma_instance_words(a: GlyphInstance, b: GlyphInstance)
    ensures
        a == b <==> instance_words(a) == instance_words(b),
{
    let v = instance_words(a);
    let w = instance_words(b);
    if v == w {
        assert(v[0] == w[0] && v[1] == w[1] && v[2] == w[2] && v[3] == w[3]);
        assert(v[4] == w[4] && v[5] == w[5] && v[6] == w[6] && v[7] == w[7]);
        assert(v[8] == w[8] && v[9] == w[9] && v[10] == w[10] && v[11] == w[11]);
    }
}

/// Vertex streams are equal exactly when their words are: comparing streams
/// is comparing what the device reads.
pub proof fn lemma_stream_words(a: Seq<GlyphInstance>, b: Seq<GlyphInstance>)
    ensures
        stream_words(a).len() == INSTANCE_WORDS * a.len(),
        a == b <==> stream_words(a) == stream_words(b),
    decreases a.len() + b.len(),
{
    if a.len() > 0 {
        lemma_stream_words(a.drop_last(), Seq::empty());
    }
    if b.len() > 0 {
        lemma_stream_words(b.drop_last(), Seq::empty());
    }
    if stream_words(a) == stream_words(b) {
        assert(stream_words(a).len() == INSTANCE_WORDS * a.len());
        assert(stream_words(b).len() == INSTANCE_WORDS * b.len());
        assert(a.len() == b.len());
        if a.len() > 0 {
            let n = stream_words(a.drop_last()).len() as int;
            assert(stream_words(a).take(n) =~= stream_words(a.drop_last()));
            assert(stream_words(b).take(n) =~= stream_words(b.drop_last()));
            assert(stream_words(a).skip(n) =~= instance_words(a.last()));
            assert(stream_words(b).skip(n) =~= instance_words(b.last()));
            lemma_stream_words(a.drop_last(), b.drop_last());
            lemma_instance_words(a.last(), b.last());
            assert(a =~= a.drop_last().push(a.last()));
            assert(b =~= b.drop_last().push(b.last()));
        } else {
            assert(a =~= b);
        }
    }
}

} // verus!
