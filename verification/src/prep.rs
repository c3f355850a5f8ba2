//! Glyph blobs: an outline packed for upload, apart from where it will lie.
//!
//! A blob is a row of texels, each four sixteen-bit numbers in two words:
//! first the bands, then the curves that the bands refer to.

use crate::band::{
    band_entries, band_texels, bands_buildable, build_leading_bands, decoded,
    lemma_band_entries_length, lemma_band_texels, moved, outline_bands, BandGeometry,
    BandTransform, CurveLocation,
};
use crate::band_reading::lemma_read_any_band;
use crate::outline::{bounds_numeric, curve_within, Bounds, GlyphOutline, Point, QuadCurve};
use crate::scalar::{
    lemma_equal_quantized, lemma_quantized_fits, quantized, Scalar, QUANTIZED_LIMIT,
};
pub use crate::words::pack_i16_pair;
use crate::words::{
    lemma_unpack_packed, low_i16_signed, packed, unpacked_high, unpacked_low, wrapped,
};
use vstd::prelude::*;

verus! {

/// Buffers reused from one `prepare_mono` call to the next.
#[derive(Debug)]
pub struct PrepScratch {
    curve_locations: Vec<CurveLocation>,
    band_entries: Vec<i16>,
}

impl PrepScratch {
    /// The locations left by the last glyph, within its curve region.
    pub closed spec fn locations(self) -> Seq<CurveLocation> {
        self.curve_locations@
    }

    /// The band entries left by the last glyph.
    pub closed spec fn entries(self) -> Seq<i16> {
        self.band_entries@
    }
}

impl Default for PrepScratch {
    fn default() -> (r: PrepScratch)
        ensures
            r.locations() == Seq::<CurveLocation>::empty(),
            r.entries() == Seq::<i16>::empty(),
    {
        PrepScratch { curve_locations: Vec::new(), band_entries: Vec::new() }
    }
}

/// A packed glyph blob that has no place in the atlas yet.
#[derive(Debug)]
pub struct PreparedMono {
    pub bounds: Bounds,
    pub units_per_em: Scalar,
    /// Two words per texel: the bands, then the curves.
    pub blob_data: Vec<i32>,
    /// Number of texels.
    pub blob_size: u32,
    pub band_count_x: u32,
    pub band_count_y: u32,
    pub band_transform: BandTransform,
}

/// Four numbers of the curve region before packing.
#[derive(Clone, Copy, Debug, PartialEq, Eq, Structural)]
pub struct CurveTexel {
    pub x: i32,
    pub y: i32,
    pub z: i32,
    pub w: i32,
}

/// Whether every bound lies within the range that quantizes to sixteen bits.
pub open spec fn quantizable(bounds: Bounds) -> bool {
    &&& !beyond(bounds.min_x)
    &&& !beyond(bounds.min_y)
    &&& !beyond(bounds.max_x)
    &&& !beyond(bounds.max_y)
}

/// Whether a coordinate is too large to quantize to sixteen bits.
pub open spec fn beyond(v: Scalar) -> bool {
    !v.nan() && v.magnitude() > QUANTIZED_LIMIT
}

pub fn is_quantizable(bounds: &Bounds) -> (r: bool)
    ensures
        r == quantizable(*bounds),
{
    !bounds.min_x.exceeds_quantized_range() && !bounds.min_y.exceeds_quantized_range()
        && !bounds.max_x.exceeds_quantized_range() && !bounds.max_y.exceeds_quantized_range()
}

/// Whether the points of a curve lie within the range that quantizes to
/// sixteen bits.
pub open spec fn curve_quantizable(curve: QuadCurve) -> bool {
    &&& !beyond(curve.p1.x) && !beyond(curve.p1.y)
    &&& !beyond(curve.p2.x) && !beyond(curve.p2.y)
    &&& !beyond(curve.p3.x) && !beyond(curve.p3.y)
}

/// Whether every coordinate of an outline, of its bounds and of its curves,
/// lies within the range that quantizes to sixteen bits.
pub open spec fn outline_quantizable(outline: GlyphOutline) -> bool {
    &&& quantizable(outline.bounds)
    &&& forall|i: int|
        0 <= i < outline.curves.len() ==> curve_quantizable(#[trigger] outline.curves@[i])
}

fn is_curve_quantizable(curve: &QuadCurve) -> (r: bool)
    ensures
        r == curve_quantizable(*curve),
{
    !curve.p1.x.exceeds_quantized_range() && !curve.p1.y.exceeds_quantized_range()
        && !curve.p2.x.exceeds_quantized_range() && !curve.p2.y.exceeds_quantized_range()
        && !curve.p3.x.exceeds_quantized_range() && !curve.p3.y.exceeds_quantized_range()
}

pub fn is_outline_quantizable(outline: &GlyphOutline) -> (r: bool)
    ensures
        r == outline_quantizable(*outline),
{
    if !is_quantizable(&outline.bounds) {
        return false;
    }
    let mut i: usize = 0;
    while i < outline.curves.len()
        invariant
            i <= outline.curves.len(),
            forall|k: int| 0 <= k < i ==> curve_quantizable(#[trigger] outline.curves@[k]),
        decreases outline.curves.len() - i,
    {
        if !is_curve_quantizable(&outline.curves[i]) {
            assert(!curve_quantizable(outline.curves@[i as int]));
            return false;
        }
        i = i + 1;
    }
    true
}

/// Whether curve `i` starts where the curve before it ends.
pub open spec fn continues(curves: Seq<QuadCurve>, i: int) -> bool {
    i > 0 && curves[i].p1.equal(curves[i - 1].p3)
}

/// The curve region of the first `n` curves. A curve takes the texel of its
/// first two points and the texel of its third. A curve that continues the
/// one before it shares that curve's last texel.
pub open spec fn curve_texels(curves: Seq<QuadCurve>, n: nat) -> Seq<CurveTexel>
    decreases n,
{
    if n == 0 {
        Seq::empty()
    } else {
        let before = curve_texels(curves, (n - 1) as nat);
        let curve = curves[n - 1];
        let opened = if continues(curves, n - 1) {
            before.update(
                before.len() - 1,
                CurveTexel {
                    z: quantized(curve.p2.x) as i32,
                    w: quantized(curve.p2.y) as i32,
                    ..before.last()
                },
            )
        } else {
            before.push(
                CurveTexel {
                    x: quantized(curve.p1.x) as i32,
                    y: quantized(curve.p1.y) as i32,
                    z: quantized(curve.p2.x) as i32,
                    w: quantized(curve.p2.y) as i32,
                },
            )
        };
        opened.push(
            CurveTexel {
                x: quantized(curve.p3.x) as i32,
                y: quantized(curve.p3.y) as i32,
                z: 0,
                w: 0,
            },
        )
    }
}

/// Where curve `i` begins in the curve region.
pub open spec fn curve_start(curves: Seq<QuadCurve>, i: int) -> int {
    curve_texels(curves, (i + 1) as nat).len() - 2
}

/// Where every curve begins in the curve region.
pub open spec fn curve_starts(curves: Seq<QuadCurve>) -> Seq<CurveLocation> {
    Seq::new(
        curves.len(),
        |i: int| CurveLocation { offset: curve_start(curves, i) as u32 },
    )
}

/// Sixteen-bit numbers packed in pairs.
pub open spec fn packed_entries(entries: Seq<i16>) -> Seq<i32> {
    Seq::new(entries.len() / 2, |i: int| packed(entries[2 * i], entries[2 * i + 1]))
}

/// Curve texels packed into two words each.
pub open spec fn packed_texels(texels: Seq<CurveTexel>) -> Seq<i32> {
    Seq::new(
        2 * texels.len(),
        |i: int|
            if i % 2 == 0 {
                packed(wrapped(texels[i / 2].x as int), wrapped(texels[i / 2].y as int))
            } else {
                packed(wrapped(texels[i / 2].z as int), wrapped(texels[i / 2].w as int))
            },
    )
}

/// The number of texels of a glyph blob.
pub open spec fn mono_texels(
    outline: GlyphOutline,
    geometry: BandGeometry,
    band_count_x: u32,
    band_count_y: u32,
) -> int {
    band_texels(outline, geometry, band_count_x, band_count_y) + curve_texels(
        outline.curves@,
        outline.curves@.len(),
    ).len()
}

/// The words of a glyph blob.
pub open spec fn mono_blob(
    outline: GlyphOutline,
    geometry: BandGeometry,
    band_count_x: u32,
    band_count_y: u32,
) -> Seq<i32> {
    let curves = outline.curves@;
    let base = band_texels(outline, geometry, band_count_x, band_count_y);
    packed_entries(
        band_entries(
            outline_bands(outline, geometry, band_count_x, band_count_y),
            moved(curve_starts(curves), base),
        ),
    ) + packed_texels(curve_texels(curves, curves.len()))
}

proof fn lemma_texels_length(curves: Seq<QuadCurve>, n: nat)
    ensures
        n > 0 ==> curve_texels(curves, n).len() >= n + 1,
        curve_texels(curves, n).len() <= 2 * n,
    decreases n,
{
    if n > 0 {
        lemma_texels_length(curves, (n - 1) as nat);
    }
}

proof fn lemma_texels_rise(curves: Seq<QuadCurve>, m: nat, n: nat)
    requires
        m <= n,
    ensures
        curve_texels(curves, m).len() <= curve_texels(curves, n).len(),
    decreases n,
{
    if m < n {
        lemma_texels_rise(curves, m, (n - 1) as nat);
        lemma_texels_length(curves, (n - 1) as nat);
    }
}

fn quantize_point(p: &Point) -> (r: (i32, i32))
    ensures
        r.0 == quantized(p.x),
        r.1 == quantized(p.y),
{
    (p.x.quantize(), p.y.quantize())
}

/// Fills the curve region and notes where each curve begins in it.
fn build_curve_texels(curves: &Vec<QuadCurve>, locations: &mut Vec<CurveLocation>) -> (texels: Vec<
    CurveTexel,
>)
    requires
        curve_texels(curves@, curves@.len()).len() <= u32::MAX,
    ensures
        texels@ == curve_texels(curves@, curves@.len()),
        final(locations)@ == curve_starts(curves@),
        forall|i: int|
            0 <= i < curves.len() ==> {
                &&& final(locations)@[i].offset <= texels.len()
                &&& (#[trigger] final(locations)@[i]).offset == curve_start(curves@, i)
            },
{
    locations.clear();
    let mut texels: Vec<CurveTexel> = Vec::new();
    let mut i: usize = 0;
    while i < curves.len()
        invariant
            i <= curves.len(),
            curve_texels(curves@, curves@.len()).len() <= u32::MAX,
            texels@ == curve_texels(curves@, i as nat),
            locations.len() == i,
            forall|k: int|
                0 <= k < i ==> {
                    &&& locations@[k].offset <= texels.len()
                    &&& (#[trigger] locations@[k]).offset == curve_start(curves@, k)
                },
        decreases curves.len() - i,
    {
        let curve = curves[i];
        proof {
            lemma_texels_length(curves@, i as nat);
            lemma_texels_rise(curves@, (i + 1) as nat, curves@.len());
            lemma_texels_rise(curves@, i as nat, (i + 1) as nat);
        }
        let second = quantize_point(&curve.p2);
        if i > 0 && curve.p1.same(&curves[i - 1].p3) {
            let last: usize = texels.len() - 1;
            let shared = texels[last];
            texels.set(last, CurveTexel { x: shared.x, y: shared.y, z: second.0, w: second.1 });
        } else {
            let first = quantize_point(&curve.p1);
            texels.push(CurveTexel { x: first.0, y: first.1, z: second.0, w: second.1 });
        }
        locations.push(CurveLocation { offset: (texels.len() - 1) as u32 });
        let third = quantize_point(&curve.p3);
        texels.push(CurveTexel { x: third.0, y: third.1, z: 0, w: 0 });
        assert(texels@ =~= curve_texels(curves@, (i + 1) as nat));
        assert(locations@[i as int].offset == curve_start(curves@, i as int));
        i = i + 1;
    }
    assert(locations@ =~= curve_starts(curves@));
    texels
}

fn push_entries(words: &mut Vec<i32>, entries: &Vec<i16>)
    requires
        entries.len() % 4 == 0,
    ensures
        final(words)@ == old(words)@ + packed_entries(entries@),
{
    let mut i: usize = 0;
    assert(words@ =~= old(words)@ + packed_entries(entries@).take(0));
    while i < entries.len()
        invariant
            i <= entries.len(),
            i % 2 == 0,
            entries.len() % 4 == 0,
            words@ == old(words)@ + packed_entries(entries@).take(i as int / 2),
        decreases entries.len() - i,
    {
        let ghost before = words@;
        words.push(pack_i16_pair(entries[i], entries[i + 1]));
        i = i + 2;
        proof {
            let all = packed_entries(entries@);
            assert(words@.last() == all[i as int / 2 - 1]);
            assert(all.take(i as int / 2) =~= all.take(i as int / 2 - 1).push(all[i as int / 2 - 1]));
            assert(words@ =~= old(words)@ + all.take(i as int / 2));
        }
    }
    let ghost all = packed_entries(entries@);
    assert(all.take(all.len() as int) =~= all);
}

fn push_texels(words: &mut Vec<i32>, texels: &Vec<CurveTexel>)
    ensures
        final(words)@ == old(words)@ + packed_texels(texels@),
{
    let mut i: usize = 0;
    assert(words@ =~= old(words)@ + packed_texels(texels@).take(0));
    while i < texels.len()
        invariant
            i <= texels.len(),
            words@ == old(words)@ + packed_texels(texels@).take(2 * i),
        decreases texels.len() - i,
    {
        let texel = texels[i];
        words.push(pack_i16_pair(low_i16_signed(texel.x), low_i16_signed(texel.y)));
        words.push(pack_i16_pair(low_i16_signed(texel.z), low_i16_signed(texel.w)));
        i = i + 1;
        proof {
            let all = packed_texels(texels@);
            assert(all.take(2 * i) =~= all.take(2 * i - 2).push(all[2 * i - 2]).push(
                all[2 * i - 1],
            ));
            assert(words@ =~= old(words)@ + all.take(2 * i));
        }
    }
    let ghost all = packed_texels(texels@);
    assert(all.take(all.len() as int) =~= all);
}

/// Builds the words of a glyph blob and counts its texels.
pub fn build_blob(
    outline: &GlyphOutline,
    band_count_x: u32,
    band_count_y: u32,
    geometry: &BandGeometry,
    scratch: &mut PrepScratch,
) -> (r: (Vec<i32>, u32))
    requires
        bands_buildable(*outline, *geometry, band_count_x, band_count_y),
        mono_texels(*outline, *geometry, band_count_x, band_count_y) <= i32::MAX,
    ensures
        r.0@ == mono_blob(*outline, *geometry, band_count_x, band_count_y),
        r.1 == mono_texels(*outline, *geometry, band_count_x, band_count_y),
        r.0@.len() == 2 * r.1,
        final(scratch).locations() == curve_starts(outline.curves@),
        final(scratch).entries() == Seq::<i16>::empty(),
{
    proof {
        lemma_band_texels(*outline, *geometry, band_count_x, band_count_y);
    }
    let texels = build_curve_texels(&outline.curves, &mut scratch.curve_locations);
    let mut spare: Vec<i16> = Vec::new();
    std::mem::swap(&mut spare, &mut scratch.band_entries);
    let bands = build_leading_bands(
        outline,
        &scratch.curve_locations,
        band_count_x,
        band_count_y,
        geometry,
        spare,
    );
    let blob_size: u32 = (bands.entries.len() / 4) as u32 + texels.len() as u32;
    let mut blob_data: Vec<i32> = Vec::new();
    push_entries(&mut blob_data, &bands.entries);
    push_texels(&mut blob_data, &texels);
    let mut reclaimed: Vec<i16> = bands.entries;
    reclaimed.clear();
    scratch.band_entries = reclaimed;
    assert(blob_data@ =~= mono_blob(*outline, *geometry, band_count_x, band_count_y));
    (blob_data, blob_size)
}

/// Packs a glyph outline into a blob. There is none for a glyph with a
/// coordinate, of its bounds or of a curve, that does not quantize to sixteen
/// bits.
pub fn prepare_mono(
    outline: &GlyphOutline,
    band_count_x: u32,
    band_count_y: u32,
    units_per_em: Scalar,
    geometry: &BandGeometry,
    scratch: &mut PrepScratch,
) -> (r: Option<PreparedMono>)
    requires
        bands_buildable(*outline, *geometry, band_count_x, band_count_y),
        mono_texels(*outline, *geometry, band_count_x, band_count_y) <= i32::MAX,
    ensures
        r is Some <==> quantizable(outline.bounds) && forall|i: int|
            0 <= i < outline.curves.len() ==> curve_quantizable(#[trigger] outline.curves@[i]),
        r matches Some(glyph) ==> {
            &&& glyph.bounds == outline.bounds
            &&& glyph.units_per_em == units_per_em
            &&& glyph.blob_data@ == mono_blob(*outline, *geometry, band_count_x, band_count_y)
            &&& glyph.blob_size == mono_texels(*outline, *geometry, band_count_x, band_count_y)
            &&& glyph.blob_data@.len() == 2 * glyph.blob_size
            &&& glyph.band_count_x == band_count_x
            &&& glyph.band_count_y == band_count_y
            &&& glyph.band_transform == geometry.transform
            &&& final(scratch).locations() == curve_starts(outline.curves@)
            &&& final(scratch).entries() == Seq::<i16>::empty()
        },
        r is None ==> *final(scratch) == *old(scratch),
{
    if !is_outline_quantizable(outline) {
        return None;
    }
    let (blob_data, blob_size): (Vec<i32>, u32) = build_blob(
        outline,
        band_count_x,
        band_count_y,
        geometry,
        scratch,
    );
    Some(
        PreparedMono {
            bounds: outline.bounds,
            units_per_em,
            blob_data,
            blob_size,
            band_count_x,
            band_count_y,
            band_transform: geometry.transform,
        },
    )
}

/// The points of curve `i`, read from texels `at` and `at + 1` of a region.
pub open spec fn texels_hold(texels: Seq<CurveTexel>, at: int, curve: QuadCurve) -> bool {
    &&& 0 <= at
    &&& at + 1 < texels.len()
    &&& texels[at].x == quantized(curve.p1.x)
    &&& texels[at].y == quantized(curve.p1.y)
    &&& texels[at].z == quantized(curve.p2.x)
    &&& texels[at].w == quantized(curve.p2.y)
    &&& texels[at + 1].x == quantized(curve.p3.x)
    &&& texels[at + 1].y == quantized(curve.p3.y)
}

/// Whoever reads the curve region where a curve begins finds the quantized
/// points of that curve, also where the curve shares a texel.
pub proof fn lemma_region_holds_curve(curves: Seq<QuadCurve>, n: nat, i: int)
    requires
        0 <= i < n,
    ensures
        texels_hold(curve_texels(curves, n), curve_start(curves, i), curves[i]),
    decreases n,
{
    let m = (n - 1) as nat;
    lemma_texels_length(curves, n);
    lemma_texels_length(curves, m);
    let before = curve_texels(curves, m);
    let all = curve_texels(curves, n);
    if i < n - 1 {
        lemma_region_holds_curve(curves, m, i);
        let at = curve_start(curves, i);
        assert(all[at].x == before[at].x && all[at].y == before[at].y);
        assert(all[at + 1].x == before[at + 1].x && all[at + 1].y == before[at + 1].y);
    } else if continues(curves, i) {
        lemma_region_holds_curve(curves, m, i - 1);
        lemma_equal_quantized(curves[i].p1.x, curves[i - 1].p3.x);
        lemma_equal_quantized(curves[i].p1.y, curves[i - 1].p3.y);
        assert(curve_start(curves, i - 1) + 1 == before.len() - 1);
        assert(curve_start(curves, i) == before.len() - 1);
    }
}

/// A point read from the low and high half of a blob word.
pub open spec fn word_holds(word: i32, point: Point) -> bool {
    &&& unpacked_low(word) == quantized(point.x)
    &&& unpacked_high(word) == quantized(point.y)
}

/// The points of a curve, read from texels `at` and `at + 1` of a blob.
pub open spec fn blob_holds(blob: Seq<i32>, at: int, curve: QuadCurve) -> bool {
    &&& 0 <= at
    &&& 2 * at + 2 < blob.len()
    &&& word_holds(blob[2 * at], curve.p1)
    &&& word_holds(blob[2 * at + 1], curve.p2)
    &&& word_holds(blob[2 * at + 2], curve.p3)
}

proof fn lemma_word_holds(a: int, b: int, point: Point)
    requires
        a == quantized(point.x),
        b == quantized(point.y),
        !beyond(point.x),
        !beyond(point.y),
    ensures
        word_holds(packed(wrapped(a), wrapped(b)), point),
{
    if !point.x.nan() {
        lemma_quantized_fits(point.x);
    }
    if !point.y.nan() {
        lemma_quantized_fits(point.y);
    }
    lemma_unpack_packed(wrapped(a), wrapped(b));
}

/// A glyph blob gives back the quantized points of every curve, at the place
/// that the band structure refers to.
pub proof fn lemma_blob_holds_curve(
    outline: GlyphOutline,
    geometry: BandGeometry,
    band_count_x: u32,
    band_count_y: u32,
    i: int,
)
    requires
        0 <= i < outline.curves.len(),
        curve_quantizable(outline.curves@[i]),
        mono_texels(outline, geometry, band_count_x, band_count_y) <= u32::MAX,
    ensures
        ({
            let base = band_texels(outline, geometry, band_count_x, band_count_y);
            let locations = moved(curve_starts(outline.curves@), base);
            blob_holds(
                mono_blob(outline, geometry, band_count_x, band_count_y),
                locations[i].offset as int,
                outline.curves@[i],
            )
        }),
{
    let curves = outline.curves@;
    let n = curves.len();
    let curve = curves[i];
    let base = band_texels(outline, geometry, band_count_x, band_count_y);
    let bands = outline_bands(outline, geometry, band_count_x, band_count_y);
    let locations = moved(curve_starts(curves), base);
    let entries = band_entries(bands, locations);
    let texels = curve_texels(curves, n);
    let start = curve_start(curves, i);
    let blob = mono_blob(outline, geometry, band_count_x, band_count_y);
    lemma_band_texels(outline, geometry, band_count_x, band_count_y);
    lemma_band_entries_length(bands, locations);
    lemma_region_holds_curve(curves, n, i);
    let region = packed_texels(texels);
    assert(packed_entries(entries).len() == 2 * base);
    let at = base + start;
    assert(locations[i].offset == at);
    assert(blob[2 * at] == region[2 * start]);
    assert(blob[2 * at + 1] == region[2 * start + 1]);
    assert(blob[2 * at + 2] == region[2 * start + 2]);
    lemma_word_holds(texels[start].x as int, texels[start].y as int, curve.p1);
    lemma_word_holds(texels[start].z as int, texels[start].w as int, curve.p2);
    lemma_word_holds(texels[start + 1].x as int, texels[start + 1].y as int, curve.p3);
    assert((2 * start + 1) / 2 == start);
    assert((2 * start + 2) / 2 == start + 1);
}

/// The first number of texel `t` of a blob.
pub open spec fn first_number(blob: Seq<i32>, t: int) -> i16 {
    unpacked_low(blob[2 * t])
}

/// The texel that entry `p` of the falling list of band `k` refers to, read
/// from a blob the way a renderer reads it.
pub open spec fn falling_reference(blob: Seq<i32>, k: int, p: int) -> int {
    let start = decoded(unpacked_high(blob[2 * k]));
    decoded(first_number(blob, start + p))
}

/// The texel that entry `p` of the rising list of band `k` refers to.
pub open spec fn rising_reference(blob: Seq<i32>, k: int, p: int) -> int {
    let start = decoded(unpacked_low(blob[2 * k + 1]));
    decoded(first_number(blob, start + p))
}

/// Walking a band of a glyph blob leads to the curves that the band lists:
/// the header gives their number, and the texels that the two lists refer to
/// hold the quantized points of the curves, in the order of the lists.
pub proof fn lemma_walk_blob_band(
    outline: GlyphOutline,
    geometry: BandGeometry,
    band_count_x: u32,
    band_count_y: u32,
    k: int,
)
    requires
        0 <= k < band_count_x + band_count_y,
        outline.curves.len() < 32768,
        mono_texels(outline, geometry, band_count_x, band_count_y) < 65536,
        forall|i: int|
            0 <= i < outline.curves.len() ==> curve_quantizable(#[trigger] outline.curves@[i]),
    ensures
        ({
            let curves = outline.curves@;
            let blob = mono_blob(outline, geometry, band_count_x, band_count_y);
            let band = outline_bands(outline, geometry, band_count_x, band_count_y)[k];
            &&& first_number(blob, k) == band.falling.len()
            &&& unpacked_high(blob[2 * k + 1]) == band.split
            &&& forall|p: int|
                #![trigger band.falling[p]]
                0 <= p < band.falling.len() ==> blob_holds(
                    blob,
                    falling_reference(blob, k, p),
                    curves[band.falling[p] as int],
                )
            &&& forall|p: int|
                #![trigger band.rising[p]]
                0 <= p < band.rising.len() ==> blob_holds(
                    blob,
                    rising_reference(blob, k, p),
                    curves[band.rising[p] as int],
                )
        }),
{
    let curves = outline.curves@;
    let n = curves.len();
    let base = band_texels(outline, geometry, band_count_x, band_count_y);
    let bands = outline_bands(outline, geometry, band_count_x, band_count_y);
    let band = bands[k];
    let locations = moved(curve_starts(curves), base);
    let entries = band_entries(bands, locations);
    let blob = mono_blob(outline, geometry, band_count_x, band_count_y);
    lemma_band_texels(outline, geometry, band_count_x, band_count_y);
    assert forall|i: int| 0 <= i < n implies (#[trigger] locations[i]).offset < 65536 by {
        lemma_texels_rise(curves, (i + 1) as nat, n);
        lemma_texels_length(curves, (i + 1) as nat);
    }
    lemma_band_entries_length(bands, locations);
    lemma_read_any_band(outline, geometry, band_count_x, band_count_y, locations, k);
    let count = band.falling.len() as int;
    let falling = decoded(entries[4 * k + 1]);
    let rising = decoded(entries[4 * k + 2]);
    assert forall|t: int| 0 <= t < base implies {
        &&& unpacked_low(#[trigger] blob[2 * t]) == entries[4 * t]
        &&& unpacked_high(blob[2 * t]) == entries[4 * t + 1]
        &&& unpacked_low(blob[2 * t + 1]) == entries[4 * t + 2]
        &&& unpacked_high(blob[2 * t + 1]) == entries[4 * t + 3]
    } by {
        lemma_unpack_packed(entries[4 * t], entries[4 * t + 1]);
        lemma_unpack_packed(entries[4 * t + 2], entries[4 * t + 3]);
        assert(2 * (2 * t + 1) == 4 * t + 2);
        assert(2 * (2 * t) == 4 * t);
    }
    assert(unpacked_low(blob[2 * k]) == entries[4 * k]);
    assert forall|p: int|
        #![trigger band.falling[p]]
        0 <= p < count implies blob_holds(
        blob,
        falling_reference(blob, k, p),
        curves[band.falling[p] as int],
    ) by {
        let i = band.falling[p] as int;
        assert(unpacked_low(blob[2 * (falling + p)]) == entries[4 * (falling + p)]);
        assert(falling_reference(blob, k, p) == locations[i].offset);
        lemma_blob_holds_curve(outline, geometry, band_count_x, band_count_y, i);
    }
    assert forall|p: int|
        #![trigger band.rising[p]]
        0 <= p < count implies blob_holds(
        blob,
        rising_reference(blob, k, p),
        curves[band.rising[p] as int],
    ) by {
        let i = band.rising[p] as int;
        assert(unpacked_low(blob[2 * (rising + p)]) == entries[4 * (rising + p)]);
        assert(rising_reference(blob, k, p) == locations[i].offset);
        lemma_blob_holds_curve(outline, geometry, band_count_x, band_count_y, i);
    }
}

/// A glyph blob takes two words for each texel.
pub proof fn lemma_blob_length(
    outline: GlyphOutline,
    geometry: BandGeometry,
    band_count_x: u32,
    band_count_y: u32,
)
    ensures
        mono_blob(outline, geometry, band_count_x, band_count_y).len() == 2 * mono_texels(
            outline,
            geometry,
            band_count_x,
            band_count_y,
        ),
{
    let base = band_texels(outline, geometry, band_count_x, band_count_y);
    lemma_band_texels(outline, geometry, band_count_x, band_count_y);
    lemma_band_entries_length(
        outline_bands(outline, geometry, band_count_x, band_count_y),
        moved(curve_starts(outline.curves@), base),
    );
}

/// A glyph blob takes at least its band headers, and at most two texels more
/// for each curve than its bands.
pub proof fn lemma_mono_texels(
    outline: GlyphOutline,
    geometry: BandGeometry,
    band_count_x: u32,
    band_count_y: u32,
)
    ensures
        band_count_x + band_count_y <= mono_texels(outline, geometry, band_count_x, band_count_y),
        mono_texels(outline, geometry, band_count_x, band_count_y) <= (band_count_x + band_count_y)
            * (1 + 2 * outline.curves.len()) + 2 * outline.curves.len(),
{
    lemma_band_texels(outline, geometry, band_count_x, band_count_y);
    lemma_texels_length(outline.curves@, outline.curves@.len());
}

/// A curve within bounds that quantize to sixteen bits does so itself. So a
/// blob gives back every curve of an outline whose bounds take its curves in.
pub proof fn lemma_bounded_curve_quantizable(curve: QuadCurve, bounds: Bounds)
    requires
        quantizable(bounds),
        bounds_numeric(bounds),
        curve_within(curve, bounds),
    ensures
        curve_quantizable(curve),
{
}

} // verus!
