//! Band acceleration structure for glyph outlines.
//!
//! The bounding box of a glyph is divided into horizontal and vertical bands.
//! Each band lists the curves that reach into it, so that a ray cast inside
//! the band skips every other curve. A band holds its curves twice: by
//! falling greatest coordinate and by rising least coordinate, with a split
//! coordinate that says which of the two lists is shorter to walk.

use crate::band_lists::{
    collect_keys, find_split, flat, lemma_band_list, lemma_lists_same_length, list_band, list_key,
    list_keys, lists_of, other_axis, BandLists, BandPosition,
};
use crate::outline::{Axis, GlyphOutline, QuadCurve};
use crate::scalar::{quantized, Scalar};
use crate::words::{low_i16, wrapped};
use vstd::prelude::*;

verus! {

/// Transform from font units to band index: `index = coordinate * scale + offset`.
#[derive(Clone, Copy, Debug, PartialEq, Eq, Structural)]
pub struct BandTransform {
    pub scale_x: Scalar,
    pub scale_y: Scalar,
    pub offset_x: Scalar,
    pub offset_y: Scalar,
}

/// What the band transform makes of an outline.
#[derive(Debug)]
pub struct BandGeometry {
    pub transform: BandTransform,
    /// The middle of the bounding box, used to split bands that no curve splits.
    pub middle_x: Scalar,
    pub middle_y: Scalar,
    /// One position per curve.
    pub positions: Vec<BandPosition>,
}

/// Band data ready for upload.
#[derive(Debug)]
pub struct BandData {
    /// Four numbers per texel: the headers, then the curve references.
    pub entries: Vec<i16>,
    /// Number of vertical bands.
    pub band_count_x: u32,
    /// Number of horizontal bands.
    pub band_count_y: u32,
    pub band_transform: BandTransform,
}

/// Curve location as a linear offset in the glyph blob.
#[derive(Clone, Copy, Debug, PartialEq, Eq, Structural)]
pub struct CurveLocation {
    pub offset: u32,
}

/// Whether `encode_offset` takes `offset`: the bias leaves the range of a
/// signed word just above its middle.
pub open spec fn offset_encodable(offset: u32) -> bool {
    offset < 0x8000_0000 || offset >= 0x8000_8000
}

/// The stored form of an offset: less 32768, in sixteen bits.
pub open spec fn encoded(offset: int) -> i16 {
    wrapped(offset - 32768)
}

/// The offset that a stored form stands for.
pub open spec fn decoded(stored: i16) -> int {
    stored + 32768
}

/// Encodes a glyph-relative offset with a bias of 32768, so that the range
/// 0 to 65535 fits a signed sixteen-bit number.
pub fn encode_offset(offset: u32) -> (r: i16)
    requires
        offset_encodable(offset),
    ensures
        r == encoded(offset as int),
{
    low_i16(offset.wrapping_sub(32768))
}

/// An offset below 65536 is read back from its stored form.
pub proof fn lemma_decode_encoded(offset: int)
    requires
        0 <= offset < 65536,
    ensures
        decoded(encoded(offset)) == offset,
{
}

/// `n` moved into the range of sixteen bits.
pub open spec fn saturate_i16(n: int) -> i16 {
    if n > i16::MAX {
        i16::MAX
    } else if n < i16::MIN {
        i16::MIN
    } else {
        n as i16
    }
}

/// What a band holds: its two lists and the quantized split coordinate.
pub struct BandView {
    pub falling: Seq<usize>,
    pub rising: Seq<usize>,
    pub split: i16,
}

/// The split coordinate of a band.
pub open spec fn split_coordinate(
    curves: Seq<QuadCurve>,
    lists: BandLists,
    axis: Axis,
    middle: Scalar,
) -> Scalar {
    match lists.best_split(lists.falling.len()) {
        Some(c) => curves[lists.falling[c] as int].high(axis),
        None => middle,
    }
}

/// Band `band` of the `count` bands along `axis`.
pub open spec fn band_of(
    curves: Seq<QuadCurve>,
    positions: Seq<BandPosition>,
    axis: Axis,
    count: int,
    band: int,
    middle: Scalar,
) -> BandView {
    let lists = lists_of(curves, positions, axis, count, band);
    BandView {
        falling: lists.falling,
        rising: lists.rising,
        split: saturate_i16(quantized(split_coordinate(curves, lists, axis.other(), middle))),
    }
}

/// All bands: the horizontal ones by rising y, then the vertical ones by
/// rising x.
pub open spec fn bands_of(
    curves: Seq<QuadCurve>,
    geometry: BandGeometry,
    band_count_x: int,
    band_count_y: int,
) -> Seq<BandView> {
    Seq::new(
        (band_count_y + band_count_x) as nat,
        |b: int|
            if b < band_count_y {
                band_of(curves, geometry.positions@, Axis::Y, band_count_y, b, geometry.middle_x)
            } else {
                band_of(
                    curves,
                    geometry.positions@,
                    Axis::X,
                    band_count_x,
                    b - band_count_y,
                    geometry.middle_y,
                )
            },
    )
}

/// The texel at which the lists of band `k` begin: after all headers and the
/// lists of the bands before it.
pub open spec fn list_start(bands: Seq<BandView>, k: int) -> int
    decreases k,
{
    if k <= 0 {
        bands.len() as int
    } else {
        list_start(bands, k - 1) + bands[k - 1].falling.len() + bands[k - 1].rising.len()
    }
}

/// The header texel of band `k`: how many curves it lists, where its two
/// lists begin, and its split.
pub open spec fn header_texel(bands: Seq<BandView>, k: int) -> Seq<i16> {
    let count = bands[k].falling.len();
    let start = list_start(bands, k);
    seq![wrapped(count as int), encoded(start), encoded(start + count), bands[k].split]
}

/// The headers of the first `n` bands.
pub open spec fn header_texels(bands: Seq<BandView>, n: nat) -> Seq<i16>
    decreases n,
{
    if n == 0 {
        Seq::empty()
    } else {
        header_texels(bands, (n - 1) as nat) + header_texel(bands, n - 1)
    }
}

/// A reference texel to the curve stored at `location`.
pub open spec fn reference_texel(location: CurveLocation) -> Seq<i16> {
    seq![encoded(location.offset as int), 0, 0, 0]
}

/// The references of a list.
pub open spec fn reference_texels(list: Seq<usize>, locations: Seq<CurveLocation>) -> Seq<i16>
    decreases list.len(),
{
    if list.len() == 0 {
        Seq::empty()
    } else {
        reference_texels(list.drop_last(), locations) + reference_texel(
            locations[list.last() as int],
        )
    }
}

/// The references of the first `n` bands: of each the falling list, then the
/// rising list.
pub open spec fn list_texels(
    bands: Seq<BandView>,
    locations: Seq<CurveLocation>,
    n: nat,
) -> Seq<i16>
    decreases n,
{
    if n == 0 {
        Seq::empty()
    } else {
        list_texels(bands, locations, (n - 1) as nat) + reference_texels(
            bands[n - 1].falling,
            locations,
        ) + reference_texels(bands[n - 1].rising, locations)
    }
}

/// The stored form of a band structure.
pub open spec fn band_entries(bands: Seq<BandView>, locations: Seq<CurveLocation>) -> Seq<i16> {
    header_texels(bands, bands.len()) + list_texels(bands, locations, bands.len())
}

/// A band before it is written out.
struct Band {
    falling: Vec<usize>,
    rising: Vec<usize>,
    split: i16,
}

impl Band {
    spec fn view(&self) -> BandView {
        BandView { falling: self.falling@, rising: self.rising@, split: self.split }
    }
}

fn saturating_i16(n: i32) -> (r: i16)
    ensures
        r == saturate_i16(n as int),
{
    if n > 32767 {
        32767
    } else if n < -32768 {
        -32768
    } else {
        n as i16
    }
}

fn build_band(
    curves: &Vec<QuadCurve>,
    positions: &Vec<BandPosition>,
    axis: Axis,
    count: u32,
    band: u32,
    middle: Scalar,
    falling_keys: &Vec<i32>,
    rising_keys: &Vec<i32>,
) -> (r: Band)
    requires
        positions.len() == curves.len(),
        count > 0,
        falling_keys@ == list_keys(curves@, axis.other(), true),
        rising_keys@ == list_keys(curves@, axis.other(), false),
        forall|i: int| 0 <= i < falling_keys.len() ==> #[trigger] falling_keys@[i] > i32::MIN,
    ensures
        r.view() == band_of(curves@, positions@, axis, count as int, band as int, middle),
{
    let falling = list_band(curves, positions, axis, count, band, falling_keys);
    let rising = list_band(curves, positions, axis, count, band, rising_keys);
    proof {
        let n = curves@.len();
        lemma_lists_same_length(curves@, positions@, axis, count as int, band as int);
        lemma_band_list(
            curves@,
            positions@,
            axis,
            count as int,
            band as int,
            falling_keys@,
            n,
        );
        lemma_band_list(curves@, positions@, axis, count as int, band as int, rising_keys@, n);
    }
    let best = find_split(&falling, &rising, falling_keys, rising_keys);
    let coordinate = match best {
        Some(c) => curves[falling[c]].highest(other_axis(axis)),
        None => middle,
    };
    Band { falling, rising, split: saturating_i16(coordinate.quantize()) }
}

spec fn views(bands: Seq<Band>) -> Seq<BandView> {
    bands.map_values(|b: Band| b.view())
}

/// Appends the bands along one axis.
fn push_bands(
    bands: &mut Vec<Band>,
    curves: &Vec<QuadCurve>,
    positions: &Vec<BandPosition>,
    axis: Axis,
    count: u32,
    middle: Scalar,
)
    requires
        positions.len() == curves.len(),
    ensures
        views(final(bands)@) == views(old(bands)@) + Seq::new(
            count as nat,
            |b: int| band_of(curves@, positions@, axis, count as int, b, middle),
        ),
{
    let falling_keys = collect_keys(curves, other_axis(axis), true);
    let rising_keys = collect_keys(curves, other_axis(axis), false);
    let mut b: u32 = 0;
    assert(views(bands@) =~= views(old(bands)@) + Seq::new(
        b as nat,
        |b: int| band_of(curves@, positions@, axis, count as int, b, middle),
    ));
    while b < count
        invariant
            b <= count,
            positions.len() == curves.len(),
            falling_keys@ == list_keys(curves@, axis.other(), true),
            rising_keys@ == list_keys(curves@, axis.other(), false),
            forall|i: int|
                0 <= i < curves.len() ==> #[trigger] falling_keys@[i] == list_key(
                    curves@[i],
                    axis.other(),
                    true,
                ),
            views(bands@) == views(old(bands)@) + Seq::new(
                b as nat,
                |b: int| band_of(curves@, positions@, axis, count as int, b, middle),
            ),
        decreases count - b,
    {
        let ghost before = bands@;
        bands.push(
            build_band(
                curves,
                positions,
                axis,
                count,
                b,
                middle,
                &falling_keys,
                &rising_keys,
            ),
        );
        b = b + 1;
        assert(views(bands@) =~= views(before).push(bands@.last().view()));
        assert(views(bands@) =~= views(old(bands)@) + Seq::new(
            b as nat,
            |b: int| band_of(curves@, positions@, axis, count as int, b, middle),
        ));
    }
}

pub(crate) proof fn lemma_list_start_rises(bands: Seq<BandView>, j: int, k: int)
    requires
        0 <= j <= k,
    ensures
        list_start(bands, j) <= list_start(bands, k),
        list_start(bands, j) >= bands.len(),
    decreases k,
{
    if j < k {
        lemma_list_start_rises(bands, j, k - 1);
    } else if j > 0 {
        lemma_list_start_rises(bands, j - 1, k - 1);
    }
}

fn push_references(
    entries: &mut Vec<i16>,
    list: &Vec<usize>,
    locations: &Vec<CurveLocation>,
)
    requires
        forall|p: int|
            0 <= p < list.len() ==> #[trigger] list@[p] < locations.len() && offset_encodable(
                locations@[list@[p] as int].offset,
            ),
    ensures
        final(entries)@ == old(entries)@ + reference_texels(list@, locations@),
{
    let mut p: usize = 0;
    assert(entries@ =~= old(entries)@ + reference_texels(list@.take(0), locations@));
    while p < list.len()
        invariant
            p <= list.len(),
            forall|p: int|
                0 <= p < list.len() ==> #[trigger] list@[p] < locations.len() && offset_encodable(
                    locations@[list@[p] as int].offset,
                ),
            entries@ == old(entries)@ + reference_texels(list@.take(p as int), locations@),
        decreases list.len() - p,
    {
        let ghost before = entries@;
        let location = locations[list[p]];
        entries.push(encode_offset(location.offset));
        entries.push(0);
        entries.push(0);
        entries.push(0);
        proof {
            let longer = list@.take(p + 1);
            assert(longer.drop_last() =~= list@.take(p as int));
            assert(longer.last() == list@[p as int]);
            assert(entries@ =~= before + reference_texel(location));
            assert(entries@ =~= old(entries)@ + reference_texels(longer, locations@));
        }
        p = p + 1;
    }
    assert(list@.take(list@.len() as int) =~= list@);
}

fn push_headers(entries: &mut Vec<i16>, bands: &Vec<Band>)
    requires
        list_start(views(bands@), bands@.len() as int) <= i32::MAX,
        forall|k: int|
            0 <= k < bands.len() ==> (#[trigger] bands@[k]).falling.len() == bands@[k].rising.len(),
    ensures
        final(entries)@ == old(entries)@ + header_texels(views(bands@), bands@.len()),
{
    let ghost all = views(bands@);
    let n: usize = bands.len();
    proof {
        lemma_list_start_rises(all, 0, n as int);
    }
    let mut start: u32 = n as u32;
    let mut k: usize = 0;
    assert(entries@ =~= old(entries)@ + header_texels(all, 0));
    while k < n
        invariant
            k <= n,
            n == bands.len(),
            all == views(bands@),
            forall|k: int|
                0 <= k < bands.len() ==> (#[trigger] bands@[k]).falling.len()
                    == bands@[k].rising.len(),
            list_start(all, n as int) <= i32::MAX,
            start == list_start(all, k as int),
            entries@ == old(entries)@ + header_texels(all, k as nat),
        decreases n - k,
    {
        let ghost before = entries@;
        proof {
            lemma_list_start_rises(all, k + 1, n as int);
            lemma_list_start_rises(all, k as int, k as int);
            assert(all[k as int] == bands@[k as int].view());
            assert(list_start(all, k + 1) == start + 2 * bands@[k as int].falling.len());
        }
        let count: u32 = bands[k].falling.len() as u32;
        entries.push(low_i16(count));
        entries.push(encode_offset(start));
        entries.push(encode_offset(start + count));
        entries.push(bands[k].split);
        proof {
            assert(entries@ =~= before + header_texel(all, k as int));
            assert(entries@ =~= old(entries)@ + header_texels(all, (k + 1) as nat));
        }
        start = start + count * 2;
        k = k + 1;
    }
}

fn push_lists(entries: &mut Vec<i16>, bands: &Vec<Band>, locations: &Vec<CurveLocation>)
    requires
        forall|k: int, p: int|
            #![trigger bands@[k].falling@[p]]
            0 <= k < bands.len() && 0 <= p < bands@[k].falling.len() ==> bands@[k].falling@[p]
                < locations.len() && offset_encodable(
                locations@[bands@[k].falling@[p] as int].offset,
            ),
        forall|k: int, p: int|
            #![trigger bands@[k].rising@[p]]
            0 <= k < bands.len() && 0 <= p < bands@[k].rising.len() ==> bands@[k].rising@[p]
                < locations.len() && offset_encodable(
                locations@[bands@[k].rising@[p] as int].offset,
            ),
    ensures
        final(entries)@ == old(entries)@ + list_texels(views(bands@), locations@, bands@.len()),
{
    let ghost all = views(bands@);
    let mut k: usize = 0;
    assert(entries@ =~= old(entries)@ + list_texels(all, locations@, 0));
    while k < bands.len()
        invariant
            k <= bands.len(),
            all == views(bands@),
            forall|k: int, p: int|
                #![trigger bands@[k].falling@[p]]
                0 <= k < bands.len() && 0 <= p < bands@[k].falling.len() ==> bands@[k].falling@[p]
                    < locations.len() && offset_encodable(
                    locations@[bands@[k].falling@[p] as int].offset,
                ),
            forall|k: int, p: int|
                #![trigger bands@[k].rising@[p]]
                0 <= k < bands.len() && 0 <= p < bands@[k].rising.len() ==> bands@[k].rising@[p]
                    < locations.len() && offset_encodable(
                    locations@[bands@[k].rising@[p] as int].offset,
                ),
            entries@ == old(entries)@ + list_texels(all, locations@, k as nat),
        decreases bands.len() - k,
    {
        push_references(entries, &bands[k].falling, locations);
        push_references(entries, &bands[k].rising, locations);
        assert(all[k as int] == bands@[k as int].view());
        k = k + 1;
        assert(entries@ =~= old(entries)@ + list_texels(all, locations@, k as nat));
    }
}

/// The bands of an outline as `build_bands` lays them out.
pub open spec fn outline_bands(
    outline: GlyphOutline,
    geometry: BandGeometry,
    band_count_x: u32,
    band_count_y: u32,
) -> Seq<BandView> {
    bands_of(outline.curves@, geometry, band_count_x as int, band_count_y as int)
}

/// Whether there is a band for every curve that is to be listed in one.
pub open spec fn bands_suffice(outline: GlyphOutline, band_count_x: u32, band_count_y: u32) -> bool {
    forall|i: int|
        0 <= i < outline.curves.len() ==> {
            let curve = #[trigger] outline.curves@[i];
            &&& !flat(curve, Axis::Y) ==> band_count_y > 0
            &&& !flat(curve, Axis::X) ==> band_count_x > 0
        }
}

pub(crate) proof fn lemma_bands_listed(
    curves: Seq<QuadCurve>,
    geometry: BandGeometry,
    band_count_x: int,
    band_count_y: int,
    k: int,
)
    requires
        0 <= band_count_x,
        0 <= band_count_y,
        0 <= k < band_count_x + band_count_y,
        curves.len() <= usize::MAX,
    ensures
        ({
            let band = bands_of(curves, geometry, band_count_x, band_count_y)[k];
            &&& band.falling.len() == band.rising.len()
            &&& band.falling.len() <= curves.len()
            &&& forall|p: int| 0 <= p < band.falling.len() ==> #[trigger] band.falling[p]
                < curves.len()
            &&& forall|p: int| 0 <= p < band.rising.len() ==> #[trigger] band.rising[p]
                < curves.len()
        }),
{
    let (axis, count, band) = if k < band_count_y {
        (Axis::Y, band_count_y, k)
    } else {
        (Axis::X, band_count_x, k - band_count_y)
    };
    let positions = geometry.positions@;
    lemma_lists_same_length(curves, positions, axis, count, band);
    lemma_band_list(
        curves,
        positions,
        axis,
        count,
        band,
        list_keys(curves, axis.other(), true),
        curves.len(),
    );
    lemma_band_list(
        curves,
        positions,
        axis,
        count,
        band,
        list_keys(curves, axis.other(), false),
        curves.len(),
    );
}

/// What `build_bands` asks of its input.
pub open spec fn bands_buildable(
    outline: GlyphOutline,
    geometry: BandGeometry,
    band_count_x: u32,
    band_count_y: u32,
) -> bool {
    &&& geometry.positions.len() == outline.curves.len()
    &&& bands_suffice(outline, band_count_x, band_count_y)
    &&& band_texels(outline, geometry, band_count_x, band_count_y) <= i32::MAX
}

/// How many texels the stored bands take.
pub open spec fn band_texels(
    outline: GlyphOutline,
    geometry: BandGeometry,
    band_count_x: u32,
    band_count_y: u32,
) -> int {
    list_start(
        outline_bands(outline, geometry, band_count_x, band_count_y),
        band_count_x + band_count_y,
    )
}

/// The stored bands take at least their headers, and at most twice the number
/// of curves more for each band.
pub proof fn lemma_band_texels(
    outline: GlyphOutline,
    geometry: BandGeometry,
    band_count_x: u32,
    band_count_y: u32,
)
    ensures
        band_count_x + band_count_y <= band_texels(outline, geometry, band_count_x, band_count_y),
        band_texels(outline, geometry, band_count_x, band_count_y) <= (band_count_x + band_count_y)
            * (1 + 2 * outline.curves.len()),
{
    let bands = outline_bands(outline, geometry, band_count_x, band_count_y);
    let n = band_count_x + band_count_y;
    assert(outline.curves@.len() == outline.curves.len());
    lemma_list_start_rises(bands, n, n);
    lemma_list_start_bound(
        outline.curves@,
        geometry,
        band_count_x as int,
        band_count_y as int,
        n,
    );
    assert(n + n * (2 * outline.curves.len()) == n * (1 + 2 * outline.curves.len()))
        by (nonlinear_arith);
}

proof fn lemma_list_start_bound(
    curves: Seq<QuadCurve>,
    geometry: BandGeometry,
    band_count_x: int,
    band_count_y: int,
    k: int,
)
    requires
        0 <= band_count_x,
        0 <= band_count_y,
        0 <= k <= band_count_x + band_count_y,
        curves.len() <= usize::MAX,
    ensures
        list_start(bands_of(curves, geometry, band_count_x, band_count_y), k) <= band_count_x
            + band_count_y + k * (2 * curves.len()),
    decreases k,
{
    if k > 0 {
        lemma_list_start_bound(curves, geometry, band_count_x, band_count_y, k - 1);
        lemma_bands_listed(curves, geometry, band_count_x, band_count_y, k - 1);
        assert((k - 1) * (2 * curves.len()) + 2 * curves.len() == k * (2 * curves.len()))
            by (nonlinear_arith);
    }
}

fn collect_bands(
    outline: &GlyphOutline,
    band_count_x: u32,
    band_count_y: u32,
    geometry: &BandGeometry,
) -> (bands: Vec<Band>)
    requires
        bands_buildable(*outline, *geometry, band_count_x, band_count_y),
    ensures
        views(bands@) == outline_bands(*outline, *geometry, band_count_x, band_count_y),
        bands.len() == band_count_x + band_count_y,
        forall|k: int|
            0 <= k < bands.len() ==> {
                let band = #[trigger] bands@[k];
                &&& band.falling.len() == band.rising.len()
                &&& forall|p: int| 0 <= p < band.falling.len() ==> #[trigger] band.falling@[p]
                    < outline.curves.len()
                &&& forall|p: int| 0 <= p < band.rising.len() ==> #[trigger] band.rising@[p]
                    < outline.curves.len()
            },
{
    let mut bands: Vec<Band> = Vec::new();
    push_bands(
        &mut bands,
        &outline.curves,
        &geometry.positions,
        Axis::Y,
        band_count_y,
        geometry.middle_x,
    );
    push_bands(
        &mut bands,
        &outline.curves,
        &geometry.positions,
        Axis::X,
        band_count_x,
        geometry.middle_y,
    );
    proof {
        let expected = outline_bands(*outline, *geometry, band_count_x, band_count_y);
        assert(views(bands@) =~= expected);
        assert(views(bands@).len() == expected.len());
        assert forall|k: int| 0 <= k < bands.len() implies {
            let band = #[trigger] bands@[k];
            &&& band.falling.len() == band.rising.len()
            &&& forall|p: int| 0 <= p < band.falling.len() ==> #[trigger] band.falling@[p]
                < outline.curves.len()
            &&& forall|p: int| 0 <= p < band.rising.len() ==> #[trigger] band.rising@[p]
                < outline.curves.len()
        } by {
            lemma_bands_listed(
                outline.curves@,
                *geometry,
                band_count_x as int,
                band_count_y as int,
                k,
            );
            assert(expected[k] == bands@[k].view());
        }
    }
    bands
}

/// Builds the band structure of a glyph.
///
/// `curve_locations` says where each curve is stored. `scratch_entries` lends
/// its allocation to the result; what it holds is dropped.
pub fn build_bands(
    outline: &GlyphOutline,
    curve_locations: &Vec<CurveLocation>,
    band_count_x: u32,
    band_count_y: u32,
    geometry: &BandGeometry,
    scratch_entries: Vec<i16>,
) -> (r: BandData)
    requires
        bands_buildable(*outline, *geometry, band_count_x, band_count_y),
        curve_locations.len() >= outline.curves.len(),
        forall|i: int|
            0 <= i < outline.curves.len() ==> offset_encodable(
                (#[trigger] curve_locations@[i]).offset,
            ),
    ensures
        r.entries@ == band_entries(
            outline_bands(*outline, *geometry, band_count_x, band_count_y),
            curve_locations@,
        ),
        r.entries@.len() == 4 * band_texels(*outline, *geometry, band_count_x, band_count_y),
        r.band_count_x == band_count_x,
        r.band_count_y == band_count_y,
        r.band_transform == geometry.transform,
{
    let bands = collect_bands(outline, band_count_x, band_count_y, geometry);
    let mut entries: Vec<i16> = scratch_entries;
    entries.clear();
    push_headers(&mut entries, &bands);
    push_lists(&mut entries, &bands, curve_locations);
    proof {
        let expected = outline_bands(*outline, *geometry, band_count_x, band_count_y);
        lemma_entries_length(expected, curve_locations@, expected.len());
        assert(entries@ =~= band_entries(expected, curve_locations@));
    }
    BandData { entries, band_count_x, band_count_y, band_transform: geometry.transform }
}

/// Locations moved back by `base` texels.
pub open spec fn moved(locations: Seq<CurveLocation>, base: int) -> Seq<CurveLocation> {
    locations.map_values(
        |l: CurveLocation| CurveLocation { offset: (l.offset + base) as u32 },
    )
}

/// The number of texels that bands take.
fn count_texels(bands: &Vec<Band>) -> (r: u32)
    requires
        list_start(views(bands@), bands@.len() as int) <= i32::MAX,
        forall|k: int|
            0 <= k < bands.len() ==> (#[trigger] bands@[k]).falling.len() == bands@[k].rising.len(),
    ensures
        r == list_start(views(bands@), bands@.len() as int),
{
    let ghost all = views(bands@);
    let n: usize = bands.len();
    proof {
        lemma_list_start_rises(all, 0, n as int);
    }
    let mut total: u32 = n as u32;
    let mut k: usize = 0;
    while k < n
        invariant
            k <= n,
            n == bands.len(),
            all == views(bands@),
            forall|k: int|
                0 <= k < bands.len() ==> (#[trigger] bands@[k]).falling.len()
                    == bands@[k].rising.len(),
            list_start(all, n as int) <= i32::MAX,
            total == list_start(all, k as int),
        decreases n - k,
    {
        proof {
            lemma_list_start_rises(all, k + 1, n as int);
            lemma_list_start_rises(all, k as int, k as int);
            assert(all[k as int] == bands@[k as int].view());
        }
        total = total + bands[k].falling.len() as u32 * 2;
        k = k + 1;
    }
    total
}

/// Builds the band structure of a glyph whose curves are stored right behind
/// it: `curve_locations` counts from the end of the bands.
pub fn build_leading_bands(
    outline: &GlyphOutline,
    curve_locations: &Vec<CurveLocation>,
    band_count_x: u32,
    band_count_y: u32,
    geometry: &BandGeometry,
    scratch_entries: Vec<i16>,
) -> (r: BandData)
    requires
        bands_buildable(*outline, *geometry, band_count_x, band_count_y),
        curve_locations.len() == outline.curves.len(),
        forall|i: int|
            0 <= i < curve_locations.len() ==> (#[trigger] curve_locations@[i]).offset
                + band_texels(*outline, *geometry, band_count_x, band_count_y) <= i32::MAX,
    ensures
        r.entries@ == band_entries(
            outline_bands(*outline, *geometry, band_count_x, band_count_y),
            moved(
                curve_locations@,
                band_texels(*outline, *geometry, band_count_x, band_count_y),
            ),
        ),
        r.entries@.len() == 4 * band_texels(*outline, *geometry, band_count_x, band_count_y),
        r.band_count_x == band_count_x,
        r.band_count_y == band_count_y,
        r.band_transform == geometry.transform,
{
    let bands = collect_bands(outline, band_count_x, band_count_y, geometry);
    let base: u32 = count_texels(&bands);
    let mut locations: Vec<CurveLocation> = Vec::new();
    let mut i: usize = 0;
    while i < curve_locations.len()
        invariant
            i <= curve_locations.len(),
            locations.len() == i,
            forall|i: int|
                0 <= i < curve_locations.len() ==> (#[trigger] curve_locations@[i]).offset + base
                    <= i32::MAX,
            forall|k: int|
                0 <= k < i ==> #[trigger] locations@[k] == moved(curve_locations@, base as int)[k],
        decreases curve_locations.len() - i,
    {
        locations.push(CurveLocation { offset: curve_locations[i].offset + base });
        i = i + 1;
    }
    assert(locations@ =~= moved(curve_locations@, base as int));
    let mut entries: Vec<i16> = scratch_entries;
    entries.clear();
    push_headers(&mut entries, &bands);
    push_lists(&mut entries, &bands, &locations);
    proof {
        let expected = outline_bands(*outline, *geometry, band_count_x, band_count_y);
        lemma_entries_length(expected, locations@, expected.len());
        assert(entries@ =~= band_entries(expected, locations@));
    }
    BandData { entries, band_count_x, band_count_y, band_transform: geometry.transform }
}

pub(crate) proof fn lemma_reference_texels(list: Seq<usize>, locations: Seq<CurveLocation>)
    ensures
        reference_texels(list, locations).len() == 4 * list.len(),
        forall|p: int|
            0 <= p < list.len() ==> reference_texels(list, locations)[#[trigger] (4 * p)]
                == encoded(locations[list[p] as int].offset as int),
    decreases list.len(),
{
    if list.len() > 0 {
        lemma_reference_texels(list.drop_last(), locations);
    }
}

pub(crate) proof fn lemma_entries_length(bands: Seq<BandView>, locations: Seq<CurveLocation>, n: nat)
    ensures
        header_texels(bands, n).len() == 4 * n,
        list_texels(bands, locations, n).len() == 4 * (list_start(bands, n as int) - bands.len()),
    decreases n,
{
    if n > 0 {
        lemma_entries_length(bands, locations, (n - 1) as nat);
        lemma_reference_texels(bands[n - 1].falling, locations);
        lemma_reference_texels(bands[n - 1].rising, locations);
    }
}

/// The stored form takes four numbers for each texel.
pub proof fn lemma_band_entries_length(bands: Seq<BandView>, locations: Seq<CurveLocation>)
    ensures
        band_entries(bands, locations).len() == 4 * list_start(bands, bands.len() as int),
{
    lemma_entries_length(bands, locations, bands.len());
}

} // verus!
