//! What a band structure holds: the curves that a ray in a band can meet, in the
//! order in which a reader walks them, found again in what is stored.

use crate::band::{
    band_entries, band_of, band_texels, encoded, list_start, outline_bands, reference_texels,
    BandGeometry, BandView, CurveLocation,
};
use crate::band_lists::{
    count_up_to, lemma_band_list, lemma_best_split, lemma_lists_same_length, lists_of, reaches,
    BandPosition,
};
use crate::band_reading::lemma_read_any_band;
use crate::outline::{Axis, GlyphOutline, Point, QuadCurve};
use crate::prep::{
    beyond, blob_holds, curve_quantizable, curve_start, curve_starts, curve_texels,
    falling_reference, lemma_blob_length, lemma_walk_blob_band, mono_blob, mono_texels,
    outline_quantizable, quantizable, rising_reference,
};
use crate::scalar::{
    lemma_beyond_quantized_range, lemma_quantized_fits, magnitude_value, quantized, Scalar,
    QUANTIZED_LIMIT,
};
use crate::words::{unpacked_high, unpacked_low};
use vstd::arithmetic::power2::{lemma_pow2_pos, pow2};
use vstd::prelude::*;

verus! {

/// Whether three coordinates are level: there is a number among them, and the
/// numbers among them are equal.
pub open spec fn level(a: Scalar, b: Scalar, c: Scalar) -> bool {
    &&& !a.nan() || !b.nan() || !c.nan()
    &&& a.nan() || b.nan() || a.equal(b)
    &&& b.nan() || c.nan() || b.equal(c)
    &&& a.nan() || c.nan() || a.equal(c)
}

/// Whether band `b` of `count` bands lies between the bands `low` and `high`.
/// What lies outside the bands counts for the outermost one.
pub open spec fn spans(low: i32, high: i32, count: int, b: int) -> bool {
    &&& low <= b || b == count - 1
    &&& b <= high || b == 0
}

/// Whether a curve is one that a horizontal ray in band `b` can meet.
pub open spec fn meets_horizontal(c: QuadCurve, at: BandPosition, count: int, b: int) -> bool {
    !level(c.p1.y, c.p2.y, c.p3.y) && spans(at.low_y, at.high_y, count, b)
}

/// Whether a curve is one that a vertical ray in band `b` can meet.
pub open spec fn meets_vertical(c: QuadCurve, at: BandPosition, count: int, b: int) -> bool {
    !level(c.p1.x, c.p2.x, c.p3.x) && spans(at.low_x, at.high_x, count, b)
}

/// The greatest place of three numbers in the order of numbers.
pub open spec fn greatest_of(a: Scalar, b: Scalar, c: Scalar) -> int {
    let m = if a.order() >= b.order() {
        a.order()
    } else {
        b.order()
    };
    if m >= c.order() {
        m
    } else {
        c.order()
    }
}

/// The least place of three numbers in the order of numbers.
pub open spec fn least_of(a: Scalar, b: Scalar, c: Scalar) -> int {
    let m = if a.order() <= b.order() {
        a.order()
    } else {
        b.order()
    };
    if m <= c.order() {
        m
    } else {
        c.order()
    }
}

/// Whether the control points of a curve are numbers.
pub open spec fn curve_numeric(c: QuadCurve) -> bool {
    &&& !c.p1.x.nan() && !c.p2.x.nan() && !c.p3.x.nan()
    &&& !c.p1.y.nan() && !c.p2.y.nan() && !c.p3.y.nan()
}

/// The far end of a curve along the direction of the rays of a band.
pub open spec fn far_end(c: QuadCurve, horizontal: bool) -> int {
    if horizontal {
        greatest_of(c.p1.x, c.p2.x, c.p3.x)
    } else {
        greatest_of(c.p1.y, c.p2.y, c.p3.y)
    }
}

/// The near end of a curve along the direction of the rays of a band.
pub open spec fn near_end(c: QuadCurve, horizontal: bool) -> int {
    if horizontal {
        least_of(c.p1.x, c.p2.x, c.p3.x)
    } else {
        least_of(c.p1.y, c.p2.y, c.p3.y)
    }
}

proof fn lemma_listed(
    curves: Seq<QuadCurve>,
    positions: Seq<BandPosition>,
    axis: Axis,
    count: int,
    band: int,
    i: int,
)
    requires
        0 <= band < count,
        0 <= i < curves.len() <= usize::MAX,
    ensures
        ({
            let lists = lists_of(curves, positions, axis, count, band);
            let met = match axis {
                Axis::Y => meets_horizontal(curves[i], positions[i], count, band),
                Axis::X => meets_vertical(curves[i], positions[i], count, band),
            };
            &&& lists.falling.contains(i as usize) <==> met
            &&& lists.rising.contains(i as usize) <==> met
        }),
{
    let lists = lists_of(curves, positions, axis, count, band);
    lemma_band_list(curves, positions, axis, count, band, lists.falling_keys, curves.len());
    lemma_band_list(curves, positions, axis, count, band, lists.rising_keys, curves.len());
    let c = curves[i];
    let met = match axis {
        Axis::Y => meets_horizontal(c, positions[i], count, band),
        Axis::X => meets_vertical(c, positions[i], count, band),
    };
    assert(reaches(c, positions[i], axis, count, band) <==> met);
    if lists.falling.contains(i as usize) {
        let p = choose|p: int| 0 <= p < lists.falling.len() && lists.falling[p] == i as usize;
        assert(lists.falling[p] as int == i);
    }
    if lists.rising.contains(i as usize) {
        let p = choose|p: int| 0 <= p < lists.rising.len() && lists.rising[p] == i as usize;
        assert(lists.rising[p] as int == i);
    }
}

/// A horizontal band lists a curve, in both of its lists, exactly when the curve
/// rises or falls and the band lies between that of its least y and that of its
/// greatest y. A vertical band does so for x.
pub proof fn lemma_bands_list_curve(
    outline: GlyphOutline,
    geometry: BandGeometry,
    band_count_x: u32,
    band_count_y: u32,
    b: int,
    i: int,
)
    requires
        0 <= i < outline.curves.len(),
    ensures
        ({
            let bands = outline_bands(outline, geometry, band_count_x, band_count_y);
            let c = outline.curves@[i];
            let at = geometry.positions@[i];
            &&& bands.len() == band_count_x + band_count_y
            &&& 0 <= b < band_count_y ==> {
                let met = meets_horizontal(c, at, band_count_y as int, b);
                &&& bands[b].falling.contains(i as usize) <==> met
                &&& bands[b].rising.contains(i as usize) <==> met
            }
            &&& 0 <= b < band_count_x ==> {
                let met = meets_vertical(c, at, band_count_x as int, b);
                &&& bands[band_count_y + b].falling.contains(i as usize) <==> met
                &&& bands[band_count_y + b].rising.contains(i as usize) <==> met
            }
        }),
{
    let curves = outline.curves@;
    let positions = geometry.positions@;
    assert(curves.len() == outline.curves.len());
    if 0 <= b < band_count_y {
        lemma_listed(curves, positions, Axis::Y, band_count_y as int, b, i);
    }
    if 0 <= b < band_count_x {
        lemma_listed(curves, positions, Axis::X, band_count_x as int, b, i);
    }
}

/// Whether a list holds curves of an outline, each once, by falling far end, and
/// among equal ones by their place in the outline.
pub open spec fn by_falling_end(
    list: Seq<usize>,
    curves: Seq<QuadCurve>,
    horizontal: bool,
) -> bool {
    forall|p: int, q: int|
        0 <= p < q < list.len() ==> {
            let a = #[trigger] list[p];
            let b = #[trigger] list[q];
            let far_a = far_end(curves[a as int], horizontal);
            let far_b = far_end(curves[b as int], horizontal);
            a < curves.len() && b < curves.len() && (far_a > far_b || (far_a == far_b && a < b))
        }
}

/// Whether a list holds curves of an outline, each once, by rising near end, and
/// among equal ones by their place in the outline.
pub open spec fn by_rising_end(
    list: Seq<usize>,
    curves: Seq<QuadCurve>,
    horizontal: bool,
) -> bool {
    forall|p: int, q: int|
        0 <= p < q < list.len() ==> {
            let a = #[trigger] list[p];
            let b = #[trigger] list[q];
            let near_a = near_end(curves[a as int], horizontal);
            let near_b = near_end(curves[b as int], horizontal);
            a < curves.len() && b < curves.len() && (near_a < near_b || (near_a == near_b && a
                < b))
        }
}

proof fn lemma_ordered(
    curves: Seq<QuadCurve>,
    positions: Seq<BandPosition>,
    axis: Axis,
    count: int,
    band: int,
)
    requires
        curves.len() <= usize::MAX,
        forall|i: int| 0 <= i < curves.len() ==> curve_numeric(#[trigger] curves[i]),
    ensures
        ({
            let lists = lists_of(curves, positions, axis, count, band);
            &&& by_falling_end(lists.falling, curves, axis == Axis::Y)
            &&& by_rising_end(lists.rising, curves, axis == Axis::Y)
            &&& forall|p: int|
                0 <= p < lists.falling.len() ==> (#[trigger] lists.falling[p]) < curves.len()
            &&& forall|p: int|
                0 <= p < lists.rising.len() ==> (#[trigger] lists.rising[p]) < curves.len()
            &&& forall|i: int|
                0 <= i < curves.len() ==> {
                    &&& #[trigger] lists.falling_keys[i] == -far_end(curves[i], axis == Axis::Y)
                    &&& lists.rising_keys[i] == near_end(curves[i], axis == Axis::Y)
                }
        }),
{
    let lists = lists_of(curves, positions, axis, count, band);
    lemma_band_list(curves, positions, axis, count, band, lists.falling_keys, curves.len());
    lemma_band_list(curves, positions, axis, count, band, lists.rising_keys, curves.len());
    assert forall|i: int| 0 <= i < curves.len() implies {
        &&& #[trigger] lists.falling_keys[i] == -far_end(curves[i], axis == Axis::Y)
        &&& lists.rising_keys[i] == near_end(curves[i], axis == Axis::Y)
    } by {
        assert(curve_numeric(curves[i]));
    }
    assert forall|p: int, q: int| 0 <= p < q < lists.falling.len() implies {
        let a = #[trigger] lists.falling[p];
        let b = #[trigger] lists.falling[q];
        let far_a = far_end(curves[a as int], axis == Axis::Y);
        let far_b = far_end(curves[b as int], axis == Axis::Y);
        a < curves.len() && b < curves.len() && (far_a > far_b || (far_a == far_b && a < b))
    } by {
        let a = lists.falling[p];
        let b = lists.falling[q];
        assert(lists.falling_keys[a as int] == -far_end(curves[a as int], axis == Axis::Y));
        assert(lists.falling_keys[b as int] == -far_end(curves[b as int], axis == Axis::Y));
    }
    assert forall|p: int, q: int| 0 <= p < q < lists.rising.len() implies {
        let a = #[trigger] lists.rising[p];
        let b = #[trigger] lists.rising[q];
        let near_a = near_end(curves[a as int], axis == Axis::Y);
        let near_b = near_end(curves[b as int], axis == Axis::Y);
        a < curves.len() && b < curves.len() && (near_a < near_b || (near_a == near_b && a < b))
    } by {
        let a = lists.rising[p];
        let b = lists.rising[q];
        assert(lists.falling_keys[a as int] == -far_end(curves[a as int], axis == Axis::Y));
        assert(lists.falling_keys[b as int] == -far_end(curves[b as int], axis == Axis::Y));
    }
}

/// Every band lists its curves once by where they end and once by where they
/// begin along its rays: horizontal bands by x, vertical ones by y.
pub proof fn lemma_bands_in_order(
    outline: GlyphOutline,
    geometry: BandGeometry,
    band_count_x: u32,
    band_count_y: u32,
    k: int,
)
    requires
        0 <= k < band_count_x + band_count_y,
        forall|i: int|
            0 <= i < outline.curves.len() ==> curve_numeric(#[trigger] outline.curves@[i]),
    ensures
        ({
            let band = outline_bands(outline, geometry, band_count_x, band_count_y)[k];
            &&& by_falling_end(band.falling, outline.curves@, k < band_count_y)
            &&& by_rising_end(band.rising, outline.curves@, k < band_count_y)
            &&& band.falling.len() == band.rising.len()
        }),
{
    let curves = outline.curves@;
    let positions = geometry.positions@;
    assert(curves.len() == outline.curves.len());
    if k < band_count_y {
        lemma_ordered(curves, positions, Axis::Y, band_count_y as int, k);
        lemma_lists_same_length(curves, positions, Axis::Y, band_count_y as int, k);
    } else {
        let b = k - band_count_y;
        lemma_ordered(curves, positions, Axis::X, band_count_x as int, b);
        lemma_lists_same_length(curves, positions, Axis::X, band_count_x as int, b);
    }
}

/// How many curves of a list begin at or before a place.
pub open spec fn begun_by(
    list: Seq<usize>,
    curves: Seq<QuadCurve>,
    horizontal: bool,
    place: int,
) -> int
    decreases list.len(),
{
    if list.len() == 0 {
        0
    } else {
        begun_by(list.drop_last(), curves, horizontal, place) + (if near_end(
            curves[list.last() as int],
            horizontal,
        ) <= place {
            1int
        } else {
            0
        })
    }
}

/// How many curves the longer side has when a band is split at the far end of
/// entry `d` of its falling list: one side walks the curves that end there or
/// later, the other those that begin there or earlier.
pub open spec fn longer_side(
    band: BandView,
    curves: Seq<QuadCurve>,
    horizontal: bool,
    d: int,
) -> int {
    let place = far_end(curves[band.falling[d] as int], horizontal);
    let left = begun_by(band.rising, curves, horizontal, place);
    if left > d + 1 {
        left
    } else {
        d + 1
    }
}

/// Whether entry `d` splits a band best: no entry leaves a shorter longer side,
/// none before it leaves an equally short one, and it is shorter than the whole.
pub open spec fn splits_best(
    band: BandView,
    curves: Seq<QuadCurve>,
    horizontal: bool,
    d: int,
) -> bool {
    let n = band.falling.len();
    &&& 0 <= d < n
    &&& longer_side(band, curves, horizontal, d) < n
    &&& forall|e: int|
        0 <= e < n ==> longer_side(band, curves, horizontal, d) <= #[trigger] longer_side(
            band,
            curves,
            horizontal,
            e,
        )
    &&& forall|e: int|
        0 <= e < d ==> longer_side(band, curves, horizontal, d) < #[trigger] longer_side(
            band,
            curves,
            horizontal,
            e,
        )
}

/// A number held within sixteen bits.
pub open spec fn held_in_sixteen(n: int) -> int {
    if n > 32767 {
        32767
    } else if n < -32768 {
        -32768
    } else {
        n
    }
}

proof fn lemma_begun_by(
    list: Seq<usize>,
    curves: Seq<QuadCurve>,
    horizontal: bool,
    keys: Seq<i32>,
    place: int,
)
    requires
        forall|p: int| 0 <= p < list.len() ==> (#[trigger] list[p]) < curves.len(),
        forall|i: int|
            0 <= i < curves.len() ==> #[trigger] keys[i] == near_end(curves[i], horizontal),
    ensures
        begun_by(list, curves, horizontal, place) == count_up_to(list, keys, place),
    decreases list.len(),
{
    if list.len() > 0 {
        let front = list.drop_last();
        assert forall|p: int| 0 <= p < front.len() implies (#[trigger] front[p]) < curves.len() by {
            assert(list[p] < curves.len());
        }
        lemma_begun_by(front, curves, horizontal, keys, place);
        assert(list[list.len() - 1] < curves.len());
        assert(keys[list.last() as int] == near_end(curves[list.last() as int], horizontal));
    }
}

/// What the split of a band is: the far end of the curve that splits it best, or
/// the middle of the glyph where no curve makes both sides shorter than the
/// whole.
pub open spec fn split_well(
    band: BandView,
    curves: Seq<QuadCurve>,
    horizontal: bool,
    middle: Scalar,
) -> bool {
    ||| exists|d: int, v: Scalar|
        #![trigger splits_best(band, curves, horizontal, d), quantized(v)]
        {
            &&& splits_best(band, curves, horizontal, d)
            &&& v.order() == far_end(curves[band.falling[d] as int], horizontal)
            &&& band.split == held_in_sixteen(quantized(v))
        }
    ||| {
        &&& band.split == held_in_sixteen(quantized(middle))
        &&& forall|d: int|
            0 <= d < band.falling.len() ==> #[trigger] longer_side(band, curves, horizontal, d)
                >= band.falling.len()
    }
}

proof fn lemma_split(
    curves: Seq<QuadCurve>,
    positions: Seq<BandPosition>,
    axis: Axis,
    count: int,
    band: int,
    middle: Scalar,
)
    requires
        curves.len() <= usize::MAX,
        forall|i: int| 0 <= i < curves.len() ==> curve_numeric(#[trigger] curves[i]),
    ensures
        split_well(
            band_of(curves, positions, axis, count, band, middle),
            curves,
            axis == Axis::Y,
            middle,
        ),
{
    let horizontal = axis == Axis::Y;
    let view = band_of(curves, positions, axis, count, band, middle);
    let lists = lists_of(curves, positions, axis, count, band);
    let n = lists.falling.len();
    lemma_ordered(curves, positions, axis, count, band);
    lemma_best_split(lists, n);
    assert forall|d: int| 0 <= d < n implies #[trigger] longer_side(view, curves, horizontal, d)
        == lists.worst(d) by {
        let i = lists.falling[d] as int;
        assert(lists.falling_keys[i] == -far_end(curves[i], horizontal));
        assert forall|j: int| 0 <= j < curves.len() implies #[trigger] lists.rising_keys[j]
            == near_end(curves[j], horizontal) by {
            assert(lists.falling_keys[j] == -far_end(curves[j], horizontal));
        }
        lemma_begun_by(
            lists.rising,
            curves,
            horizontal,
            lists.rising_keys,
            far_end(curves[i], horizontal),
        );
    }
    match lists.best_split(n) {
        Some(c) => {
            let i = lists.falling[c] as int;
            let v = curves[i].high(axis.other());
            assert(curve_numeric(curves[i]));
            assert(v.order() == far_end(curves[i], horizontal));
            assert forall|e: int| 0 <= e < n implies longer_side(view, curves, horizontal, c)
                <= #[trigger] longer_side(view, curves, horizontal, e) by {
                assert(lists.worst(c) <= lists.worst(e));
            }
            assert forall|e: int| 0 <= e < c implies longer_side(view, curves, horizontal, c)
                < #[trigger] longer_side(view, curves, horizontal, e) by {
                assert(lists.worst(c) < lists.worst(e));
            }
            assert(longer_side(view, curves, horizontal, c) == lists.worst(c));
            assert(splits_best(view, curves, horizontal, c));
            assert(view.split == held_in_sixteen(quantized(v)));
        },
        None => {
            assert forall|d: int| 0 <= d < n implies #[trigger] longer_side(
                view,
                curves,
                horizontal,
                d,
            ) >= n by {
                assert(lists.falling.len() <= lists.worst(d));
            }
        },
    }
}

/// Every band is split where the longer of its two sides is shortest; horizontal
/// bands along x, vertical ones along y.
pub proof fn lemma_bands_split_well(
    outline: GlyphOutline,
    geometry: BandGeometry,
    band_count_x: u32,
    band_count_y: u32,
    k: int,
)
    requires
        0 <= k < band_count_x + band_count_y,
        forall|i: int|
            0 <= i < outline.curves.len() ==> curve_numeric(#[trigger] outline.curves@[i]),
    ensures
        split_well(
            outline_bands(outline, geometry, band_count_x, band_count_y)[k],
            outline.curves@,
            k < band_count_y,
            if k < band_count_y {
                geometry.middle_x
            } else {
                geometry.middle_y
            },
        ),
{
    let curves = outline.curves@;
    let positions = geometry.positions@;
    assert(curves.len() == outline.curves.len());
    if k < band_count_y {
        lemma_split(curves, positions, Axis::Y, band_count_y as int, k, geometry.middle_x);
    } else {
        lemma_split(
            curves,
            positions,
            Axis::X,
            band_count_x as int,
            k - band_count_y,
            geometry.middle_y,
        );
    }
}

/// An offset is stored 32768 lower, so that it fits signed sixteen bits, and is
/// read back by adding as much.
pub proof fn lemma_offsets_are_biased(offset: int)
    ensures
        (encoded(offset) + 32768 - offset) % 65536 == 0,
        0 <= offset < 65536 ==> encoded(offset) + 32768 == offset,
{
}

/// What a reader finds for band `k`. The header of a band tells how many curves
/// it lists and where its two lists begin; each reference in a list tells where
/// a curve is stored.
pub open spec fn reader_finds(
    entries: Seq<i16>,
    k: int,
    band: BandView,
    locations: Seq<CurveLocation>,
) -> bool {
    let count = band.falling.len() as int;
    let falling = entries[4 * k + 1] + 32768;
    let rising = entries[4 * k + 2] + 32768;
    &&& entries[4 * k] == count
    &&& entries[4 * k + 3] == band.split
    &&& 0 <= falling && 4 * (falling + count) <= entries.len()
    &&& 0 <= rising && 4 * (rising + count) <= entries.len()
    &&& forall|p: int|
        #![trigger band.falling[p]]
        0 <= p < count ==> entries[4 * (falling + p)] + 32768
            == locations[band.falling[p] as int].offset
    &&& forall|p: int|
        #![trigger band.rising[p]]
        0 <= p < count ==> entries[4 * (rising + p)] + 32768
            == locations[band.rising[p] as int].offset
}

/// Whoever reads the stored bands finds what they hold.
pub proof fn lemma_stored_bands_are_read(
    outline: GlyphOutline,
    geometry: BandGeometry,
    band_count_x: u32,
    band_count_y: u32,
    locations: Seq<CurveLocation>,
    k: int,
)
    requires
        0 <= k < band_count_x + band_count_y,
        outline.curves.len() < 32768,
        band_texels(outline, geometry, band_count_x, band_count_y) < 65536,
        forall|i: int|
            0 <= i < outline.curves.len() ==> (#[trigger] locations[i]).offset < 65536,
    ensures
        ({
            let bands = outline_bands(outline, geometry, band_count_x, band_count_y);
            reader_finds(band_entries(bands, locations), k, bands[k], locations)
        }),
{
    lemma_read_any_band(outline, geometry, band_count_x, band_count_y, locations, k);
}

/// Whoever reads a stored band finds, in each of its lists, the places of
/// exactly the curves that a ray in the band can meet.
pub proof fn lemma_reader_meets_curve(
    outline: GlyphOutline,
    geometry: BandGeometry,
    band_count_x: u32,
    band_count_y: u32,
    locations: Seq<CurveLocation>,
    b: int,
    i: int,
)
    requires
        0 <= b < band_count_y,
        0 <= i < outline.curves.len(),
        outline.curves.len() < 32768,
        band_texels(outline, geometry, band_count_x, band_count_y) < 65536,
        forall|i: int|
            0 <= i < outline.curves.len() ==> (#[trigger] locations[i]).offset < 65536,
        forall|i: int, j: int|
            0 <= i < j < outline.curves.len() ==> (#[trigger] locations[i]).offset != (
            #[trigger] locations[j]).offset,
    ensures
        ({
            let bands = outline_bands(outline, geometry, band_count_x, band_count_y);
            let entries = band_entries(bands, locations);
            let at = entries[4 * b + 1] + 32768;
            let at_rising = entries[4 * b + 2] + 32768;
            let met = meets_horizontal(
                outline.curves@[i],
                geometry.positions@[i],
                band_count_y as int,
                b,
            );
            &&& met <==> exists|p: int|
                0 <= p < entries[4 * b] && #[trigger] entries[4 * (at + p)] + 32768
                    == locations[i].offset
            &&& met <==> exists|p: int|
                0 <= p < entries[4 * b] && #[trigger] entries[4 * (at_rising + p)] + 32768
                    == locations[i].offset
        }),
{
    let bands = outline_bands(outline, geometry, band_count_x, band_count_y);
    let entries = band_entries(bands, locations);
    let at = entries[4 * b + 1] + 32768;
    let at_rising = entries[4 * b + 2] + 32768;
    let band = bands[b];
    lemma_bands_list_curve(outline, geometry, band_count_x, band_count_y, b, i);
    lemma_stored_bands_are_read(outline, geometry, band_count_x, band_count_y, locations, b);
    lemma_read_any_band(outline, geometry, band_count_x, band_count_y, locations, b);
    let met = meets_horizontal(
        outline.curves@[i],
        geometry.positions@[i],
        band_count_y as int,
        b,
    );
    if met {
        let p = choose|p: int| 0 <= p < band.falling.len() && band.falling[p] == i as usize;
        assert(band.falling[p] as int == i);
        assert(entries[4 * (at + p)] + 32768 == locations[i].offset);
        let q = choose|q: int| 0 <= q < band.rising.len() && band.rising[q] == i as usize;
        assert(band.rising[q] as int == i);
        assert(entries[4 * (at_rising + q)] + 32768 == locations[i].offset);
    }
    if exists|p: int|
        0 <= p < entries[4 * b] && #[trigger] entries[4 * (at + p)] + 32768
            == locations[i].offset {
        let p = choose|p: int|
            0 <= p < entries[4 * b] && #[trigger] entries[4 * (at + p)] + 32768
                == locations[i].offset;
        let j = band.falling[p] as int;
        assert(locations[j].offset == locations[i].offset);
        assert(j == i);
        assert(band.falling.contains(i as usize));
    }
    if exists|p: int|
        0 <= p < entries[4 * b] && #[trigger] entries[4 * (at_rising + p)] + 32768
            == locations[i].offset {
        let p = choose|p: int|
            0 <= p < entries[4 * b] && #[trigger] entries[4 * (at_rising + p)] + 32768
                == locations[i].offset;
        let j = band.rising[p] as int;
        assert(locations[j].offset == locations[i].offset);
        assert(j == i);
        assert(band.rising.contains(i as usize));
    }
}

/// The low half of a word as a signed number.
pub open spec fn low_half(word: i32) -> int {
    (word + 32768) % 65536 - 32768
}

/// The high half of a word as a signed number.
pub open spec fn high_half(word: i32) -> int {
    word as int / 65536
}

/// Whether texel `at` of a blob and the one behind it hold a curve: its first
/// point, its second, and its third, each x before y.
pub open spec fn holds_curve(blob: Seq<i32>, at: int, c: QuadCurve) -> bool {
    &&& 0 <= at
    &&& 2 * at + 2 < blob.len()
    &&& low_half(blob[2 * at]) == quantized(c.p1.x)
    &&& high_half(blob[2 * at]) == quantized(c.p1.y)
    &&& low_half(blob[2 * at + 1]) == quantized(c.p2.x)
    &&& high_half(blob[2 * at + 1]) == quantized(c.p2.y)
    &&& low_half(blob[2 * at + 2]) == quantized(c.p3.x)
    &&& high_half(blob[2 * at + 2]) == quantized(c.p3.y)
}

proof fn lemma_halves(word: i32)
    ensures
        unpacked_low(word) == low_half(word),
        unpacked_high(word) == high_half(word),
{
    let n = word as int;
    let r = n % 65536;
    assert(n == 65536 * (n / 65536) + r);
    if r >= 32768 {
        assert((n + 32768) % 65536 == r - 32768);
    } else {
        assert((n + 32768) % 65536 == r + 32768);
    }
    assert(-32768 <= n / 65536 < 32768);
}

proof fn lemma_holds(blob: Seq<i32>, at: int, c: QuadCurve)
    requires
        blob_holds(blob, at, c),
    ensures
        holds_curve(blob, at, c),
{
    lemma_halves(blob[2 * at]);
    lemma_halves(blob[2 * at + 1]);
    lemma_halves(blob[2 * at + 2]);
}

/// Whoever walks a band of a glyph blob meets the curves of the band with their
/// quantized points. The first texels are headers; a header holds the number of
/// curves, the texels at which the lists begin, less 32768, and the split; each
/// texel of a list holds the texel of a curve, less 32768.
pub proof fn lemma_blob_is_walked(
    outline: GlyphOutline,
    geometry: BandGeometry,
    band_count_x: u32,
    band_count_y: u32,
    k: int,
    p: int,
)
    requires
        0 <= k < band_count_x + band_count_y,
        outline.curves.len() < 32768,
        mono_texels(outline, geometry, band_count_x, band_count_y) < 65536,
        outline_quantizable(outline),
        0 <= p < outline_bands(outline, geometry, band_count_x, band_count_y)[k].falling.len(),
        p < outline_bands(outline, geometry, band_count_x, band_count_y)[k].rising.len(),
    ensures
        ({
            let blob = mono_blob(outline, geometry, band_count_x, band_count_y);
            let band = outline_bands(outline, geometry, band_count_x, band_count_y)[k];
            let falling = high_half(blob[2 * k]) + 32768;
            let rising = low_half(blob[2 * k + 1]) + 32768;
            &&& low_half(blob[2 * k]) == band.falling.len()
            &&& high_half(blob[2 * k + 1]) == band.split
            &&& holds_curve(
                blob,
                low_half(blob[2 * (falling + p)]) + 32768,
                outline.curves@[band.falling[p] as int],
            )
            &&& holds_curve(
                blob,
                low_half(blob[2 * (rising + p)]) + 32768,
                outline.curves@[band.rising[p] as int],
            )
        }),
{
    let band = outline_bands(outline, geometry, band_count_x, band_count_y)[k];
    let blob = mono_blob(outline, geometry, band_count_x, band_count_y);
    lemma_walk_blob_band(outline, geometry, band_count_x, band_count_y, k);
    lemma_halves(blob[2 * k]);
    lemma_halves(blob[2 * k + 1]);
    let falling = high_half(blob[2 * k]) + 32768;
    let rising = low_half(blob[2 * k + 1]) + 32768;
    lemma_halves(blob[2 * (falling + p)]);
    lemma_halves(blob[2 * (rising + p)]);
    let first = outline.curves@[band.falling[p] as int];
    let second = outline.curves@[band.rising[p] as int];
    assert(falling_reference(blob, k, p) == low_half(blob[2 * (falling + p)]) + 32768);
    assert(rising_reference(blob, k, p) == low_half(blob[2 * (rising + p)]) + 32768);
    lemma_holds(blob, falling_reference(blob, k, p), first);
    lemma_holds(blob, rising_reference(blob, k, p), second);
}

/// Whether a coordinate is no number, or four times it fits sixteen bits.
pub open spec fn fits_sixteen(v: Scalar) -> bool {
    v.nan() || (v.finite() && 4 * v.value() <= 32767 * pow2(149) && -(32767 * pow2(149)) <= 4
        * v.value())
}

/// Whether both coordinates of a point fit sixteen bits.
pub open spec fn point_fits(p: Point) -> bool {
    fits_sixteen(p.x) && fits_sixteen(p.y)
}

proof fn lemma_fits_sixteen(v: Scalar)
    ensures
        beyond(v) <==> !fits_sixteen(v),
{
    if v.finite() {
        if v.magnitude() <= QUANTIZED_LIMIT {
            lemma_quantized_fits(v);
        } else {
            lemma_beyond_quantized_range(v);
        }
        lemma_value_sign(v);
    }
}

proof fn lemma_value_sign(v: Scalar)
    requires
        v.finite(),
    ensures
        magnitude_value(v.magnitude()) >= 0,
{
    let e = v.magnitude() / 0x80_0000;
    let f = v.magnitude() % 0x80_0000;
    if e != 0 {
        lemma_pow2_pos((e - 1) as nat);
        assert((f + 0x80_0000) * pow2((e - 1) as nat) >= 0) by (nonlinear_arith)
            requires
                f >= 0,
                pow2((e - 1) as nat) > 0,
        ;
    }
}

/// An outline is packed exactly when four times each of its coordinates, those
/// of its bounds and those of all control points, fits signed sixteen bits.
pub proof fn lemma_packed_outlines(outline: GlyphOutline)
    ensures
        quantizable(outline.bounds) <==> fits_sixteen(outline.bounds.min_x) && fits_sixteen(
            outline.bounds.min_y,
        ) && fits_sixteen(outline.bounds.max_x) && fits_sixteen(outline.bounds.max_y),
        outline_quantizable(outline) <==> {
            &&& fits_sixteen(outline.bounds.min_x) && fits_sixteen(outline.bounds.min_y)
            &&& fits_sixteen(outline.bounds.max_x) && fits_sixteen(outline.bounds.max_y)
            &&& forall|i: int|
                0 <= i < outline.curves.len() ==> {
                    &&& point_fits((#[trigger] outline.curves@[i]).p1)
                    &&& point_fits(outline.curves@[i].p2)
                    &&& point_fits(outline.curves@[i].p3)
                }
        },
{
    assert forall|v: Scalar| beyond(v) <==> !#[trigger] fits_sixteen(v) by {
        lemma_fits_sixteen(v);
    }
    lemma_fits_sixteen(outline.bounds.min_x);
    lemma_fits_sixteen(outline.bounds.min_y);
    lemma_fits_sixteen(outline.bounds.max_x);
    lemma_fits_sixteen(outline.bounds.max_y);
    assert forall|i: int| 0 <= i < outline.curves.len() implies (
    curve_quantizable(#[trigger] outline.curves@[i]) <==> point_fits(
        outline.curves@[i].p1,
    ) && point_fits(outline.curves@[i].p2) && point_fits(outline.curves@[i].p3)) by {
        let c = outline.curves@[i];
        lemma_fits_sixteen(c.p1.x);
        lemma_fits_sixteen(c.p1.y);
        lemma_fits_sixteen(c.p2.x);
        lemma_fits_sixteen(c.p2.y);
        lemma_fits_sixteen(c.p3.x);
        lemma_fits_sixteen(c.p3.y);
    }
    if outline_quantizable(outline) {
        assert forall|i: int| 0 <= i < outline.curves.len() implies {
            &&& point_fits((#[trigger] outline.curves@[i]).p1)
            &&& point_fits(outline.curves@[i].p2)
            &&& point_fits(outline.curves@[i].p3)
        } by {
            assert(curve_quantizable(outline.curves@[i]));
        }
    }
}

/// The stored bands are their headers, one texel each, and the lists of one band
/// after the other, one texel for each curve that they list.
pub proof fn lemma_lists_lie_close(bands: Seq<BandView>, k: int)
    requires
        0 <= k < bands.len(),
    ensures
        list_start(bands, 0) == bands.len(),
        list_start(bands, k + 1) == list_start(bands, k) + bands[k].falling.len()
            + bands[k].rising.len(),
{
}

/// A reference takes one texel, of which the last three numbers are zero.
pub proof fn lemma_references_are_padded(
    list: Seq<usize>,
    locations: Seq<CurveLocation>,
    p: int,
)
    requires
        0 <= p < list.len(),
    ensures
        ({
            let r = reference_texels(list, locations);
            let offset = locations[list[p] as int].offset;
            &&& r.len() == 4 * list.len()
            &&& (r[4 * p] + 32768 - offset) % 65536 == 0
            &&& r[4 * p + 1] == 0 && r[4 * p + 2] == 0 && r[4 * p + 3] == 0
        }),
    decreases list.len(),
{
    let front = list.drop_last();
    lemma_references_length(front, locations);
    if p < front.len() {
        lemma_references_are_padded(front, locations, p);
        assert(front[p] == list[p]);
    }
}

proof fn lemma_references_length(list: Seq<usize>, locations: Seq<CurveLocation>)
    ensures
        reference_texels(list, locations).len() == 4 * list.len(),
    decreases list.len(),
{
    if list.len() > 0 {
        lemma_references_length(list.drop_last(), locations);
    }
}

/// The curve region begins empty. A curve that begins where the one before it ends
/// takes one texel more and begins in the last texel so far; any other takes two
/// texels of its own. The last texel holds nothing but a point.
pub proof fn lemma_curves_share_points(curves: Seq<QuadCurve>, n: nat)
    requires
        n < curves.len(),
    ensures
        ({
            let before = curve_texels(curves, n);
            let after = curve_texels(curves, n + 1);
            let shared = n > 0 && curves[n as int].p1.x.equal(curves[n - 1].p3.x)
                && curves[n as int].p1.y.equal(curves[n - 1].p3.y);
            &&& curve_texels(curves, 0).len() == 0
            &&& shared ==> after.len() == before.len() + 1 && curve_start(curves, n as int)
                == before.len() - 1
            &&& !shared ==> after.len() == before.len() + 2 && curve_start(curves, n as int)
                == before.len()
            &&& after.last().z == 0 && after.last().w == 0
            &&& curve_starts(curves).len() == curves.len()
            &&& 0 <= curve_start(curves, n as int) <= u32::MAX ==> curve_starts(
                curves,
            )[n as int].offset == curve_start(curves, n as int)
        }),
{
}

/// A glyph blob is its bands and its curves, two words for each texel.
pub proof fn lemma_size_of_blob(
    outline: GlyphOutline,
    geometry: BandGeometry,
    band_count_x: u32,
    band_count_y: u32,
)
    ensures
        mono_texels(outline, geometry, band_count_x, band_count_y) == list_start(
            outline_bands(outline, geometry, band_count_x, band_count_y),
            band_count_x + band_count_y,
        ) + curve_texels(outline.curves@, outline.curves@.len()).len(),
        mono_blob(outline, geometry, band_count_x, band_count_y).len() == 2 * mono_texels(
            outline,
            geometry,
            band_count_x,
            band_count_y,
        ),
{
    lemma_blob_length(outline, geometry, band_count_x, band_count_y);
}

} // verus!
