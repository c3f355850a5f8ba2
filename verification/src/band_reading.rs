//! What a reader finds in the stored form of a band structure.

use crate::band::{
    band_entries, band_texels, bands_of, decoded, header_texel, header_texels,
    lemma_bands_listed, lemma_decode_encoded, lemma_entries_length, lemma_list_start_rises,
    lemma_reference_texels, list_start, list_texels, outline_bands, reference_texels, BandGeometry,
    BandView, CurveLocation,
};
use crate::band_lists::{lemma_band_list, list_keys, lists_band};
use crate::outline::{Axis, GlyphOutline, QuadCurve};
use vstd::prelude::*;

verus! {

proof fn lemma_header_texels(bands: Seq<BandView>, n: nat, k: int)
    requires
        0 <= k < n,
    ensures
        header_texels(bands, n).len() == 4 * n,
        header_texels(bands, n).subrange(4 * k, 4 * k + 4) == header_texel(bands, k),
    decreases n,
{
    lemma_entries_length(bands, Seq::empty(), n);
    lemma_entries_length(bands, Seq::empty(), (n - 1) as nat);
    let all = header_texels(bands, n);
    let front = header_texels(bands, (n - 1) as nat);
    if k < n - 1 {
        lemma_header_texels(bands, (n - 1) as nat, k);
        assert(all.subrange(4 * k, 4 * k + 4) =~= front.subrange(4 * k, 4 * k + 4));
    } else {
        assert(all.subrange(4 * k, 4 * k + 4) =~= header_texel(bands, k));
    }
}

proof fn lemma_list_texels(
    bands: Seq<BandView>,
    locations: Seq<CurveLocation>,
    n: nat,
    k: int,
)
    requires
        0 <= k < n,
    ensures
        ({
            let all = list_texels(bands, locations, n);
            let from = 4 * (list_start(bands, k) - bands.len());
            let middle = from + 4 * bands[k].falling.len();
            let to = middle + 4 * bands[k].rising.len();
            &&& 0 <= from <= middle <= to <= all.len()
            &&& all.subrange(from, middle) == reference_texels(bands[k].falling, locations)
            &&& all.subrange(middle, to) == reference_texels(bands[k].rising, locations)
        }),
    decreases n,
{
    lemma_entries_length(bands, locations, n);
    lemma_entries_length(bands, locations, (n - 1) as nat);
    lemma_reference_texels(bands[n - 1].falling, locations);
    lemma_reference_texels(bands[n - 1].rising, locations);
    lemma_list_start_rises(bands, k, n - 1);
    let all = list_texels(bands, locations, n);
    let front = list_texels(bands, locations, (n - 1) as nat);
    let from = 4 * (list_start(bands, k) - bands.len());
    let middle = from + 4 * bands[k].falling.len();
    let to = middle + 4 * bands[k].rising.len();
    if k < n - 1 {
        lemma_list_texels(bands, locations, (n - 1) as nat, k);
        assert(all.subrange(from, middle) =~= front.subrange(from, middle));
        assert(all.subrange(middle, to) =~= front.subrange(middle, to));
    } else {
        assert(all.subrange(from, middle) =~= reference_texels(bands[k].falling, locations));
        assert(all.subrange(middle, to) =~= reference_texels(bands[k].rising, locations));
    }
}

/// What a reader finds in the stored form of `bands` for band `k`: the header
/// gives the number of curves and where both lists begin, and the texels
/// there give the locations of the listed curves in order.
pub open spec fn reads_band(
    entries: Seq<i16>,
    band: BandView,
    k: int,
    locations: Seq<CurveLocation>,
) -> bool {
    let count = entries[4 * k] as int;
    let falling = decoded(entries[4 * k + 1]);
    let rising = decoded(entries[4 * k + 2]);
    &&& count == band.falling.len()
    &&& count == band.rising.len()
    &&& entries[4 * k + 3] == band.split
    &&& 4 * (falling + count) <= entries.len()
    &&& 4 * (rising + count) <= entries.len()
    &&& forall|p: int|
        #![trigger band.falling[p]]
        0 <= p < count ==> decoded(entries[4 * (falling + p)])
            == locations[band.falling[p] as int].offset
    &&& forall|p: int|
        #![trigger band.rising[p]]
        0 <= p < count ==> decoded(entries[4 * (rising + p)])
            == locations[band.rising[p] as int].offset
}

/// Every band is read back from the stored form, as long as the offsets stay
/// below 65536 and the lists below 32768 entries.
pub proof fn lemma_read_band(bands: Seq<BandView>, locations: Seq<CurveLocation>, k: int)
    requires
        0 <= k < bands.len(),
        bands[k].falling.len() == bands[k].rising.len(),
        bands[k].falling.len() < 32768,
        list_start(bands, k) + bands[k].falling.len() < 65536,
        forall|p: int|
            0 <= p < bands[k].falling.len() ==> locations[#[trigger] bands[k].falling[p] as int].offset
                < 65536,
        forall|p: int|
            0 <= p < bands[k].rising.len() ==> locations[#[trigger] bands[k].rising[p] as int].offset
                < 65536,
    ensures
        reads_band(band_entries(bands, locations), bands[k], k, locations),
{
    let n = bands.len();
    let entries = band_entries(bands, locations);
    let headers = header_texels(bands, n);
    let lists = list_texels(bands, locations, n);
    let band = bands[k];
    lemma_header_texels(bands, n, k);
    lemma_list_texels(bands, locations, n, k);
    lemma_list_start_rises(bands, k, k);
    let header = headers.subrange(4 * k, 4 * k + 4);
    assert(header[0] == entries[4 * k]);
    assert(header[1] == entries[4 * k + 1]);
    assert(header[2] == entries[4 * k + 2]);
    assert(header[3] == entries[4 * k + 3]);
    let start = list_start(bands, k);
    let count = band.falling.len() as int;
    lemma_decode_encoded(start);
    lemma_decode_encoded(start + count);
    lemma_reference_texels(band.falling, locations);
    lemma_reference_texels(band.rising, locations);
    let from = 4 * (start - n);
    assert forall|p: int|
        #![trigger band.falling[p]]
        0 <= p < count implies decoded(entries[4 * (start + p)])
        == locations[band.falling[p] as int].offset by {
        let falling = reference_texels(band.falling, locations);
        assert(lists.subrange(from, from + 4 * count)[4 * p] == lists[from + 4 * p]);
        assert(entries[4 * (start + p)] == falling[4 * p]);
        lemma_decode_encoded(locations[band.falling[p] as int].offset as int);
    }
    assert forall|p: int|
        #![trigger band.rising[p]]
        0 <= p < count implies decoded(entries[4 * (start + count + p)])
        == locations[band.rising[p] as int].offset by {
        let rising = reference_texels(band.rising, locations);
        assert(lists.subrange(from + 4 * count, from + 8 * count)[4 * p] == lists[from + 4 * count
            + 4 * p]);
        assert(entries[4 * (start + count + p)] == rising[4 * p]);
        lemma_decode_encoded(locations[band.rising[p] as int].offset as int);
    }
}

/// Reading horizontal band `b` finds a curve exactly when the curve reaches
/// into the band.
pub proof fn lemma_read_horizontal_band(
    outline: GlyphOutline,
    geometry: BandGeometry,
    band_count_x: u32,
    band_count_y: u32,
    locations: Seq<CurveLocation>,
    b: int,
)
    requires
        0 <= b < band_count_y,
        outline.curves.len() < 32768,
        band_texels(outline, geometry, band_count_x, band_count_y) < 65536,
        forall|i: int|
            0 <= i < outline.curves.len() ==> (#[trigger] locations[i]).offset < 65536,
    ensures
        ({
            let bands = outline_bands(outline, geometry, band_count_x, band_count_y);
            let curves = outline.curves@;
            let keys = list_keys(curves, Axis::X, true);
            &&& reads_band(band_entries(bands, locations), bands[b], b, locations)
            &&& lists_band(
                bands[b].falling,
                curves,
                geometry.positions@,
                Axis::Y,
                band_count_y as int,
                b,
                keys,
                curves.len(),
            )
            &&& lists_band(
                bands[b].rising,
                curves,
                geometry.positions@,
                Axis::Y,
                band_count_y as int,
                b,
                list_keys(curves, Axis::X, false),
                curves.len(),
            )
        }),
{
    let curves = outline.curves@;
    let bands = outline_bands(outline, geometry, band_count_x, band_count_y);
    lemma_read_offsets(curves, geometry, band_count_x as int, band_count_y as int, b);
    lemma_read_band(bands, locations, b);
    let count = band_count_y as int;
    lemma_band_list(
        curves,
        geometry.positions@,
        Axis::Y,
        count,
        b,
        list_keys(curves, Axis::X, true),
        curves.len(),
    );
    lemma_band_list(
        curves,
        geometry.positions@,
        Axis::Y,
        count,
        b,
        list_keys(curves, Axis::X, false),
        curves.len(),
    );
}

/// Reading vertical band `b` finds a curve exactly when the curve reaches
/// into the band. The vertical bands stand behind the horizontal ones.
pub proof fn lemma_read_vertical_band(
    outline: GlyphOutline,
    geometry: BandGeometry,
    band_count_x: u32,
    band_count_y: u32,
    locations: Seq<CurveLocation>,
    b: int,
)
    requires
        0 <= b < band_count_x,
        outline.curves.len() < 32768,
        band_texels(outline, geometry, band_count_x, band_count_y) < 65536,
        forall|i: int|
            0 <= i < outline.curves.len() ==> (#[trigger] locations[i]).offset < 65536,
    ensures
        ({
            let bands = outline_bands(outline, geometry, band_count_x, band_count_y);
            let curves = outline.curves@;
            let k = band_count_y + b;
            &&& reads_band(band_entries(bands, locations), bands[k], k, locations)
            &&& lists_band(
                bands[k].falling,
                curves,
                geometry.positions@,
                Axis::X,
                band_count_x as int,
                b,
                list_keys(curves, Axis::Y, true),
                curves.len(),
            )
            &&& lists_band(
                bands[k].rising,
                curves,
                geometry.positions@,
                Axis::X,
                band_count_x as int,
                b,
                list_keys(curves, Axis::Y, false),
                curves.len(),
            )
        }),
{
    let curves = outline.curves@;
    let bands = outline_bands(outline, geometry, band_count_x, band_count_y);
    let k = band_count_y + b;
    lemma_read_offsets(curves, geometry, band_count_x as int, band_count_y as int, k);
    lemma_read_band(bands, locations, k);
    let count = band_count_x as int;
    lemma_band_list(
        curves,
        geometry.positions@,
        Axis::X,
        count,
        b,
        list_keys(curves, Axis::Y, true),
        curves.len(),
    );
    lemma_band_list(
        curves,
        geometry.positions@,
        Axis::X,
        count,
        b,
        list_keys(curves, Axis::Y, false),
        curves.len(),
    );
}

proof fn lemma_read_offsets(
    curves: Seq<QuadCurve>,
    geometry: BandGeometry,
    band_count_x: int,
    band_count_y: int,
    k: int,
)
    requires
        0 <= band_count_x,
        0 <= band_count_y,
        0 <= k < band_count_x + band_count_y,
        curves.len() < 32768,
        list_start(
            bands_of(curves, geometry, band_count_x, band_count_y),
            band_count_x + band_count_y,
        ) < 65536,
    ensures
        ({
            let bands = bands_of(curves, geometry, band_count_x, band_count_y);
            let band = bands[k];
            &&& band.falling.len() == band.rising.len()
            &&& band.falling.len() < 32768
            &&& list_start(bands, k) + band.falling.len() < 65536
            &&& forall|p: int| 0 <= p < band.falling.len() ==> #[trigger] band.falling[p]
                < curves.len()
            &&& forall|p: int| 0 <= p < band.rising.len() ==> #[trigger] band.rising[p]
                < curves.len()
        }),
{
    let bands = bands_of(curves, geometry, band_count_x, band_count_y);
    lemma_bands_listed(curves, geometry, band_count_x, band_count_y, k);
    lemma_list_start_rises(bands, k + 1, band_count_x + band_count_y);
    lemma_list_start_rises(bands, k, k);
}

/// Every band of an outline is read back from the stored form, and it lists
/// curves of the outline only.
pub proof fn lemma_read_any_band(
    outline: GlyphOutline,
    geometry: BandGeometry,
    band_count_x: u32,
    band_count_y: u32,
    locations: Seq<CurveLocation>,
    k: int,
)
    requires
        0 <= k < band_count_x + band_count_y,
        outline.curves.len() < 32768,
        band_texels(outline, geometry, band_count_x, band_count_y) < 65536,
        forall|i: int|
            0 <= i < outline.curves.len() ==> (#[trigger] locations[i]).offset < 65536,
    ensures
        ({
            let bands = outline_bands(outline, geometry, band_count_x, band_count_y);
            let band = bands[k];
            let entries = band_entries(bands, locations);
            &&& reads_band(entries, band, k, locations)
            &&& 0 <= decoded(entries[4 * k + 1])
            &&& 0 <= decoded(entries[4 * k + 2])
            &&& forall|p: int| 0 <= p < band.falling.len() ==> #[trigger] band.falling[p]
                < outline.curves.len()
            &&& forall|p: int| 0 <= p < band.rising.len() ==> #[trigger] band.rising[p]
                < outline.curves.len()
        }),
{
    let curves = outline.curves@;
    let bands = outline_bands(outline, geometry, band_count_x, band_count_y);
    lemma_read_offsets(curves, geometry, band_count_x as int, band_count_y as int, k);
    lemma_read_band(bands, locations, k);
}

} // verus!
