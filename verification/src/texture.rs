//! Glyphs laid out in two textures: one for curves, one for bands.

use crate::outline::QuadCurve;
use crate::scalar::Scalar;
use vstd::prelude::*;

verus! {

/// Four coordinates of the curve texture.
#[derive(Clone, Copy, Debug, PartialEq, Eq, Structural)]
pub struct CurveTexelF {
    pub x: Scalar,
    pub y: Scalar,
    pub z: Scalar,
    pub w: Scalar,
}

/// Four numbers of the band texture.
#[derive(Clone, Copy, Debug, PartialEq, Eq, Structural)]
pub struct BandTexel {
    pub x: u32,
    pub y: u32,
    pub z: u32,
    pub w: u32,
}

/// A glyph with its place in both textures.
#[derive(Debug)]
pub struct PreparedGlyph {
    pub curves: Vec<QuadCurve>,
    pub entries: Vec<u32>,
    /// Texel of the curve texture at which the curves begin.
    pub curve_offset: u32,
    /// Texel of the band texture at which the bands begin.
    pub band_offset: u32,
}

/// The two texels of a curve: its first two points, then its third.
pub open spec fn curve_pair(c: QuadCurve) -> Seq<CurveTexelF> {
    let zero = Scalar { bits: 0 };
    seq![
        CurveTexelF { x: c.p1.x, y: c.p1.y, z: c.p2.x, w: c.p2.y },
        CurveTexelF { x: c.p3.x, y: c.p3.y, z: zero, w: zero },
    ]
}

/// The texels of the first `n` curves.
pub open spec fn glyph_curve_texels(curves: Seq<QuadCurve>, n: nat) -> Seq<CurveTexelF>
    decreases n,
{
    if n == 0 {
        Seq::empty()
    } else {
        glyph_curve_texels(curves, (n - 1) as nat) + curve_pair(curves[n - 1])
    }
}

/// The curve texels of the first `n` glyphs.
pub open spec fn all_curve_texels(glyphs: Seq<PreparedGlyph>, n: nat) -> Seq<CurveTexelF>
    decreases n,
{
    if n == 0 {
        Seq::empty()
    } else {
        all_curve_texels(glyphs, (n - 1) as nat) + glyph_curve_texels(
            glyphs[n - 1].curves@,
            glyphs[n - 1].curves@.len(),
        )
    }
}

/// The curve texture of glyphs. A texture has at least one texel.
pub fn build_curve_texture(glyphs: &Vec<PreparedGlyph>) -> (r: Vec<CurveTexelF>)
    ensures
        r@ == ({
            let all = all_curve_texels(glyphs@, glyphs@.len());
            let zero = Scalar { bits: 0 };
            if all.len() == 0 {
                seq![CurveTexelF { x: zero, y: zero, z: zero, w: zero }]
            } else {
                all
            }
        }),
{
    let zero = Scalar::from_bits(0);
    let mut texels: Vec<CurveTexelF> = Vec::new();
    let mut g: usize = 0;
    while g < glyphs.len()
        invariant
            g <= glyphs.len(),
            zero == (Scalar { bits: 0 }),
            texels@ == all_curve_texels(glyphs@, g as nat),
        decreases glyphs.len() - g,
    {
        let curves = &glyphs[g].curves;
        let ghost before = texels@;
        let mut i: usize = 0;
        assert(texels@ =~= before + glyph_curve_texels(curves@, 0));
        while i < curves.len()
            invariant
                i <= curves.len(),
                zero == (Scalar { bits: 0 }),
                texels@ == before + glyph_curve_texels(curves@, i as nat),
            decreases curves.len() - i,
        {
            let c = curves[i];
            texels.push(CurveTexelF { x: c.p1.x, y: c.p1.y, z: c.p2.x, w: c.p2.y });
            texels.push(CurveTexelF { x: c.p3.x, y: c.p3.y, z: zero, w: zero });
            i = i + 1;
            assert(texels@ =~= before + glyph_curve_texels(curves@, i as nat));
        }
        g = g + 1;
    }
    if texels.len() == 0 {
        texels.push(CurveTexelF { x: zero, y: zero, z: zero, w: zero });
        assert(texels@ =~= seq![CurveTexelF { x: zero, y: zero, z: zero, w: zero }]);
    }
    texels
}

/// Number `i` of a row, or 0 past its end.
pub open spec fn entry_or_zero(entries: Seq<u32>, i: int) -> u32 {
    if 0 <= i < entries.len() {
        entries[i]
    } else {
        0
    }
}

/// The texels that hold a row of numbers, the last one filled up with zeros.
pub open spec fn entry_texels(entries: Seq<u32>) -> Seq<BandTexel> {
    Seq::new(
        (entries.len() + 3) / 4,
        |t: int|
            BandTexel {
                x: entry_or_zero(entries, 4 * t),
                y: entry_or_zero(entries, 4 * t + 1),
                z: entry_or_zero(entries, 4 * t + 2),
                w: entry_or_zero(entries, 4 * t + 3),
            },
    )
}

/// The band texels of the first `n` glyphs.
pub open spec fn all_band_texels(glyphs: Seq<PreparedGlyph>, n: nat) -> Seq<BandTexel>
    decreases n,
{
    if n == 0 {
        Seq::empty()
    } else {
        all_band_texels(glyphs, (n - 1) as nat) + entry_texels(glyphs[n - 1].entries@)
    }
}

fn pick(entries: &Vec<u32>, at: usize, k: usize) -> (r: u32)
    requires
        at <= entries.len(),
        k < 4,
    ensures
        r == entry_or_zero(entries@, at + k),
{
    if k < entries.len() - at {
        entries[at + k]
    } else {
        0
    }
}

/// The band texture of glyphs. A texture has at least one texel.
pub fn build_band_texture(glyphs: &Vec<PreparedGlyph>) -> (r: Vec<BandTexel>)
    ensures
        r@ == ({
            let all = all_band_texels(glyphs@, glyphs@.len());
            if all.len() == 0 {
                seq![BandTexel { x: 0, y: 0, z: 0, w: 0 }]
            } else {
                all
            }
        }),
{
    let mut texels: Vec<BandTexel> = Vec::new();
    let mut g: usize = 0;
    while g < glyphs.len()
        invariant
            g <= glyphs.len(),
            texels@ == all_band_texels(glyphs@, g as nat),
        decreases glyphs.len() - g,
    {
        let entries = &glyphs[g].entries;
        let ghost before = texels@;
        let ghost row = entry_texels(entries@);
        let mut at: usize = 0;
        let ghost mut t: int = 0;
        assert(texels@ =~= before + row.take(0));
        while at < entries.len()
            invariant
                at <= entries.len(),
                row == entry_texels(entries@),
                0 <= t <= row.len(),
                at == 4 * t || (at == entries.len() && t == row.len()),
                texels@ == before + row.take(t),
            decreases entries.len() - at,
        {
            texels.push(
                BandTexel {
                    x: pick(entries, at, 0),
                    y: pick(entries, at, 1),
                    z: pick(entries, at, 2),
                    w: pick(entries, at, 3),
                },
            );
            at = if entries.len() - at > 4 {
                at + 4
            } else {
                entries.len()
            };
            proof {
                t = t + 1;
                assert(texels@ =~= before + row.take(t));
            }
        }
        assert(row.take(t) =~= row);
        g = g + 1;
    }
    if texels.len() == 0 {
        texels.push(BandTexel { x: 0, y: 0, z: 0, w: 0 });
        assert(texels@ =~= seq![BandTexel { x: 0, y: 0, z: 0, w: 0 }]);
    }
    texels
}

/// The number of bands for a glyph: one for shapes made of lines, and more the
/// more curves there are.
pub open spec fn bands_for(all_linear: bool, curves: int) -> u32 {
    if all_linear {
        1
    } else if curves < 10 {
        4
    } else if curves < 30 {
        8
    } else {
        12
    }
}

pub fn choose_band_count(all_linear: bool, curves: usize) -> (r: u32)
    ensures
        r == bands_for(all_linear, curves as int),
{
    if all_linear {
        1
    } else if curves < 10 {
        4
    } else if curves < 30 {
        8
    } else {
        12
    }
}

/// Where the next glyph goes in both textures.
#[derive(Clone, Copy, Debug, PartialEq, Eq, Structural)]
pub struct TextureCursor {
    pub curve_offset: u32,
    pub band_offset: u32,
}

impl TextureCursor {
    /// Whether a glyph fits behind this cursor.
    pub open spec fn fits(self, curves: int, entries: int) -> bool {
        self.curve_offset + 2 * curves <= u32::MAX && self.band_offset + entries / 4 <= u32::MAX
    }

    /// The cursor behind a glyph.
    pub open spec fn behind(self, curves: int, entries: int) -> TextureCursor {
        TextureCursor {
            curve_offset: (self.curve_offset + 2 * curves) as u32,
            band_offset: (self.band_offset + entries / 4) as u32,
        }
    }

    /// Where curve `i` of the glyph at this cursor lies.
    pub fn curve_location(&self, i: u32) -> (r: u32)
        requires
            self.curve_offset + 2 * i <= u32::MAX,
        ensures
            r == self.curve_offset + 2 * i,
    {
        self.curve_offset + 2 * i
    }

    /// Places a glyph here and moves on behind it.
    pub fn place(&mut self, curves: Vec<QuadCurve>, entries: Vec<u32>) -> (r: PreparedGlyph)
        requires
            old(self).fits(curves.len() as int, entries.len() as int),
        ensures
            r.curves == curves,
            r.entries == entries,
            r.curve_offset == old(self).curve_offset,
            r.band_offset == old(self).band_offset,
            *final(self) == old(self).behind(curves.len() as int, entries.len() as int),
    {
        let curve_offset: u32 = self.curve_offset;
        let band_offset: u32 = self.band_offset;
        self.curve_offset = curve_offset + 2 * curves.len() as u32;
        self.band_offset = band_offset + (entries.len() / 4) as u32;
        PreparedGlyph { curves, entries, curve_offset, band_offset }
    }
}

impl PreparedGlyph {
    /// How an instance finds the bands of this glyph: where they begin in the
    /// first row of the band texture, and the last band of each axis.
    pub fn glyph_data(&self, band_count: u32) -> (r: [u32; 4])
        requires
            band_count > 0,
        ensures
            r@ == seq![
                self.band_offset,
                0u32,
                (band_count - 1) as u32,
                (band_count - 1) as u32,
            ],
    {
        let r: [u32; 4] = [self.band_offset, 0, band_count - 1, band_count - 1];
        assert(r@ =~= seq![
            self.band_offset,
            0u32,
            (band_count - 1) as u32,
            (band_count - 1) as u32,
        ]);
        r
    }
}

/// Whether the first `n` glyphs lie in both textures one behind the other.
pub open spec fn glyphs_chained(glyphs: Seq<PreparedGlyph>, n: nat) -> bool {
    forall|g: int|
        0 <= g < n ==> {
            &&& (#[trigger] glyphs[g]).curve_offset == all_curve_texels(glyphs, g as nat).len()
            &&& glyphs[g].band_offset == all_band_texels(glyphs, g as nat).len()
        }
}

/// Glyphs that are placed one after the other lie one behind the other, and
/// the cursor lies behind all of them.
pub proof fn lemma_place_chains(
    glyphs: Seq<PreparedGlyph>,
    glyph: PreparedGlyph,
    cursor: TextureCursor,
)
    requires
        glyphs_chained(glyphs, glyphs.len()),
        cursor.curve_offset == all_curve_texels(glyphs, glyphs.len()).len(),
        cursor.band_offset == all_band_texels(glyphs, glyphs.len()).len(),
        glyph.curve_offset == cursor.curve_offset,
        glyph.band_offset == cursor.band_offset,
        glyph.entries@.len() % 4 == 0,
        cursor.fits(glyph.curves@.len() as int, glyph.entries@.len() as int),
    ensures
        ({
            let all = glyphs.push(glyph);
            let next = cursor.behind(glyph.curves@.len() as int, glyph.entries@.len() as int);
            &&& glyphs_chained(all, all.len())
            &&& next.curve_offset == all_curve_texels(all, all.len()).len()
            &&& next.band_offset == all_band_texels(all, all.len()).len()
        }),
{
    let all = glyphs.push(glyph);
    let n = glyphs.len();
    lemma_same_glyphs(glyphs, all, n);
    assert forall|g: int| 0 <= g < all.len() implies {
        &&& (#[trigger] all[g]).curve_offset == all_curve_texels(all, g as nat).len()
        &&& all[g].band_offset == all_band_texels(all, g as nat).len()
    } by {
        lemma_same_glyphs(glyphs, all, g as nat);
        if g < n {
            assert(all[g] == glyphs[g]);
        }
    }
    lemma_glyph_curves_length(glyph.curves@, glyph.curves@.len());
    assert(all[n as int] == glyph);
}

proof fn lemma_same_glyphs(a: Seq<PreparedGlyph>, b: Seq<PreparedGlyph>, n: nat)
    requires
        n <= a.len(),
        n <= b.len(),
        forall|i: int| 0 <= i < n ==> #[trigger] a[i] == b[i],
    ensures
        all_curve_texels(a, n) == all_curve_texels(b, n),
        all_band_texels(a, n) == all_band_texels(b, n),
    decreases n,
{
    if n > 0 {
        lemma_same_glyphs(a, b, (n - 1) as nat);
        assert(a[n - 1] == b[n - 1]);
    }
}

/// A curve of a chained glyph is found in the curve texture at its location.
pub proof fn lemma_curve_found(glyphs: Seq<PreparedGlyph>, n: nat, g: int, i: int)
    requires
        0 <= g < n <= glyphs.len(),
        0 <= i < glyphs[g].curves@.len(),
        glyphs_chained(glyphs, n),
    ensures
        ({
            let at = glyphs[g].curve_offset + 2 * i;
            let texels = all_curve_texels(glyphs, n);
            &&& at + 1 < texels.len()
            &&& texels[at] == curve_pair(glyphs[g].curves@[i])[0]
            &&& texels[at + 1] == curve_pair(glyphs[g].curves@[i])[1]
        }),
    decreases n,
{
    let curves = glyphs[g].curves@;
    lemma_glyph_curves(curves, curves.len(), i);
    let before = all_curve_texels(glyphs, g as nat);
    let upto = all_curve_texels(glyphs, (g + 1) as nat);
    assert(upto == before + glyph_curve_texels(curves, curves.len()));
    lemma_curves_prefix(glyphs, (g + 1) as nat, n);
    let at = glyphs[g].curve_offset + 2 * i;
    assert(upto[at] == glyph_curve_texels(curves, curves.len())[2 * i]);
    assert(upto[at + 1] == glyph_curve_texels(curves, curves.len())[2 * i + 1]);
}

proof fn lemma_glyph_curves(curves: Seq<QuadCurve>, n: nat, i: int)
    requires
        0 <= i < n,
    ensures
        glyph_curve_texels(curves, n).len() == 2 * n,
        glyph_curve_texels(curves, n)[2 * i] == curve_pair(curves[i])[0],
        glyph_curve_texels(curves, n)[2 * i + 1] == curve_pair(curves[i])[1],
    decreases n,
{
    lemma_glyph_curves_length(curves, (n - 1) as nat);
    if i < n - 1 {
        lemma_glyph_curves(curves, (n - 1) as nat, i);
    }
}

proof fn lemma_glyph_curves_length(curves: Seq<QuadCurve>, n: nat)
    ensures
        glyph_curve_texels(curves, n).len() == 2 * n,
    decreases n,
{
    if n > 0 {
        lemma_glyph_curves_length(curves, (n - 1) as nat);
    }
}

proof fn lemma_curves_prefix(glyphs: Seq<PreparedGlyph>, m: nat, n: nat)
    requires
        m <= n,
    ensures
        all_curve_texels(glyphs, m).len() <= all_curve_texels(glyphs, n).len(),
        forall|k: int|
            0 <= k < all_curve_texels(glyphs, m).len() ==> #[trigger] all_curve_texels(
                glyphs,
                n,
            )[k] == all_curve_texels(glyphs, m)[k],
    decreases n,
{
    if m < n {
        lemma_curves_prefix(glyphs, m, (n - 1) as nat);
    }
}

/// Which roots of a quadratic count for a ray, by the signs of its three
/// values: 1 for the first root, 0x100 for the second.
pub open spec fn root_code(negative1: bool, negative2: bool, negative3: bool) -> u32 {
    match (negative1, negative2, negative3) {
        (false, false, false) => 0,
        (true, false, false) => 0x100,
        (false, true, false) => 0x101,
        (true, true, false) => 0x100,
        (false, false, true) => 1,
        (true, false, true) => 0x101,
        (false, true, true) => 1,
        (true, true, true) => 0,
    }
}

/// The root code of a quadratic from the sign bits of its values.
pub fn cpu_calc_root_code(y1: Scalar, y2: Scalar, y3: Scalar) -> (r: u32)
    ensures
        r == root_code(y1.negative(), y2.negative(), y3.negative()),
{
    let i1: u32 = y1.bits >> 31;
    let i2: u32 = y2.bits >> 30;
    let i3: u32 = y3.bits >> 29;
    let low: u32 = (i2 & 2) | (i1 & !2u32);
    let shift: u32 = (i3 & 4) | (low & !4u32);
    proof {
        let b1 = y1.bits;
        let b2 = y2.bits;
        let b3 = y3.bits;
        assert(shift == (if b1 >= 0x8000_0000u32 { 1u32 } else { 0u32 }) + (if b2
            >= 0x8000_0000u32 { 2u32 } else { 0u32 }) + (if b3 >= 0x8000_0000u32 { 4u32 } else {
            0u32
        })) by (bit_vector)
            requires
                i1 == b1 >> 31,
                i2 == b2 >> 30,
                i3 == b3 >> 29,
                low == (i2 & 2) | (i1 & !2u32),
                shift == (i3 & 4) | (low & !4u32),
        ;
        assert((0x2e74u32 >> 0u32) & 0x0101 == 0 && (0x2e74u32 >> 1u32) & 0x0101 == 0x100 && (
        0x2e74u32 >> 2u32) & 0x0101 == 0x101 && (0x2e74u32 >> 3u32) & 0x0101 == 0x100 && (0x2e74u32
            >> 4u32) & 0x0101 == 1 && (0x2e74u32 >> 5u32) & 0x0101 == 0x101 && (0x2e74u32 >> 6u32)
            & 0x0101 == 1 && (0x2e74u32 >> 7u32) & 0x0101 == 0) by (bit_vector);
    }
    (0x2e74u32 >> shift) & 0x0101
}

/// A quadratic whose values have one sign has no root that counts, and one
/// that starts and ends on different sides has exactly one, or both.
pub proof fn lemma_root_code(negative1: bool, negative2: bool, negative3: bool)
    ensures
        negative1 == negative2 && negative2 == negative3 ==> root_code(
            negative1,
            negative2,
            negative3,
        ) == 0,
        negative1 != negative3 ==> root_code(negative1, negative2, negative3) != 0,
{
}

/// The curves that a band header lists: texel `header` holds their number and
/// where their references begin; a reference is a location in the curve
/// texture, two texels per curve from `curve_base` on.
pub fn listed_curves(texels: &Vec<BandTexel>, header: usize, curve_base: u32) -> (r: Vec<u32>)
    requires
        header < texels.len(),
        texels@[header as int].y + texels@[header as int].x <= texels.len(),
        forall|k: int|
            0 <= k < texels@[header as int].x ==> (#[trigger] texels@[texels@[header as int].y
                + k]).x >= curve_base,
    ensures
        r@ == Seq::new(
            texels@[header as int].x as nat,
            |k: int| ((texels@[texels@[header as int].y + k].x - curve_base) / 2) as u32,
        ),
{
    let count: u32 = texels[header].x;
    let offset: u32 = texels[header].y;
    let mut curves: Vec<u32> = Vec::new();
    let mut k: u32 = 0;
    while k < count
        invariant
            k <= count,
            offset + count <= texels.len(),
            curves.len() == k,
            forall|k: int|
                0 <= k < count ==> (#[trigger] texels@[offset + k]).x >= curve_base,
            forall|j: int|
                0 <= j < k ==> #[trigger] curves@[j] == (texels@[offset + j].x - curve_base) / 2,
        decreases count - k,
    {
        assert(texels@[offset + k].x >= curve_base);
        let at: usize = offset as usize + k as usize;
        curves.push((texels[at].x - curve_base) / 2);
        k = k + 1;
    }
    assert(curves@ =~= Seq::new(
        count as nat,
        |k: int| ((texels@[offset + k].x - curve_base) / 2) as u32,
    ));
    curves
}

} // verus!
