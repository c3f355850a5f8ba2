//! Borders drawn underneath glyphs: which glyphs have one, and what the border
//! data of a glyph has to be good for.

use crate::glyph_cache::{GlyphEntry, GlyphKey, KeyMap};
use crate::instance::GlyphInstance;
use crate::scalar::Scalar;
use crate::text_atlas::{AtlasState, TextAtlas};
use vstd::prelude::*;

verus! {

/// What the border data of a glyph has to satisfy across every use of the
/// glyph in a frame. The two capacities are independent: a pixel radius means
/// more font units at a smaller size, so the largest size and the largest
/// radius come from different uses.
#[derive(Clone, Copy, Debug, PartialEq, Eq, Structural)]
pub struct BorderCapacity {
    /// Largest size the glyph is drawn at, which bounds accuracy.
    pub ppem: Scalar,
    /// Largest radius in font units.
    pub radius_units: Scalar,
}

impl Default for BorderCapacity {
    fn default() -> (r: BorderCapacity)
        ensures
            r == no_capacity(),
    {
        BorderCapacity { ppem: Scalar::from_bits(0), radius_units: Scalar::from_bits(0) }
    }
}

/// The capacity before any use.
pub open spec fn no_capacity() -> BorderCapacity {
    BorderCapacity { ppem: Scalar { bits: 0 }, radius_units: Scalar { bits: 0 } }
}

impl BorderCapacity {
    /// The capacity with one more use of the glyph.
    pub open spec fn with(self, ppem: Scalar, radius_units: Scalar) -> BorderCapacity {
        BorderCapacity {
            ppem: self.ppem.greatest(ppem),
            radius_units: self.radius_units.greatest(radius_units),
        }
    }

    /// Takes in one use of the glyph at `ppem`. `radius_units` is its radius
    /// in font units.
    pub fn extend(&mut self, ppem: Scalar, radius_units: Scalar)
        ensures
            *final(self) == old(self).with(ppem, radius_units),
    {
        self.ppem = self.ppem.max(ppem);
        self.radius_units = self.radius_units.max(radius_units);
    }
}

/// A capacity suffices for every use that it took in, the earlier ones too.
pub proof fn lemma_capacity_suffices(c: BorderCapacity, ppem: Scalar, radius_units: Scalar)
    requires
        !c.ppem.nan(),
        !c.radius_units.nan(),
        !ppem.nan(),
        !radius_units.nan(),
    ensures
        ({
            let w = c.with(ppem, radius_units);
            &&& !w.ppem.nan() && !w.radius_units.nan()
            &&& w.ppem.order() >= ppem.order()
            &&& w.ppem.order() >= c.ppem.order()
            &&& w.radius_units.order() >= radius_units.order()
            &&& w.radius_units.order() >= c.radius_units.order()
        }),
{
}

/// Whether a glyph gets a border: plain outlines only.
pub open spec fn takes_border(entry: GlyphEntry) -> bool {
    entry.mono()
}

pub fn can_take_border(entry: &GlyphEntry) -> (r: bool)
    ensures
        r == takes_border(*entry),
{
    !entry.is_non_vector() && !entry.is_color_vector() && !entry.is_color_v1_vector()
}

/// Whether a key names a glyph that takes a border and begins at `offset`.
pub open spec fn borders_at(atlas: AtlasState, key: GlyphKey, offset: u32) -> bool {
    &&& atlas.glyphs@.contains_key(key)
    &&& takes_border(atlas.glyphs@[key])
    &&& atlas.glyphs@[key].band_offset == offset
}

/// The first of the first `n` keys that names such a glyph.
pub open spec fn bordered_key(
    atlas: AtlasState,
    keys: Seq<GlyphKey>,
    offset: u32,
    n: nat,
) -> Option<GlyphKey>
    decreases n,
{
    if n == 0 {
        None
    } else {
        match bordered_key(atlas, keys, offset, (n - 1) as nat) {
            Some(key) => Some(key),
            None => if borders_at(atlas, keys[n - 1], offset) {
                Some(keys[n - 1])
            } else {
                None
            },
        }
    }
}

/// Finds the glyph behind an emitted instance if it takes a border, with its
/// units per em. Colour layers look like plain instances, so the entry decides.
pub fn bordered_key_for(
    atlas: &TextAtlas,
    distinct_keys: &Vec<GlyphKey>,
    glyph_offset: u32,
) -> (r: Option<(GlyphKey, Scalar)>)
    ensures
        match bordered_key(atlas@, distinct_keys@, glyph_offset, distinct_keys@.len()) {
            Some(key) => r == Some((key, atlas@.glyphs@[key].units_per_em)),
            None => r is None,
        },
{
    let mut i: usize = 0;
    while i < distinct_keys.len()
        invariant
            i <= distinct_keys.len(),
            bordered_key(atlas@, distinct_keys@, glyph_offset, i as nat) is None,
        decreases distinct_keys.len() - i,
    {
        let key = distinct_keys[i];
        if let Some(entry) = atlas.glyph(&key) {
            if can_take_border(&entry) && entry.band_offset == glyph_offset {
                proof {
                    lemma_bordered_key_stays(
                        atlas@,
                        distinct_keys@,
                        glyph_offset,
                        (i + 1) as nat,
                        distinct_keys@.len(),
                    );
                }
                return Some((key, entry.units_per_em));
            }
        }
        i = i + 1;
    }
    None
}

proof fn lemma_bordered_key_stays(
    atlas: AtlasState,
    keys: Seq<GlyphKey>,
    offset: u32,
    m: nat,
    n: nat,
)
    requires
        m <= n,
        bordered_key(atlas, keys, offset, m) is Some,
    ensures
        bordered_key(atlas, keys, offset, n) == bordered_key(atlas, keys, offset, m),
    decreases n,
{
    if m < n {
        lemma_bordered_key_stays(atlas, keys, offset, m, (n - 1) as nat);
    }
}

/// The border instance of a fill instance, if its glyph takes a border.
pub open spec fn border_of(
    atlas: AtlasState,
    keys: Seq<GlyphKey>,
    instance: GlyphInstance,
) -> Option<GlyphInstance> {
    match bordered_key(atlas, keys, instance.glyph_offset, keys.len()) {
        Some(key) => Some(
            GlyphInstance { glyph_offset: atlas.border_offsets[key], ..instance },
        ),
        None => None,
    }
}

/// The border instances of the first `n` fill instances.
pub open spec fn borders_of(
    atlas: AtlasState,
    keys: Seq<GlyphKey>,
    instances: Seq<GlyphInstance>,
    n: nat,
) -> Seq<GlyphInstance>
    decreases n,
{
    if n == 0 {
        Seq::empty()
    } else {
        let before = borders_of(atlas, keys, instances, (n - 1) as nat);
        match border_of(atlas, keys, instances[n - 1]) {
            Some(border) => before.push(border),
            None => before,
        }
    }
}

/// Whether the border data of every glyph that takes a border and is drawn by an
/// instance is in the atlas.
pub open spec fn borders_resolved(
    atlas: AtlasState,
    keys: Seq<GlyphKey>,
    instances: Seq<GlyphInstance>,
) -> bool {
    forall|i: int|
        0 <= i < instances.len() ==> offset_resolved(
            atlas,
            keys,
            (#[trigger] instances[i]).glyph_offset,
        )
}

/// Whether the border data of the glyph that begins at `offset` is in the atlas,
/// if it takes a border.
pub open spec fn offset_resolved(atlas: AtlasState, keys: Seq<GlyphKey>, offset: u32) -> bool {
    bordered_key(atlas, keys, offset, keys.len()) matches Some(key)
        ==> atlas.border_offsets.contains_key(key)
}

/// Makes the border instances of fill instances.
pub fn border_instances_of(
    atlas: &TextAtlas,
    distinct_keys: &Vec<GlyphKey>,
    instances: &Vec<GlyphInstance>,
) -> (r: Vec<GlyphInstance>)
    requires
        borders_resolved(atlas@, distinct_keys@, instances@),
    ensures
        r@ == borders_of(atlas@, distinct_keys@, instances@, instances@.len()),
        r@.len() <= instances@.len(),
{
    let mut borders: Vec<GlyphInstance> = Vec::new();
    let mut i: usize = 0;
    while i < instances.len()
        invariant
            i <= instances.len(),
            borders_resolved(atlas@, distinct_keys@, instances@),
            borders@ == borders_of(atlas@, distinct_keys@, instances@, i as nat),
            borders@.len() <= i,
        decreases instances.len() - i,
    {
        let instance = instances[i];
        assert(offset_resolved(atlas@, distinct_keys@, instances@[i as int].glyph_offset));
        if let Some((key, _)) = bordered_key_for(atlas, distinct_keys, instance.glyph_offset) {
            if let Some(offset) = atlas.border_descriptor(&key) {
                let mut border = instance;
                border.glyph_offset = offset;
                borders.push(border);
            }
        }
        i = i + 1;
    }
    borders
}

/// What the border data of each glyph has to be good for in a frame.
pub struct BorderRequirements {
    keys: Vec<GlyphKey>,
    capacities: KeyMap<BorderCapacity>,
}

impl View for BorderRequirements {
    type V = Map<GlyphKey, BorderCapacity>;

    closed spec fn view(&self) -> Map<GlyphKey, BorderCapacity> {
        self.capacities@
    }
}

impl BorderRequirements {
    /// Every glyph with a capacity is listed once.
    pub closed spec fn wf(&self) -> bool {
        &&& self.capacities.wf()
        &&& self.keys@.no_duplicates()
        &&& forall|k: GlyphKey| #[trigger] self.keys@.contains(k) <==> self@.contains_key(k)
    }

    pub fn new() -> (r: BorderRequirements)
        ensures
            r.wf(),
            r@ == Map::<GlyphKey, BorderCapacity>::empty(),
    {
        BorderRequirements { keys: Vec::new(), capacities: KeyMap::new() }
    }

    /// Takes in one use of a glyph.
    pub fn extend(&mut self, key: GlyphKey, ppem: Scalar, radius_units: Scalar)
        requires
            old(self).wf(),
        ensures
            final(self).wf(),
            final(self)@ == old(self)@.insert(
                key,
                (if old(self)@.contains_key(key) {
                    old(self)@[key]
                } else {
                    no_capacity()
                }).with(ppem, radius_units),
            ),
    {
        let mut capacity = match self.capacities.get(&key) {
            Some(capacity) => *capacity,
            None => {
                proof {
                    assert(!self.keys@.contains(key));
                }
                BorderCapacity::default()
            },
        };
        let known: bool = self.capacities.get(&key).is_some();
        capacity.extend(ppem, radius_units);
        if !known {
            self.keys.push(key);
            proof {
                let before = old(self).keys@;
                assert forall|k: GlyphKey| #[trigger] self.keys@.contains(k) <==> before.contains(k)
                    || k == key by {
                    if before.contains(k) {
                        let i = choose|i: int| 0 <= i < before.len() && before[i] == k;
                        assert(self.keys@[i] == k);
                    }
                    assert(self.keys@[before.len() as int] == key);
                    if self.keys@.contains(k) && k != key {
                        let i = choose|i: int| 0 <= i < self.keys@.len() && self.keys@[i] == k;
                        assert(before[i] == k);
                    }
                }
            }
        }
        self.capacities.insert(key, capacity);
    }

    /// The glyphs that need border data, each with its capacity.
    pub fn list(&self) -> (r: Vec<(GlyphKey, BorderCapacity)>)
        requires
            self.wf(),
        ensures
            forall|i: int|
                0 <= i < r.len() ==> self@.contains_key((#[trigger] r@[i]).0) && self@[r@[i].0]
                    == r@[i].1,
            forall|k: GlyphKey| #[trigger]
                self@.contains_key(k) ==> exists|i: int|
                    0 <= i < r.len() && (#[trigger] r@[i]).0 == k,
            forall|i: int, j: int|
                0 <= i < j < r.len() ==> (#[trigger] r@[i]).0 != (#[trigger] r@[j]).0,
    {
        let mut list: Vec<(GlyphKey, BorderCapacity)> = Vec::new();
        let mut i: usize = 0;
        while i < self.keys.len()
            invariant
                i <= self.keys.len(),
                self.wf(),
                list.len() == i,
                forall|k: int|
                    0 <= k < i ==> {
                        &&& (#[trigger] list@[k]).0 == self.keys@[k]
                        &&& self@.contains_key(list@[k].0)
                        &&& self@[list@[k].0] == list@[k].1
                    },
            decreases self.keys.len() - i,
        {
            let key = self.keys[i];
            assert(self.keys@.contains(key));
            if let Some(capacity) = self.capacities.get(&key) {
                list.push((key, *capacity));
            }
            i = i + 1;
        }
        proof {
            assert forall|k: GlyphKey| #[trigger] self@.contains_key(k) implies exists|i: int|
                0 <= i < list.len() && (#[trigger] list@[i]).0 == k by {
                assert(self.keys@.contains(k));
                let i = choose|i: int| 0 <= i < self.keys@.len() && self.keys@[i] == k;
                assert(list@[i].0 == k);
            }
        }
        list
    }
}

/// A use of a glyph with a border.
#[derive(Clone, Copy, Debug, PartialEq, Eq, Structural)]
pub struct BorderUse {
    pub key: GlyphKey,
    pub ppem: Scalar,
    pub units_per_em: Scalar,
    /// Width of the border in physical pixels.
    pub width: Scalar,
}

/// The uses behind the first `n` instances of an area with a border.
pub open spec fn instance_uses(
    atlas: AtlasState,
    keys: Seq<GlyphKey>,
    instances: Seq<GlyphInstance>,
    width: Scalar,
    n: nat,
) -> Seq<BorderUse>
    decreases n,
{
    if n == 0 {
        Seq::empty()
    } else {
        let before = instance_uses(atlas, keys, instances, width, (n - 1) as nat);
        match bordered_key(atlas, keys, instances[n - 1].glyph_offset, keys.len()) {
            Some(key) => before.push(
                BorderUse {
                    key,
                    ppem: instances[n - 1].ppem,
                    units_per_em: atlas.glyphs@[key].units_per_em,
                    width,
                },
            ),
            None => before,
        }
    }
}

/// Lists the uses of glyphs behind the instances of a cached area.
pub fn border_uses_of_instances(
    atlas: &TextAtlas,
    distinct_keys: &Vec<GlyphKey>,
    instances: &Vec<GlyphInstance>,
    width: Scalar,
) -> (r: Vec<BorderUse>)
    ensures
        r@ == instance_uses(atlas@, distinct_keys@, instances@, width, instances@.len()),
{
    let mut uses: Vec<BorderUse> = Vec::new();
    let mut i: usize = 0;
    while i < instances.len()
        invariant
            i <= instances.len(),
            uses@ == instance_uses(atlas@, distinct_keys@, instances@, width, i as nat),
        decreases instances.len() - i,
    {
        let instance = instances[i];
        let found = bordered_key_for(atlas, distinct_keys, instance.glyph_offset);
        if let Some((key, units_per_em)) = found {
            uses.push(BorderUse { key, ppem: instance.ppem, units_per_em, width });
        }
        i = i + 1;
    }
    uses
}

proof fn lemma_same_bordered_key(
    a: AtlasState,
    b: AtlasState,
    keys: Seq<GlyphKey>,
    offset: u32,
    n: nat,
)
    requires
        a.glyphs@ == b.glyphs@,
    ensures
        bordered_key(a, keys, offset, n) == bordered_key(b, keys, offset, n),
    decreases n,
{
    if n > 0 {
        lemma_same_bordered_key(a, b, keys, offset, (n - 1) as nat);
    }
}

/// Once the border data of every use of an area is in the atlas, the area can
/// be drawn with its border. `before` is the atlas that the uses were listed
/// with.
pub proof fn lemma_resolved_uses_suffice(
    before: AtlasState,
    after: AtlasState,
    keys: Seq<GlyphKey>,
    instances: Seq<GlyphInstance>,
    width: Scalar,
    n: nat,
)
    requires
        n <= instances.len(),
        after.glyphs@ == before.glyphs@,
        ({
            let uses = instance_uses(before, keys, instances, width, n);
            forall|j: int|
                0 <= j < uses.len() ==> after.border_offsets.contains_key(
                    (#[trigger] uses[j]).key,
                )
        }),
    ensures
        borders_resolved(after, keys, instances.take(n as int)),
    decreases n,
{
    if n > 0 {
        let m = (n - 1) as nat;
        let uses = instance_uses(before, keys, instances, width, n);
        let fewer = instance_uses(before, keys, instances, width, m);
        assert forall|j: int| 0 <= j < fewer.len() implies after.border_offsets.contains_key(
            (#[trigger] fewer[j]).key,
        ) by {
            assert(uses[j] == fewer[j]);
        }
        lemma_resolved_uses_suffice(before, after, keys, instances, width, m);
        let offset = instances[m as int].glyph_offset;
        lemma_same_bordered_key(before, after, keys, offset, keys.len());
        if let Some(key) = bordered_key(before, keys, offset, keys.len()) {
            assert(uses[fewer.len() as int].key == key);
        }
        assert forall|i: int| 0 <= i < n implies offset_resolved(
            after,
            keys,
            (#[trigger] instances.take(n as int)[i]).glyph_offset,
        ) by {
            if i < m {
                assert(instances.take(m as int)[i] == instances.take(n as int)[i]);
            }
        }
    }
}

/// A glyph at a size.
#[derive(Clone, Copy, Debug, PartialEq, Eq, Structural)]
pub struct SizedGlyph {
    pub key: GlyphKey,
    pub ppem: Scalar,
}

/// The uses among the first `n` glyphs of an area with a border.
pub open spec fn glyph_uses(
    atlas: AtlasState,
    glyphs: Seq<SizedGlyph>,
    width: Scalar,
    n: nat,
) -> Seq<BorderUse>
    decreases n,
{
    if n == 0 {
        Seq::empty()
    } else {
        let before = glyph_uses(atlas, glyphs, width, (n - 1) as nat);
        let glyph = glyphs[n - 1];
        if atlas.glyphs@.contains_key(glyph.key) && takes_border(atlas.glyphs@[glyph.key]) {
            before.push(
                BorderUse {
                    key: glyph.key,
                    ppem: glyph.ppem,
                    units_per_em: atlas.glyphs@[glyph.key].units_per_em,
                    width,
                },
            )
        } else {
            before
        }
    }
}

/// Lists the uses of glyphs in an area that is laid out anew.
pub fn border_uses_of_glyphs(
    atlas: &TextAtlas,
    glyphs: &Vec<SizedGlyph>,
    width: Scalar,
) -> (r: Vec<BorderUse>)
    ensures
        r@ == glyph_uses(atlas@, glyphs@, width, glyphs@.len()),
{
    let mut uses: Vec<BorderUse> = Vec::new();
    let mut i: usize = 0;
    while i < glyphs.len()
        invariant
            i <= glyphs.len(),
            uses@ == glyph_uses(atlas@, glyphs@, width, i as nat),
        decreases glyphs.len() - i,
    {
        let glyph = glyphs[i];
        if let Some(entry) = atlas.glyph(&glyph.key) {
            if can_take_border(&entry) {
                uses.push(
                    BorderUse {
                        key: glyph.key,
                        ppem: glyph.ppem,
                        units_per_em: entry.units_per_em,
                        width,
                    },
                );
            }
        }
        i = i + 1;
    }
    uses
}

} // verus!
