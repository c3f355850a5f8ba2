//! Cached glyphs: where the blob of a glyph lies and how it is drawn.

use crate::band::BandTransform;
use crate::fxmap::{fx_get, fx_insert, fx_len, fx_new};
use crate::outline::{Bounds, Rgba};
use crate::scalar::Scalar;
use vstd::arithmetic::div_mod::{lemma_div_denominator, lemma_fundamental_div_mod};
use vstd::prelude::*;
use vstd::relations::injective_on;
use vstd::set_lib::{lemma_len_subset, lemma_map_size};

verus! {

/// Cache key for the outline geometry of a glyph.
///
/// Captures everything that affects the shape of the outline, and leaves out
/// size, position and subpixel offset: outlines do not depend on resolution.
#[derive(Clone, Copy, Debug, PartialEq, Eq, PartialOrd, Ord, Structural)]
pub struct GlyphKey {
    /// A number that stands for the font face.
    pub font_id: u64,
    pub glyph_id: u16,
    pub font_weight: u16,
    pub cache_key_flags: u32,
}

/// What the cache and the renderer read of a laid-out glyph.
#[derive(Clone, Copy, Debug, PartialEq, Eq, Structural)]
pub struct LayoutGlyph {
    pub font_id: u64,
    pub glyph_id: u16,
    pub font_weight: u16,
    pub cache_key_flags: u32,
}

impl GlyphKey {
    pub fn from_layout_glyph(glyph: &LayoutGlyph) -> (r: GlyphKey)
        ensures
            r.font_id == glyph.font_id,
            r.glyph_id == glyph.glyph_id,
            r.font_weight == glyph.font_weight,
            r.cache_key_flags == glyph.cache_key_flags,
    {
        GlyphKey {
            font_id: glyph.font_id,
            glyph_id: glyph.glyph_id,
            font_weight: glyph.font_weight,
            cache_key_flags: glyph.cache_key_flags,
        }
    }

    /// The key as one number. The numbers are ordered as the keys are: by
    /// font, then glyph, weight and flags.
    pub open spec fn number(self) -> u128 {
        (self.font_id * 0x1_0000_0000_0000_0000 + self.glyph_id * 0x1_0000_0000_0000
            + self.font_weight * 0x1_0000_0000 + self.cache_key_flags) as u128
    }

    /// The key that a number stands for.
    pub open spec fn of_number(n: u128) -> GlyphKey {
        GlyphKey {
            font_id: (n / 0x1_0000_0000_0000_0000) as u64,
            glyph_id: (n / 0x1_0000_0000_0000 % 0x1_0000) as u16,
            font_weight: (n / 0x1_0000_0000 % 0x1_0000) as u16,
            cache_key_flags: (n % 0x1_0000_0000) as u32,
        }
    }

    pub fn to_number(self) -> (r: u128)
        ensures
            r == self.number(),
    {
        let high: u128 = self.font_id as u128 * 0x1_0000_0000_0000_0000;
        let middle: u128 = self.glyph_id as u128 * 0x1_0000_0000_0000;
        let low: u128 = self.font_weight as u128 * 0x1_0000_0000;
        high + middle + low + self.cache_key_flags as u128
    }
}

/// Every key is read back from its number.
pub proof fn lemma_key_of_number(k: GlyphKey)
    ensures
        GlyphKey::of_number(k.number()) == k,
{
    let f = k.font_id as int;
    let g = k.glyph_id as int;
    let w = k.font_weight as int;
    let c = k.cache_key_flags as int;
    let n = f * 0x1_0000_0000_0000_0000 + g * 0x1_0000_0000_0000 + w * 0x1_0000_0000 + c;
    assert(k.number() == n);
    assert(n / 0x1_0000_0000_0000_0000 == f);
    assert(n / 0x1_0000_0000_0000 == f * 0x1_0000 + g);
    assert(n / 0x1_0000_0000 == f * 0x1_0000_0000 + g * 0x1_0000 + w);
}

/// Every number is the number of the key that is read from it.
pub proof fn lemma_number_of_key(n: u128)
    ensures
        GlyphKey::of_number(n).number() == n,
{
    let i = n as int;
    let a = i / 0x1_0000_0000;
    let b = a / 0x1_0000;
    let c = b / 0x1_0000;
    lemma_div_denominator(i, 0x1_0000_0000, 0x1_0000);
    lemma_div_denominator(i, 0x1_0000_0000_0000, 0x1_0000);
    assert(i / 0x1_0000_0000_0000 == b);
    assert(i / 0x1_0000_0000_0000_0000 == c);
    lemma_fundamental_div_mod(i, 0x1_0000_0000);
    lemma_fundamental_div_mod(a, 0x1_0000);
    lemma_fundamental_div_mod(b, 0x1_0000);
    assert(0 <= c < 0x1_0000_0000_0000_0000);
}

impl GlyphKey {
    /// Whether this key stands before `other`: by font, then glyph, weight
    /// and flags.
    pub open spec fn before(self, other: GlyphKey) -> bool {
        self.font_id < other.font_id || (self.font_id == other.font_id && (self.glyph_id
            < other.glyph_id || (self.glyph_id == other.glyph_id && (self.font_weight
            < other.font_weight || (self.font_weight == other.font_weight && self.cache_key_flags
            < other.cache_key_flags)))))
    }
}

/// Keys are ordered as their numbers are.
pub proof fn lemma_number_order(a: GlyphKey, b: GlyphKey)
    ensures
        a.before(b) <==> a.number() < b.number(),
        a == b <==> a.number() == b.number(),
{
    lemma_key_of_number(a);
    lemma_key_of_number(b);
}

/// A map from glyph keys to values.
pub struct KeyMap<V> {
    map: rustc_hash::FxHashMap<u128, V>,
}

impl<V> View for KeyMap<V> {
    type V = Map<GlyphKey, V>;

    closed spec fn view(&self) -> Map<GlyphKey, V> {
        Map::new(
            |k: GlyphKey| self.map@.contains_key(k.number()),
            |k: GlyphKey| self.map@[k.number()],
        )
    }
}

impl<V> KeyMap<V> {
    /// Holds of every map that the functions below return or leave behind.
    pub closed spec fn wf(&self) -> bool {
        self.map@.dom().finite()
    }

    proof fn lemma_size(&self)
        requires
            self.wf(),
        ensures
            self@.dom().finite(),
            self@.dom().len() == self.map@.dom().len(),
    {
        let numbers = self.map@.dom();
        let f = |n: u128| GlyphKey::of_number(n);
        assert(injective_on(f, numbers)) by {
            assert forall|a: u128, b: u128|
                numbers.contains(a) && numbers.contains(b) && #[trigger] f(a)
                    == #[trigger] f(b) implies a == b by {
                lemma_number_of_key(a);
                lemma_number_of_key(b);
            }
        }
        assert(numbers.map(f) =~= self@.dom()) by {
            assert forall|k: GlyphKey| self@.dom().contains(k) implies numbers.map(f).contains(
                k,
            ) by {
                lemma_key_of_number(k);
                assert(numbers.contains(k.number()));
                assert(f(k.number()) == k);
            }
            assert forall|k: GlyphKey| numbers.map(f).contains(k) implies self@.dom().contains(
                k,
            ) by {
                let n = choose|n: u128| numbers.contains(n) && f(n) == k;
                lemma_number_of_key(n);
            }
        }
        lemma_map_size(numbers, self@.dom(), f);
    }

    pub fn new() -> (r: KeyMap<V>)
        ensures
            r.wf(),
            r@ == Map::<GlyphKey, V>::empty(),
    {
        let r = KeyMap { map: fx_new() };
        assert(r@ =~= Map::<GlyphKey, V>::empty());
        r
    }

    pub fn get(&self, key: &GlyphKey) -> (r: Option<&V>)
        ensures
            match r {
                Some(v) => self@.contains_key(*key) && *v == self@[*key],
                None => !self@.contains_key(*key),
            },
    {
        fx_get(&self.map, key.to_number())
    }

    pub fn insert(&mut self, key: GlyphKey, value: V)
        requires
            old(self).wf(),
        ensures
            final(self).wf(),
            final(self)@ == old(self)@.insert(key, value),
    {
        let n: u128 = key.to_number();
        fx_insert(&mut self.map, n, value);
        proof {
            assert forall|k: GlyphKey| k.number() == n implies k == key by {
                lemma_number_order(k, key);
            }
            assert(self@ =~= old(self)@.insert(key, value));
        }
    }

    pub fn len(&self) -> (r: usize)
        requires
            self.wf(),
        ensures
            r == self@.dom().len(),
            self@.dom().finite(),
    {
        proof {
            self.lemma_size();
        }
        fx_len(&self.map)
    }

    pub fn clear(&mut self)
        ensures
            final(self).wf(),
            final(self)@ == Map::<GlyphKey, V>::empty(),
    {
        self.map.clear();
        assert(self@ =~= Map::<GlyphKey, V>::empty());
    }
}

/// Cached location and metadata of a glyph in the atlas.
#[derive(Clone, Copy, Debug, PartialEq, Eq, Structural)]
pub struct GlyphEntry {
    /// Texel at which the blob of the glyph begins.
    pub band_offset: u32,
    /// Number of vertical bands less 1.
    pub band_max_x: u32,
    /// Number of horizontal bands less 1.
    pub band_max_y: u32,
    /// Transform from font units to band index.
    pub band_transform: BandTransform,
    /// Bounding box in font units.
    pub bounds: Bounds,
    /// Font units per em.
    pub units_per_em: Scalar,
    /// The frame in which this glyph was last used; 0 before any use.
    pub last_used_epoch: u32,
}

/// The bit pattern of 1000, the units per em of glyphs without an outline.
pub const THOUSAND: u32 = 0x447a_0000;

/// An entry without geometry.
pub open spec fn sentinel(band_offset: u32) -> GlyphEntry {
    let zero = Scalar { bits: 0 };
    GlyphEntry {
        band_offset,
        band_max_x: 0,
        band_max_y: 0,
        band_transform: BandTransform {
            scale_x: zero,
            scale_y: zero,
            offset_x: zero,
            offset_y: zero,
        },
        bounds: Bounds { min_x: zero, min_y: zero, max_x: zero, max_y: zero },
        units_per_em: Scalar { bits: THOUSAND },
        last_used_epoch: 0,
    }
}

fn make_sentinel(band_offset: u32) -> (r: GlyphEntry)
    ensures
        r == sentinel(band_offset),
{
    let zero = Scalar::from_bits(0);
    GlyphEntry {
        band_offset,
        band_max_x: 0,
        band_max_y: 0,
        band_transform: BandTransform {
            scale_x: zero,
            scale_y: zero,
            offset_x: zero,
            offset_y: zero,
        },
        bounds: Bounds { min_x: zero, min_y: zero, max_x: zero, max_y: zero },
        units_per_em: Scalar::from_bits(THOUSAND),
        last_used_epoch: 0,
    }
}

/// The entry of a glyph that has no vector outline (emoji, bitmap fonts).
pub fn non_vector_glyph() -> (r: GlyphEntry)
    ensures
        r == sentinel(u32::MAX),
{
    make_sentinel(u32::MAX)
}

/// The entry of a colour glyph made of layers, which are kept apart.
pub fn color_vector_glyph() -> (r: GlyphEntry)
    ensures
        r == sentinel((u32::MAX - 1) as u32),
{
    make_sentinel(u32::MAX - 1)
}

/// The entry of a colour glyph drawn by commands, which are kept apart.
pub fn color_v1_vector_glyph() -> (r: GlyphEntry)
    ensures
        r == sentinel((u32::MAX - 2) as u32),
{
    make_sentinel(u32::MAX - 2)
}

impl GlyphEntry {
    /// A new entry, not used in any frame yet.
    pub fn new(
        band_offset: u32,
        band_max_x: u32,
        band_max_y: u32,
        band_transform: BandTransform,
        bounds: Bounds,
        units_per_em: Scalar,
    ) -> (r: GlyphEntry)
        ensures
            r == (GlyphEntry {
                band_offset,
                band_max_x,
                band_max_y,
                band_transform,
                bounds,
                units_per_em,
                last_used_epoch: 0,
            }),
    {
        GlyphEntry {
            band_offset,
            band_max_x,
            band_max_y,
            band_transform,
            bounds,
            units_per_em,
            last_used_epoch: 0,
        }
    }

    /// Whether this entry names a blob drawn as a plain outline.
    pub open spec fn mono(self) -> bool {
        self.band_offset < u32::MAX - 2
    }

    pub fn is_non_vector(&self) -> (r: bool)
        ensures
            r == (self.band_offset == u32::MAX),
    {
        self.band_offset == u32::MAX
    }

    pub fn is_color_vector(&self) -> (r: bool)
        ensures
            r == (self.band_offset == u32::MAX - 1),
    {
        self.band_offset == u32::MAX - 1
    }

    pub fn is_color_v1_vector(&self) -> (r: bool)
        ensures
            r == (self.band_offset == u32::MAX - 2),
    {
        self.band_offset == u32::MAX - 2
    }
}

/// A layer of a colour glyph.
#[derive(Clone, Copy, Debug, PartialEq, Eq, Structural)]
pub struct ColorGlyphLayer {
    pub entry: GlyphEntry,
    pub color: Rgba,
    /// Whether the layer takes the colour of the text.
    pub use_foreground: bool,
}

/// A colour glyph made of solid layers, drawn from the back to the front.
#[derive(Debug)]
pub struct ColorGlyphEntry {
    pub layers: Vec<ColorGlyphLayer>,
    pub units_per_em: Scalar,
}

/// A colour glyph drawn by commands.
#[derive(Clone, Copy, Debug, PartialEq, Eq, Structural)]
pub struct ColorV1GlyphEntry {
    /// Texel at which the commands begin.
    pub blob_offset: u32,
    /// Texels that the commands take.
    pub cmd_count: u32,
    pub bounds: Bounds,
    pub units_per_em: Scalar,
}

/// `entry` as used in `epoch`.
pub open spec fn used_in(entry: GlyphEntry, epoch: u32) -> GlyphEntry {
    GlyphEntry { last_used_epoch: epoch, ..entry }
}

fn forget_use(entry: &mut GlyphEntry) -> (keep: bool)
    ensures
        keep,
        *final(entry) == used_in(*old(entry), 0),
{
    entry.last_used_epoch = 0;
    true
}

/// `HashMap::retain`, which visits every entry, with a predicate that keeps
/// all of them and marks each as unused.
#[verifier::external_body]
fn fx_forget_uses(m: &mut rustc_hash::FxHashMap<u128, GlyphEntry>)
    ensures
        final(m)@ == old(m)@.map_values(|e: GlyphEntry| used_in(e, 0)),
{
    m.retain(|_, entry| forget_use(entry));
}

/// The glyph cache, with usage tracked for each frame by an epoch counter.
pub struct GlyphMap {
    map: KeyMap<GlyphEntry>,
    current_epoch: u32,
    frame_used: usize,
}

impl View for GlyphMap {
    type V = Map<GlyphKey, GlyphEntry>;

    closed spec fn view(&self) -> Map<GlyphKey, GlyphEntry> {
        self.map@
    }
}

impl GlyphMap {
    /// The number of the current frame.
    pub closed spec fn epoch(&self) -> u32 {
        self.current_epoch
    }

    /// How many uses were counted in the current frame.
    pub closed spec fn used(&self) -> usize {
        self.frame_used
    }

    /// Epoch 0 means "never used", so the counter skips it, no entry was used
    /// in a frame to come, and the count of uses is that of the glyphs used.
    pub closed spec fn wf(&self) -> bool {
        &&& self.map.wf()
        &&& self.counts_used()
        &&& self@.dom().finite()
        &&& self.current_epoch >= 1
        &&& forall|k: GlyphKey| #[trigger]
            self@.contains_key(k) ==> self@[k].last_used_epoch <= self.current_epoch
    }

    /// The keys that were used in the current frame.
    pub open spec fn used_keys(&self) -> Set<GlyphKey> {
        self@.dom().filter(|k: GlyphKey| self@[k].last_used_epoch == self.epoch())
    }

    /// Whether the count of uses is the number of glyphs used in this frame.
    pub open spec fn counts_used(&self) -> bool {
        self.used() == self.used_keys().len()
    }
}

impl Default for GlyphMap {
    fn default() -> (r: GlyphMap)
        ensures
            r.wf(),
            r@ == Map::<GlyphKey, GlyphEntry>::empty(),
            r.epoch() == 1,
            r.used() == 0,
            r.counts_used(),
    {
        let r = GlyphMap { map: KeyMap::new(), current_epoch: 1, frame_used: 0 };
        assert(r.used_keys() =~= Set::empty());
        r
    }
}

impl GlyphMap {
    pub fn new() -> (r: GlyphMap)
        ensures
            r.wf(),
            r@ == Map::<GlyphKey, GlyphEntry>::empty(),
            r.epoch() == 1,
            r.used() == 0,
            r.counts_used(),
    {
        GlyphMap::default()
    }

    /// Looks up a glyph and marks it used in this frame. A glyph counts as
    /// used once per frame.
    pub fn get_and_mark_used(&mut self, key: &GlyphKey) -> (r: Option<GlyphEntry>)
        requires
            old(self).wf(),
        ensures
            final(self).wf(),
            final(self).epoch() == old(self).epoch(),
            match r {
                Some(e) => {
                    &&& old(self)@.contains_key(*key)
                    &&& e == used_in(old(self)@[*key], old(self).epoch())
                    &&& final(self)@ == old(self)@.insert(*key, e)
                    &&& final(self).used() == old(self).used() + if old(self)@[*key].last_used_epoch
                        == old(self).epoch() {
                        0int
                    } else {
                        1
                    }
                },
                None => !old(self)@.contains_key(*key) && *final(self) == *old(self),
            },
            final(self).counts_used(),
    {
        let found: Option<GlyphEntry> = match self.map.get(key) {
            Some(e) => Some(*e),
            None => None,
        };
        match found {
            None => None,
            Some(e) => {
                if e.last_used_epoch != self.current_epoch {
                    let total: usize = self.map.len();
                    proof {
                        lemma_used_finite(*old(self));
                        assert(!self.used_keys().contains(*key));
                        assert(self.used_keys().insert(*key).subset_of(self@.dom()));
                        lemma_len_subset(self.used_keys().insert(*key), self@.dom());
                        assert(self.used_keys().len() < total);
                    }
                    let mut marked = e;
                    marked.last_used_epoch = self.current_epoch;
                    self.map.insert(*key, marked);
                    self.frame_used = self.frame_used + 1;
                    proof {
                        assert(self.used_keys() =~= old(self).used_keys().insert(*key));
                    }
                    Some(marked)
                } else {
                    assert(self@.insert(*key, e) =~= self@);
                    Some(e)
                }
            },
        }
    }

    /// Inserts an entry and marks it used in this frame. A glyph counts as
    /// used once per frame, however often it is inserted.
    pub fn insert_and_mark_used(&mut self, key: GlyphKey, entry: GlyphEntry) -> (r: GlyphEntry)
        requires
            old(self).wf(),
        ensures
            final(self).wf(),
            final(self).epoch() == old(self).epoch(),
            r == used_in(entry, old(self).epoch()),
            final(self)@ == old(self)@.insert(key, r),
            final(self).used() == old(self).used() + (if old(self).used_keys().contains(key) {
                0int
            } else {
                1
            }),
            final(self).counts_used(),
    {
        let counted: bool = match self.map.get(&key) {
            Some(e) => e.last_used_epoch == self.current_epoch,
            None => false,
        };
        let mut entry = entry;
        entry.last_used_epoch = self.current_epoch;
        self.map.insert(key, entry);
        let total: usize = self.map.len();
        proof {
            lemma_used_finite(*old(self));
            assert(self.used_keys() =~= old(self).used_keys().insert(key));
            assert(self.used_keys().subset_of(self@.dom()));
            lemma_len_subset(self.used_keys(), self@.dom());
            assert(self.used_keys().len() <= total);
        }
        if !counted {
            self.frame_used = self.frame_used + 1;
        }
        entry
    }

    pub fn clear(&mut self)
        requires
            old(self).wf(),
        ensures
            final(self).wf(),
            final(self)@ == Map::<GlyphKey, GlyphEntry>::empty(),
            final(self).epoch() == old(self).epoch(),
            final(self).used() == 0,
            final(self).counts_used(),
    {
        self.map.clear();
        self.frame_used = 0;
        assert(self.used_keys() =~= Set::empty());
    }

    pub fn len(&self) -> (r: usize)
        requires
            self.wf(),
        ensures
            r == self@.dom().len(),
            self@.dom().finite(),
    {
        self.map.len()
    }

    pub fn is_empty(&self) -> (r: bool)
        requires
            self.wf(),
        ensures
            r == (self@ == Map::<GlyphKey, GlyphEntry>::empty()),
    {
        let r: bool = self.map.len() == 0;
        proof {
            if self@.dom().len() == 0 {
                assert(self@.dom() =~= Set::empty());
                assert(self@ =~= Map::<GlyphKey, GlyphEntry>::empty());
            }
        }
        r
    }

    /// Looks up a glyph without marking it used.
    pub fn get(&self, key: &GlyphKey) -> (r: Option<GlyphEntry>)
        ensures
            r == (if self@.contains_key(*key) {
                Some(self@[*key])
            } else {
                None
            }),
    {
        match self.map.get(key) {
            Some(e) => Some(*e),
            None => None,
        }
    }

    pub fn contains_key(&self, key: &GlyphKey) -> (r: bool)
        ensures
            r == self@.contains_key(*key),
    {
        self.map.get(key).is_some()
    }

    /// Advances to the next frame, in which no glyph is used yet. When the
    /// counter wraps around, every entry becomes one that was never used.
    pub fn next_frame(&mut self)
        requires
            old(self).wf(),
        ensures
            final(self).wf(),
            final(self).used() == 0,
            final(self).used_keys() == Set::<GlyphKey>::empty(),
            final(self).counts_used(),
            if old(self).epoch() == u32::MAX {
                &&& final(self).epoch() == 1
                &&& final(self)@ == old(self)@.map_values(|e: GlyphEntry| used_in(e, 0))
            } else {
                &&& final(self).epoch() == old(self).epoch() + 1
                &&& final(self)@ == old(self)@
            },
    {
        self.frame_used = 0;
        self.current_epoch = self.current_epoch.wrapping_add(1);
        if self.current_epoch == 0 {
            self.current_epoch = 1;
            fx_forget_uses(&mut self.map.map);
            assert(self@ =~= old(self)@.map_values(|e: GlyphEntry| used_in(e, 0)));
            assert(self.map.map@.dom() =~= old(self).map.map@.dom());
            assert(self@.dom() =~= old(self)@.dom());
        }
        assert(self.used_keys() =~= Set::empty());
    }

    /// The number of the current frame.
    pub fn current_epoch(&self) -> (r: u32)
        ensures
            r == self.epoch(),
    {
        self.current_epoch
    }

    /// Number of glyphs used in this frame.
    pub fn in_use_count(&self) -> (r: usize)
        ensures
            r == self.used(),
    {
        self.frame_used
    }
}

impl GlyphMap {
    /// The count of uses is the number of cached glyphs that were used in the
    /// current frame, whatever was looked up, inserted or cleared.
    pub proof fn lemma_counts_used(&self)
        requires
            self.wf(),
        ensures
            self.counts_used(),
            self.used_keys().finite(),
            self.used() <= self@.dom().len(),
    {
        lemma_used_finite(*self);
        lemma_len_subset(self.used_keys(), self@.dom());
    }
}

proof fn lemma_used_finite(m: GlyphMap)
    requires
        m.wf(),
    ensures
        m.used_keys().finite(),
{
    m@.dom().lemma_len_filter(|k: GlyphKey| m@[k].last_used_epoch == m.epoch());
}

} // verus!
