//! Prepared text areas kept from frame to frame.

use crate::emit::NonVectorGlyph;
use crate::fxmap::{fx_get, fx_insert, fx_new, fx_remove};
use crate::glyph_cache::GlyphKey;
use crate::instance::GlyphInstance;
use crate::outline::Point;
use crate::scalar::Scalar;
use crate::types::TextBounds;
use vstd::arithmetic::div_mod::lemma_fundamental_div_mod;
use vstd::prelude::*;

verus! {

/// Tells the areas of a frame apart: the text buffer that an area shows, and
/// how many areas before it show the same buffer.
#[derive(Clone, Copy, Debug, PartialEq, Eq, Structural)]
pub struct AreaKey {
    pub buffer: u64,
    pub occurrence: u64,
}

impl AreaKey {
    /// The key as one number.
    pub open spec fn number(self) -> u128 {
        (self.buffer * 0x1_0000_0000_0000_0000 + self.occurrence) as u128
    }

    /// The key that a number stands for.
    pub open spec fn of_number(n: u128) -> AreaKey {
        AreaKey {
            buffer: (n / 0x1_0000_0000_0000_0000) as u64,
            occurrence: (n % 0x1_0000_0000_0000_0000) as u64,
        }
    }

    fn to_number(self) -> (r: u128)
        ensures
            r == self.number(),
    {
        self.buffer as u128 * 0x1_0000_0000_0000_0000 + self.occurrence as u128
    }
}

proof fn lemma_area_key_number(k: AreaKey, n: u128)
    ensures
        AreaKey::of_number(k.number()) == k,
        AreaKey::of_number(n).number() == n,
{
    let b = k.buffer as int;
    let o = k.occurrence as int;
    assert((b * 0x1_0000_0000_0000_0000 + o) / 0x1_0000_0000_0000_0000 == b);
    assert((b * 0x1_0000_0000_0000_0000 + o) % 0x1_0000_0000_0000_0000 == o);
    lemma_fundamental_div_mod(n as int, 0x1_0000_0000_0000_0000);
    assert(0 <= n as int / 0x1_0000_0000_0000_0000 < 0x1_0000_0000_0000_0000);
}

/// The prepared output of a text area.
#[derive(Debug)]
pub struct CachedTextArea {
    pub left: Scalar,
    pub top: Scalar,
    pub scroll: Point,
    pub scale: Scalar,
    pub bounds: TextBounds,
    pub default_color: u32,
    pub border_width: Option<Scalar>,
    pub atlas_generation: u32,
    pub instances: Vec<GlyphInstance>,
    pub border_instances: Vec<GlyphInstance>,
    pub distinct_keys: Vec<GlyphKey>,
    pub non_vector_glyphs: Vec<NonVectorGlyph>,
    /// Whether the area was emitted as a whole, so that a change of placement
    /// can be met by culling anew.
    pub complete: bool,
}

/// How many areas of the current frame show each text buffer.
pub struct Occurrences {
    counts: rustc_hash::FxHashMap<u128, u64>,
}

impl Occurrences {
    /// How many areas showed a buffer so far.
    pub closed spec fn count(&self, buffer: u64) -> u64 {
        if self.counts@.contains_key(buffer as u128) {
            self.counts@[buffer as u128]
        } else {
            0
        }
    }

    pub fn new() -> (r: Occurrences)
        ensures
            forall|b: u64| #[trigger] r.count(b) == 0,
    {
        Occurrences { counts: fx_new() }
    }

    pub fn clear(&mut self)
        ensures
            forall|b: u64| #[trigger] final(self).count(b) == 0,
    {
        self.counts.clear();
    }

    pub fn get(&self, buffer: u64) -> (r: u64)
        ensures
            r == self.count(buffer),
    {
        match fx_get(&self.counts, buffer as u128) {
            Some(n) => *n,
            None => 0,
        }
    }

    /// Counts one more area, and gives the number of areas before it.
    pub fn next(&mut self, buffer: u64) -> (r: u64)
        requires
            old(self).count(buffer) < u64::MAX,
        ensures
            r == old(self).count(buffer),
            forall|b: u64| #[trigger]
                final(self).count(b) == old(self).count(b) + if b == buffer {
                    1int
                } else {
                    0
                },
    {
        let n: u64 = self.get(buffer);
        fx_insert(&mut self.counts, buffer as u128, n + 1);
        n
    }
}

/// Whether an area is part of the frame that the counts were taken of.
pub open spec fn is_current(occurrences: Occurrences, key: AreaKey) -> bool {
    key.occurrence < occurrences.count(key.buffer)
}

/// An area as seen by an atlas of `generation`.
pub open spec fn of_generation(area: CachedTextArea, generation: u32) -> CachedTextArea {
    CachedTextArea { atlas_generation: generation, ..area }
}

fn keep_area(
    occurrences: &Occurrences,
    key: u128,
    generation: u32,
    area: &mut CachedTextArea,
) -> (r: bool)
    ensures
        r == is_current(*occurrences, AreaKey::of_number(key)),
        *final(area) == of_generation(*old(area), generation),
{
    area.atlas_generation = generation;
    let buffer: u64 = (key / 0x1_0000_0000_0000_0000) as u64;
    let occurrence: u64 = (key % 0x1_0000_0000_0000_0000) as u64;
    occurrence < occurrences.get(buffer)
}

/// The entries that `retain_areas` keeps.
pub open spec fn retained_areas(
    map: Map<u128, CachedTextArea>,
    occurrences: Occurrences,
    generation: u32,
) -> Map<u128, CachedTextArea> {
    Map::new(
        |n: u128| map.contains_key(n) && is_current(occurrences, AreaKey::of_number(n)),
        |n: u128| of_generation(map[n], generation),
    )
}

/// `HashMap::retain`, which visits every entry and keeps those for which the
/// predicate holds, as the predicate leaves them.
#[verifier::external_body]
fn retain_areas(
    map: &mut rustc_hash::FxHashMap<u128, CachedTextArea>,
    occurrences: &Occurrences,
    generation: u32,
)
    ensures
        final(map)@ == retained_areas(old(map)@, *occurrences, generation),
{
    map.retain(|key, area| keep_area(occurrences, *key, generation, area));
}

/// The areas kept from frame to frame.
pub struct AreaCache {
    map: rustc_hash::FxHashMap<u128, CachedTextArea>,
}

impl View for AreaCache {
    type V = Map<AreaKey, CachedTextArea>;

    closed spec fn view(&self) -> Map<AreaKey, CachedTextArea> {
        Map::new(
            |k: AreaKey| self.map@.contains_key(k.number()),
            |k: AreaKey| self.map@[k.number()],
        )
    }
}

impl AreaCache {
    pub fn new() -> (r: AreaCache)
        ensures
            r@ == Map::<AreaKey, CachedTextArea>::empty(),
    {
        let r = AreaCache { map: fx_new() };
        assert(r@ =~= Map::<AreaKey, CachedTextArea>::empty());
        r
    }

    pub fn clear(&mut self)
        ensures
            final(self)@ == Map::<AreaKey, CachedTextArea>::empty(),
    {
        self.map.clear();
        assert(self@ =~= Map::<AreaKey, CachedTextArea>::empty());
    }

    pub fn get(&self, key: &AreaKey) -> (r: Option<&CachedTextArea>)
        ensures
            match r {
                Some(area) => self@.contains_key(*key) && *area == self@[*key],
                None => !self@.contains_key(*key),
            },
    {
        fx_get(&self.map, key.to_number())
    }

    pub fn insert(&mut self, key: AreaKey, area: CachedTextArea)
        ensures
            final(self)@ == old(self)@.insert(key, area),
    {
        fx_insert(&mut self.map, key.to_number(), area);
        proof {
            assert forall|k: AreaKey| k.number() == key.number() implies k == key by {
                lemma_area_key_number(k, 0);
                lemma_area_key_number(key, 0);
            }
            assert(self@ =~= old(self)@.insert(key, area));
        }
    }

    /// Takes an area out.
    pub fn take(&mut self, key: &AreaKey) -> (r: Option<CachedTextArea>)
        ensures
            final(self)@ == old(self)@.remove(*key),
            match r {
                Some(area) => old(self)@.contains_key(*key) && area == old(self)@[*key],
                None => !old(self)@.contains_key(*key),
            },
    {
        let r = fx_remove(&mut self.map, key.to_number());
        proof {
            assert forall|k: AreaKey| k.number() == key.number() implies k == *key by {
                lemma_area_key_number(k, 0);
                lemma_area_key_number(*key, 0);
            }
            assert(self@ =~= old(self)@.remove(*key));
        }
        r
    }

    /// Keeps the areas of the current frame, as seen by an atlas of
    /// `generation`.
    pub fn retain(&mut self, occurrences: &Occurrences, generation: u32)
        ensures
            forall|k: AreaKey| #[trigger]
                final(self)@.contains_key(k) <==> old(self)@.contains_key(k) && is_current(
                    *occurrences,
                    k,
                ),
            forall|k: AreaKey| #[trigger]
                final(self)@.contains_key(k) ==> final(self)@[k] == of_generation(
                    old(self)@[k],
                    generation,
                ),
    {
        retain_areas(&mut self.map, occurrences, generation);
        proof {
            assert forall|k: AreaKey| #[trigger] self@.contains_key(k) <==> old(
                self)@.contains_key(k) && is_current(*occurrences, k) by {
                lemma_area_key_number(k, 0);
            }
        }
    }
}

} // verus!
