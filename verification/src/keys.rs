//! Sorted lists of glyph keys without repetition.

use crate::glyph_cache::{lemma_number_order, GlyphKey};
use vstd::prelude::*;

verus! {

/// Whether every key stands before the next.
pub open spec fn ascending(keys: Seq<GlyphKey>) -> bool {
    forall|i: int, j: int|
        0 <= i < j < keys.len() ==> (#[trigger] keys[i]).before(#[trigger] keys[j])
}

/// Whether `list` holds the keys of `keys`, each once and in order.
pub open spec fn distinct_of(list: Seq<GlyphKey>, keys: Seq<GlyphKey>) -> bool {
    &&& ascending(list)
    &&& forall|k: GlyphKey| #[trigger] list.contains(k) <==> keys.contains(k)
}

/// The number of keys in an ascending list that stand before `key`.
fn position(list: &Vec<GlyphKey>, key: GlyphKey) -> (r: usize)
    requires
        ascending(list@),
    ensures
        r <= list.len(),
        forall|i: int| 0 <= i < r ==> (#[trigger] list@[i]).before(key),
        forall|i: int| r <= i < list.len() ==> !(#[trigger] list@[i]).before(key),
{
    let n: u128 = key.to_number();
    let mut low: usize = 0;
    let mut high: usize = list.len();
    while low < high
        invariant
            low <= high <= list.len(),
            n == key.number(),
            ascending(list@),
            forall|i: int| 0 <= i < low ==> (#[trigger] list@[i]).before(key),
            forall|i: int| high <= i < list.len() ==> !(#[trigger] list@[i]).before(key),
        decreases high - low,
    {
        let middle: usize = low + (high - low) / 2;
        let here: u128 = list[middle].to_number();
        proof {
            lemma_number_order(list@[middle as int], key);
            assert forall|i: int| 0 <= i < list.len() implies ((#[trigger] list@[i]).before(key)
                <==> list@[i].number() < n) by {
                lemma_number_order(list@[i], key);
            }
            assert forall|i: int, j: int| 0 <= i < j < list.len() implies (#[trigger] list@[i]).number()
                < (#[trigger] list@[j]).number() by {
                lemma_number_order(list@[i], list@[j]);
            }
        }
        if here < n {
            low = middle + 1;
        } else {
            high = middle;
        }
    }
    low
}

/// Puts a key into an ascending list, unless it is there.
pub fn insert_key(list: &mut Vec<GlyphKey>, key: GlyphKey)
    requires
        ascending(old(list)@),
    ensures
        ascending(final(list)@),
        forall|k: GlyphKey| #[trigger]
            final(list)@.contains(k) <==> old(list)@.contains(k) || k == key,
{
    let at: usize = position(list, key);
    if at < list.len() && list[at] == key {
        assert(list@[at as int] == key);
        return;
    }
    list.insert(at, key);
    proof {
        let before = old(list)@;
        let after = list@;
        assert(after =~= before.insert(at as int, key));
        assert forall|i: int| 0 <= i < before.len() implies (before[i].before(key)
            <==> before[i].number() < key.number()) && (before[i] == key <==> before[i].number()
            == key.number()) by {
            lemma_number_order(before[i], key);
        }
        assert forall|i: int, j: int| 0 <= i < j < after.len() implies (#[trigger] after[i]).before(
            #[trigger] after[j],
        ) by {
            lemma_number_order(after[i], after[j]);
            if i < at && j > at {
                assert(before[i].before(before[j - 1]));
            } else if j < at {
                assert(before[i].before(before[j]));
            } else if i > at {
                assert(before[i - 1].before(before[j - 1]));
            } else if i == at {
                // Behind the new key stand keys that are not before it and
                // not equal to it.
                let first = before[at as int];
                assert(!first.before(key));
                assert(first != key);
                lemma_number_order(first, key);
                if j > at + 1 {
                    assert(first.before(before[j - 1]));
                    lemma_number_order(first, before[j - 1]);
                }
                lemma_number_order(key, before[j - 1]);
            }
        }
        assert forall|k: GlyphKey| #[trigger] after.contains(k) <==> before.contains(k) || k
            == key by {
            if before.contains(k) {
                let i = choose|i: int| 0 <= i < before.len() && before[i] == k;
                if i < at {
                    assert(after[i] == k);
                } else {
                    assert(after[i + 1] == k);
                }
            }
            if k == key {
                assert(after[at as int] == k);
            }
            if after.contains(k) && k != key {
                let i = choose|i: int| 0 <= i < after.len() && after[i] == k;
                if i < at {
                    assert(before[i] == k);
                } else {
                    assert(before[i - 1] == k);
                }
            }
        }
    }
}

/// The keys of a list, each once and in order.
pub fn distinct_keys(keys: &Vec<GlyphKey>) -> (r: Vec<GlyphKey>)
    ensures
        distinct_of(r@, keys@),
{
    let mut list: Vec<GlyphKey> = Vec::new();
    let mut i: usize = 0;
    while i < keys.len()
        invariant
            i <= keys.len(),
            distinct_of(list@, keys@.take(i as int)),
        decreases keys.len() - i,
    {
        let ghost before = list@;
        insert_key(&mut list, keys[i]);
        proof {
            let shorter = keys@.take(i as int);
            let longer = keys@.take(i + 1);
            assert forall|k: GlyphKey| #[trigger] list@.contains(k) <==> longer.contains(k) by {
                assert(longer =~= shorter.push(keys@[i as int]));
                if longer.contains(k) && k != keys@[i as int] {
                    let j = choose|j: int| 0 <= j < longer.len() && longer[j] == k;
                    assert(shorter[j] == k);
                }
                if shorter.contains(k) {
                    let j = choose|j: int| 0 <= j < shorter.len() && shorter[j] == k;
                    assert(longer[j] == k);
                }
                if k == keys@[i as int] {
                    assert(longer[i as int] == k);
                }
                assert(before.contains(k) <==> shorter.contains(k));
            }
        }
        i = i + 1;
    }
    assert(keys@.take(keys@.len() as int) =~= keys@);
    list
}

/// There is only one way to list keys once and in order.
pub proof fn lemma_distinct_unique(a: Seq<GlyphKey>, b: Seq<GlyphKey>)
    requires
        ascending(a),
        ascending(b),
        forall|k: GlyphKey| #[trigger] a.contains(k) <==> b.contains(k),
    ensures
        a == b,
    decreases a.len(),
{
    if a.len() == 0 {
        if b.len() > 0 {
            assert(b.contains(b[0]));
            assert(a.contains(b[0]));
        }
        assert(a =~= b);
    } else {
        assert(a.contains(a[0]));
        assert(b.len() > 0);
        let x = a.last();
        let y = b.last();
        assert(a.contains(x));
        assert(b.contains(y));
        assert(a.contains(y));
        let i = choose|i: int| 0 <= i < b.len() && b[i] == x;
        let j = choose|j: int| 0 <= j < a.len() && a[j] == y;
        lemma_number_order(x, y);
        lemma_number_order(y, x);
        if i < b.len() - 1 {
            assert(b[i].before(b[b.len() - 1]));
        }
        if j < a.len() - 1 {
            assert(a[j].before(a[a.len() - 1]));
        }
        assert(x == y);
        let c = a.drop_last();
        let d = b.drop_last();
        assert forall|k: GlyphKey| #[trigger] c.contains(k) <==> d.contains(k) by {
            lemma_front_contains(a, k);
            lemma_front_contains(b, k);
        }
        lemma_distinct_unique(c, d);
        assert(a =~= c.push(x));
        assert(b =~= d.push(y));
    }
}

proof fn lemma_front_contains(a: Seq<GlyphKey>, k: GlyphKey)
    requires
        ascending(a),
        a.len() > 0,
    ensures
        a.drop_last().contains(k) <==> a.contains(k) && k != a.last(),
{
    let c = a.drop_last();
    if c.contains(k) {
        let i = choose|i: int| 0 <= i < c.len() && c[i] == k;
        assert(a[i] == k);
        assert(a[i].before(a[a.len() - 1]));
    }
    if a.contains(k) && k != a.last() {
        let i = choose|i: int| 0 <= i < a.len() && a[i] == k;
        assert(c[i] == k);
    }
}

} // verus!
