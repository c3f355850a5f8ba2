//! The curves that a band lists, their order, and where the band is split.

use crate::outline::{Axis, QuadCurve};
use vstd::prelude::*;

verus! {

/// Where a curve lies in band coordinates: the whole part of its least and
/// greatest coordinate on each axis, before clamping to the bands there are.
#[derive(Clone, Copy, Debug, PartialEq, Eq, Structural)]
pub struct BandPosition {
    pub low_x: i32,
    pub high_x: i32,
    pub low_y: i32,
    pub high_y: i32,
}

impl Axis {
    pub open spec fn other(self) -> Axis {
        match self {
            Axis::X => Axis::Y,
            Axis::Y => Axis::X,
        }
    }
}

impl BandPosition {
    pub open spec fn low(self, axis: Axis) -> int {
        match axis {
            Axis::X => self.low_x as int,
            Axis::Y => self.low_y as int,
        }
    }

    pub open spec fn high(self, axis: Axis) -> int {
        match axis {
            Axis::X => self.high_x as int,
            Axis::Y => self.high_y as int,
        }
    }
}

/// The band nearest to `position` among `count` bands.
pub open spec fn clamped(position: int, count: int) -> int {
    if position < 0 {
        0
    } else if position >= count {
        count - 1
    } else {
        position
    }
}

/// Whether all control points of a curve share their coordinate along `axis`.
/// No ray at right angles to the axis crosses such a curve.
pub open spec fn flat(curve: QuadCurve, axis: Axis) -> bool {
    curve.low(axis).equal(curve.high(axis))
}

/// Whether a curve reaches into band `band` of the `count` bands along `axis`.
pub open spec fn reaches(
    curve: QuadCurve,
    position: BandPosition,
    axis: Axis,
    count: int,
    band: int,
) -> bool {
    &&& !flat(curve, axis)
    &&& clamped(position.low(axis), count) <= band <= clamped(position.high(axis), count)
}

/// How a list orders curves: by falling greatest coordinate along an axis, or
/// by rising least coordinate.
pub open spec fn list_key(curve: QuadCurve, axis: Axis, falling: bool) -> int {
    if falling {
        -curve.high(axis).order()
    } else {
        curve.low(axis).order()
    }
}

/// `list` with `index` put before the first entry of a greater key.
pub open spec fn insert_by_key(list: Seq<usize>, keys: Seq<i32>, index: usize) -> Seq<usize>
    decreases list.len(),
{
    if list.len() == 0 || keys[list.last() as int] <= keys[index as int] {
        list.push(index)
    } else {
        insert_by_key(list.drop_last(), keys, index).push(list.last())
    }
}

/// The keys of all curves.
pub open spec fn list_keys(curves: Seq<QuadCurve>, axis: Axis, falling: bool) -> Seq<i32> {
    Seq::new(curves.len(), |i: int| list_key(curves[i], axis, falling) as i32)
}

/// The curves among the first `n` that reach into a band, in the order of `keys`.
pub open spec fn band_list(
    curves: Seq<QuadCurve>,
    positions: Seq<BandPosition>,
    axis: Axis,
    count: int,
    band: int,
    keys: Seq<i32>,
    n: nat,
) -> Seq<usize>
    decreases n,
{
    if n == 0 {
        Seq::empty()
    } else {
        let shorter = band_list(curves, positions, axis, count, band, keys, (n - 1) as nat);
        if reaches(curves[n - 1], positions[n - 1], axis, count, band) {
            insert_by_key(shorter, keys, (n - 1) as usize)
        } else {
            shorter
        }
    }
}

/// The number of entries of `rising` whose key is at most `limit`.
pub open spec fn count_up_to(rising: Seq<usize>, keys: Seq<i32>, limit: int) -> int
    decreases rising.len(),
{
    if rising.len() == 0 {
        0
    } else {
        count_up_to(rising.drop_last(), keys, limit) + if keys[rising.last() as int] <= limit {
            1int
        } else {
            0
        }
    }
}

/// The two lists of a band with their keys.
pub struct BandLists {
    pub falling: Seq<usize>,
    pub rising: Seq<usize>,
    pub falling_keys: Seq<i32>,
    pub rising_keys: Seq<i32>,
}

impl BandLists {
    /// The coordinate, as a place in the order of numbers, at which entry `c`
    /// of the falling list would split the band.
    pub open spec fn split_at(self, c: int) -> int {
        -self.falling_keys[self.falling[c] as int]
    }

    /// The most curves that either side walks when entry `c` of the falling
    /// list splits the band: the curves of the falling list up to `c`, or the
    /// curves that begin at or before the split.
    pub open spec fn worst(self, c: int) -> int {
        let left = count_up_to(self.rising, self.rising_keys, self.split_at(c));
        if left > c + 1 {
            left
        } else {
            c + 1
        }
    }

    /// What a split has to beat after `choice`.
    pub open spec fn bound(self, choice: Option<int>) -> int {
        match choice {
            Some(c) => self.worst(c),
            None => self.falling.len() as int,
        }
    }

    /// The best among the first `n` entries of the falling list: the first
    /// that keeps both sides shortest, if any makes a side shorter than the
    /// whole list.
    pub open spec fn best_split(self, n: nat) -> Option<int>
        decreases n,
    {
        if n == 0 {
            None
        } else {
            let earlier = self.best_split((n - 1) as nat);
            if self.worst(n - 1) < self.bound(earlier) {
                Some(n - 1)
            } else {
                earlier
            }
        }
    }
}

/// The lists of band `band` of the `count` bands along `axis`, ordered along
/// the other axis.
pub open spec fn lists_of(
    curves: Seq<QuadCurve>,
    positions: Seq<BandPosition>,
    axis: Axis,
    count: int,
    band: int,
) -> BandLists {
    let falling_keys = list_keys(curves, axis.other(), true);
    let rising_keys = list_keys(curves, axis.other(), false);
    BandLists {
        falling: band_list(curves, positions, axis, count, band, falling_keys, curves.len()),
        rising: band_list(curves, positions, axis, count, band, rising_keys, curves.len()),
        falling_keys,
        rising_keys,
    }
}

/// Whether `list` holds exactly the curves that reach into a band, ordered by
/// key and, among equal keys, by index.
pub open spec fn lists_band(
    list: Seq<usize>,
    curves: Seq<QuadCurve>,
    positions: Seq<BandPosition>,
    axis: Axis,
    count: int,
    band: int,
    keys: Seq<i32>,
    n: nat,
) -> bool {
    &&& forall|p: int|
        0 <= p < list.len() ==> {
            let i = #[trigger] list[p] as int;
            i < n && reaches(curves[i], positions[i], axis, count, band)
        }
    &&& forall|i: int|
        0 <= i < n && #[trigger] reaches(curves[i], positions[i], axis, count, band)
            ==> list.contains(i as usize)
    &&& forall|p: int, q: int|
        0 <= p < q < list.len() ==> {
            let a = #[trigger] list[p];
            let b = #[trigger] list[q];
            keys[a as int] < keys[b as int] || (keys[a as int] == keys[b as int] && a < b)
        }
}

proof fn lemma_insert_by_key(list: Seq<usize>, keys: Seq<i32>, index: usize)
    requires
        forall|p: int| 0 <= p < list.len() ==> #[trigger] list[p] < index,
        forall|p: int, q: int|
            0 <= p < q < list.len() ==> {
                let a = #[trigger] list[p];
                let b = #[trigger] list[q];
                keys[a as int] < keys[b as int] || (keys[a as int] == keys[b as int] && a < b)
            },
    ensures
        ({
            let r = insert_by_key(list, keys, index);
            &&& r.len() == list.len() + 1
            &&& forall|p: int|
                0 <= p < r.len() ==> (#[trigger] r[p] == index || list.contains(r[p]))
            &&& r.contains(index)
            &&& forall|p: int| 0 <= p < list.len() ==> r.contains(#[trigger] list[p])
            &&& forall|p: int, q: int|
                0 <= p < q < r.len() ==> {
                    let a = #[trigger] r[p];
                    let b = #[trigger] r[q];
                    keys[a as int] < keys[b as int] || (keys[a as int] == keys[b as int] && a < b)
                }
        }),
    decreases list.len(),
{
    let r = insert_by_key(list, keys, index);
    if list.len() == 0 || keys[list.last() as int] <= keys[index as int] {
        assert(r[r.len() - 1] == index);
        assert forall|p: int| 0 <= p < list.len() implies r.contains(#[trigger] list[p]) by {
            assert(r[p] == list[p]);
        }
    } else {
        let front = list.drop_last();
        lemma_insert_by_key(front, keys, index);
        let inner = insert_by_key(front, keys, index);
        assert(r == inner.push(list.last()));
        assert(r[inner.len() as int] == list.last());
        let k = choose|k: int| 0 <= k < inner.len() && inner[k] == index;
        assert(r[k] == index);
        assert forall|p: int| 0 <= p < list.len() implies r.contains(#[trigger] list[p]) by {
            if p < front.len() {
                assert(inner.contains(front[p]));
                let j = choose|j: int| 0 <= j < inner.len() && inner[j] == front[p];
                assert(r[j] == list[p]);
            }
        }
        assert forall|p: int| 0 <= p < r.len() implies (#[trigger] r[p] == index || list.contains(
            r[p],
        )) by {
            if p < inner.len() {
                assert(r[p] == inner[p]);
                if inner[p] != index {
                    let j = choose|j: int| 0 <= j < front.len() && front[j] == inner[p];
                    assert(list[j] == r[p]);
                }
            } else {
                assert(list[list.len() - 1] == r[p]);
            }
        }
        assert forall|p: int, q: int| 0 <= p < q < r.len() implies {
            let a = #[trigger] r[p];
            let b = #[trigger] r[q];
            keys[a as int] < keys[b as int] || (keys[a as int] == keys[b as int] && a < b)
        } by {
            if q == inner.len() {
                assert(r[p] == inner[p]);
                if inner[p] != index {
                    assert(front.contains(inner[p]));
                    let j = choose|j: int| 0 <= j < front.len() && front[j] == inner[p];
                    assert(list[j] == r[p]);
                    assert(list[list.len() - 1] == r[q]);
                }
            } else {
                assert(r[p] == inner[p] && r[q] == inner[q]);
            }
        }
    }
}

/// A band lists exactly the curves that reach into it, each once, in order.
pub proof fn lemma_band_list(
    curves: Seq<QuadCurve>,
    positions: Seq<BandPosition>,
    axis: Axis,
    count: int,
    band: int,
    keys: Seq<i32>,
    n: nat,
)
    requires
        n <= usize::MAX,
    ensures
        lists_band(
            band_list(curves, positions, axis, count, band, keys, n),
            curves,
            positions,
            axis,
            count,
            band,
            keys,
            n,
        ),
    decreases n,
{
    if n > 0 {
        let m = (n - 1) as nat;
        lemma_band_list(curves, positions, axis, count, band, keys, m);
        let shorter = band_list(curves, positions, axis, count, band, keys, m);
        let list = band_list(curves, positions, axis, count, band, keys, n);
        if reaches(curves[m as int], positions[m as int], axis, count, band) {
            lemma_insert_by_key(shorter, keys, m as usize);
            assert forall|p: int| 0 <= p < list.len() implies ({
                let i = #[trigger] list[p] as int;
                i < n && reaches(curves[i], positions[i], axis, count, band)
            }) by {
                if list[p] != m as usize {
                    let j = choose|j: int| 0 <= j < shorter.len() && shorter[j] == list[p];
                    assert(shorter[j] == list[p]);
                }
            }
            assert forall|i: int|
                0 <= i < n && #[trigger] reaches(
                    curves[i],
                    positions[i],
                    axis,
                    count,
                    band,
                ) implies list.contains(i as usize) by {
                if i < m {
                    assert(shorter.contains(i as usize));
                    let j = choose|j: int| 0 <= j < shorter.len() && shorter[j] == i as usize;
                    assert(list.contains(shorter[j]));
                }
            }
        }
    }
}

proof fn lemma_list_length(
    curves: Seq<QuadCurve>,
    positions: Seq<BandPosition>,
    axis: Axis,
    count: int,
    band: int,
    keys: Seq<i32>,
    other_keys: Seq<i32>,
    n: nat,
)
    ensures
        band_list(curves, positions, axis, count, band, keys, n).len() == band_list(
            curves,
            positions,
            axis,
            count,
            band,
            other_keys,
            n,
        ).len(),
        band_list(curves, positions, axis, count, band, keys, n).len() <= n,
    decreases n,
{
    if n > 0 {
        let m = (n - 1) as nat;
        lemma_list_length(curves, positions, axis, count, band, keys, other_keys, m);
        lemma_insert_length(
            band_list(curves, positions, axis, count, band, keys, m),
            keys,
            m as usize,
        );
        lemma_insert_length(
            band_list(curves, positions, axis, count, band, other_keys, m),
            other_keys,
            m as usize,
        );
    }
}

proof fn lemma_insert_length(list: Seq<usize>, keys: Seq<i32>, index: usize)
    ensures
        insert_by_key(list, keys, index).len() == list.len() + 1,
    decreases list.len(),
{
    if list.len() > 0 {
        lemma_insert_length(list.drop_last(), keys, index);
    }
}

/// Both lists of a band have the same length.
pub proof fn lemma_lists_same_length(
    curves: Seq<QuadCurve>,
    positions: Seq<BandPosition>,
    axis: Axis,
    count: int,
    band: int,
)
    ensures
        lists_of(curves, positions, axis, count, band).falling.len() == lists_of(
            curves,
            positions,
            axis,
            count,
            band,
        ).rising.len(),
        lists_of(curves, positions, axis, count, band).falling.len() <= curves.len(),
{
    lemma_list_length(
        curves,
        positions,
        axis,
        count,
        band,
        list_keys(curves, axis.other(), true),
        list_keys(curves, axis.other(), false),
        curves.len(),
    );
}

fn insert_sorted(list: &mut Vec<usize>, keys: &Vec<i32>, index: usize)
    requires
        index < keys.len(),
        forall|p: int| 0 <= p < old(list).len() ==> #[trigger] old(list)@[p] < keys.len(),
        old(list).len() < usize::MAX,
    ensures
        final(list)@ == insert_by_key(old(list)@, keys@, index),
{
    let mut at: usize = list.len();
    assert(list@.take(at as int) + list@.skip(at as int) =~= list@);
    assert(insert_by_key(list@, keys@, index) =~= insert_by_key(
        list@.take(at as int),
        keys@,
        index,
    ) + list@.skip(at as int)) by {
        assert(list@.take(at as int) =~= list@);
        assert(list@.skip(at as int) =~= Seq::<usize>::empty());
    }
    while at > 0 && keys[list[at - 1]] > keys[index]
        invariant
            at <= list.len(),
            list@ == old(list)@,
            index < keys.len(),
            forall|p: int| 0 <= p < list.len() ==> #[trigger] list@[p] < keys.len(),
            insert_by_key(list@, keys@, index) == insert_by_key(list@.take(at as int), keys@, index)
                + list@.skip(at as int),
        decreases at,
    {
        proof {
            let front = list@.take(at as int);
            assert(front.last() == list@[at - 1]);
            assert(front.drop_last() =~= list@.take(at - 1));
            assert(insert_by_key(front.drop_last(), keys@, index).push(front.last())
                + list@.skip(at as int) =~= insert_by_key(list@.take(at - 1), keys@, index)
                + list@.skip(at - 1));
        }
        at = at - 1;
    }
    proof {
        let front = list@.take(at as int);
        if at > 0 {
            assert(front.last() == list@[at - 1]);
        }
        assert(front.push(index) + list@.skip(at as int) =~= list@.insert(at as int, index));
    }
    list.insert(at, index);
}

/// The nearest band to `position` among `count` bands.
fn clamp_band(position: i32, count: u32) -> (r: u32)
    requires
        count > 0,
    ensures
        r == clamped(position as int, count as int),
{
    if position < 0 {
        0
    } else if position as u32 >= count {
        count - 1
    } else {
        position as u32
    }
}

fn curve_reaches(
    curve: &QuadCurve,
    position: BandPosition,
    axis: Axis,
    count: u32,
    band: u32,
) -> (r: bool)
    requires
        count > 0,
    ensures
        r == reaches(*curve, position, axis, count as int, band as int),
{
    let (low, high): (i32, i32) = match axis {
        Axis::X => (position.low_x, position.high_x),
        Axis::Y => (position.low_y, position.high_y),
    };
    !curve.lowest(axis).same(curve.highest(axis)) && clamp_band(low, count) <= band && band
        <= clamp_band(high, count)
}

pub(crate) fn list_band(
    curves: &Vec<QuadCurve>,
    positions: &Vec<BandPosition>,
    axis: Axis,
    count: u32,
    band: u32,
    keys: &Vec<i32>,
) -> (list: Vec<usize>)
    requires
        positions.len() == curves.len(),
        keys.len() == curves.len(),
        count > 0,
    ensures
        list@ == band_list(
            curves@,
            positions@,
            axis,
            count as int,
            band as int,
            keys@,
            curves@.len(),
        ),
{
    let mut list: Vec<usize> = Vec::new();
    let mut i: usize = 0;
    while i < curves.len()
        invariant
            i <= curves.len(),
            positions.len() == curves.len(),
            keys.len() == curves.len(),
            count > 0,
            list@ == band_list(
                curves@,
                positions@,
                axis,
                count as int,
                band as int,
                keys@,
                i as nat,
            ),
        decreases curves.len() - i,
    {
        let curve = curves[i];
        if curve_reaches(&curve, positions[i], axis, count, band) {
            proof {
                lemma_list_length(
                    curves@,
                    positions@,
                    axis,
                    count as int,
                    band as int,
                    keys@,
                    keys@,
                    i as nat,
                );
                lemma_band_list(
                    curves@,
                    positions@,
                    axis,
                    count as int,
                    band as int,
                    keys@,
                    i as nat,
                );
            }
            insert_sorted(&mut list, keys, i);
        }
        i = i + 1;
    }
    list
}

pub(crate) fn other_axis(axis: Axis) -> (r: Axis)
    ensures
        r == axis.other(),
{
    match axis {
        Axis::X => Axis::Y,
        Axis::Y => Axis::X,
    }
}

pub(crate) fn collect_keys(curves: &Vec<QuadCurve>, axis: Axis, falling: bool) -> (keys: Vec<i32>)
    ensures
        keys@ == list_keys(curves@, axis, falling),
        forall|i: int|
            0 <= i < curves.len() ==> #[trigger] keys@[i] == list_key(curves@[i], axis, falling),
{
    let mut keys: Vec<i32> = Vec::new();
    let mut i: usize = 0;
    while i < curves.len()
        invariant
            i <= curves.len(),
            keys.len() == i,
            forall|k: int|
                0 <= k < i ==> #[trigger] keys@[k] == list_key(curves@[k], axis, falling),
        decreases curves.len() - i,
    {
        let curve = curves[i];
        if falling {
            let rank: i32 = curve.highest(axis).rank();
            keys.push(-rank);
        } else {
            let rank: i32 = curve.lowest(axis).rank();
            keys.push(rank);
        }
        i = i + 1;
    }
    keys
}

proof fn lemma_count_up_to(rising: Seq<usize>, keys: Seq<i32>, limit: int, k: int)
    requires
        0 <= k <= rising.len(),
        forall|p: int| 0 <= p < k ==> keys[#[trigger] rising[p] as int] <= limit,
        forall|p: int| k <= p < rising.len() ==> keys[#[trigger] rising[p] as int] > limit,
    ensures
        count_up_to(rising, keys, limit) == k,
    decreases rising.len(),
{
    if rising.len() > 0 {
        let front = rising.drop_last();
        assert forall|p: int| 0 <= p < front.len() implies #[trigger] front[p] == rising[p] by {}
        if k == rising.len() {
            lemma_count_up_to(front, keys, limit, k - 1);
        } else {
            lemma_count_up_to(front, keys, limit, k);
        }
    }
}

/// The best split leaves neither side longer than any other split would, it
/// is the first to do so, and there is none only where every split leaves a
/// side as long as the whole list.
pub proof fn lemma_best_split(lists: BandLists, n: nat)
    ensures
        match lists.best_split(n) {
            Some(c) => {
                &&& 0 <= c < n
                &&& lists.worst(c) < lists.falling.len()
                &&& forall|d: int| 0 <= d < n ==> lists.worst(c) <= #[trigger] lists.worst(d)
                &&& forall|d: int| 0 <= d < c ==> lists.worst(c) < #[trigger] lists.worst(d)
            },
            None => forall|d: int|
                0 <= d < n ==> lists.falling.len() <= #[trigger] lists.worst(d),
        },
    decreases n,
{
    if n > 0 {
        lemma_best_split(lists, (n - 1) as nat);
    }
}

/// Whether the keys of a list never fall.
pub open spec fn keys_rise(list: Seq<usize>, keys: Seq<i32>) -> bool {
    forall|p: int, q: int|
        0 <= p < q < list.len() ==> keys[#[trigger] list[p] as int]
            <= keys[#[trigger] list[q] as int]
}

/// Finds the split that keeps the longer of both sides shortest: the position
/// in the falling list of the curve that ends at the split. Walks the falling
/// list with a pointer into the rising list that only moves down.
pub(crate) fn find_split(
    falling: &Vec<usize>,
    rising: &Vec<usize>,
    falling_keys: &Vec<i32>,
    rising_keys: &Vec<i32>,
) -> (r: Option<usize>)
    requires
        falling.len() == rising.len(),
        falling_keys.len() == rising_keys.len(),
        forall|p: int| 0 <= p < falling.len() ==> #[trigger] falling@[p] < falling_keys.len(),
        forall|p: int| 0 <= p < rising.len() ==> #[trigger] rising@[p] < rising_keys.len(),
        forall|i: int| 0 <= i < falling_keys.len() ==> #[trigger] falling_keys@[i] > i32::MIN,
        keys_rise(falling@, falling_keys@),
        keys_rise(rising@, rising_keys@),
    ensures
        match (BandLists {
            falling: falling@,
            rising: rising@,
            falling_keys: falling_keys@,
            rising_keys: rising_keys@,
        }).best_split(falling@.len()) {
            Some(c) => r == Some(c as usize) && 0 <= c < falling.len(),
            None => r is None,
        },
{
    let ghost lists = BandLists {
        falling: falling@,
        rising: rising@,
        falling_keys: falling_keys@,
        rising_keys: rising_keys@,
    };
    let n: usize = falling.len();
    let mut best: Option<usize> = None;
    let mut best_worst: usize = n;
    let mut left: usize = n;
    let mut c: usize = 0;
    while c < n
        invariant
            c <= n,
            n == falling.len(),
            n == rising.len(),
            left <= n,
            falling_keys.len() == rising_keys.len(),
            forall|p: int| 0 <= p < falling.len() ==> #[trigger] falling@[p] < falling_keys.len(),
            forall|p: int| 0 <= p < rising.len() ==> #[trigger] rising@[p] < rising_keys.len(),
            forall|i: int| 0 <= i < falling_keys.len() ==> #[trigger] falling_keys@[i] > i32::MIN,
            keys_rise(falling@, falling_keys@),
            keys_rise(rising@, rising_keys@),
            lists == (BandLists {
                falling: falling@,
                rising: rising@,
                falling_keys: falling_keys@,
                rising_keys: rising_keys@,
            }),
            forall|p: int|
                left <= p < n && c > 0 ==> rising_keys@[#[trigger] rising@[p] as int]
                    > lists.split_at(c - 1),
            c == 0 ==> left == n,
            best_worst == lists.bound(lists.best_split(c as nat)),
            match lists.best_split(c as nat) {
                Some(b) => best == Some(b as usize) && 0 <= b < c,
                None => best is None,
            },
        decreases n - c,
    {
        let split: i32 = -falling_keys[falling[c]];
        assert(split == lists.split_at(c as int));
        assert(c > 0 ==> lists.split_at(c as int) <= lists.split_at(c - 1)) by {
            if c > 0 {
                assert(falling_keys@[falling@[c - 1] as int] <= falling_keys@[falling@[c as int] as int]);
            }
        }
        while left > 0 && rising_keys[rising[left - 1]] > split
            invariant
                left <= n,
                n == rising.len(),
                forall|p: int| 0 <= p < rising.len() ==> #[trigger] rising@[p] < rising_keys.len(),
                forall|p: int|
                    left <= p < n ==> rising_keys@[#[trigger] rising@[p] as int] > split,
            decreases left,
        {
            left = left - 1;
        }
        proof {
            assert forall|p: int| 0 <= p < left implies rising_keys@[#[trigger] rising@[p] as int]
                <= split by {
                if p < left - 1 {
                    assert(rising_keys@[rising@[p] as int]
                        <= rising_keys@[rising@[left - 1] as int]);
                }
            }
            lemma_count_up_to(rising@, rising_keys@, split as int, left as int);
        }
        let right: usize = c + 1;
        let worst: usize = if left > right {
            left
        } else {
            right
        };
        assert(worst == lists.worst(c as int));
        if worst < best_worst {
            best_worst = worst;
            best = Some(c);
        }
        c = c + 1;
    }
    best
}

} // verus!
