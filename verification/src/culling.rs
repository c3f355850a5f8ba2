//! What of a text area is visible, and what a cached area is still good for.

use crate::bytes::{signed, to_signed};
use crate::instance::{GlyphInstance, Rect};
use crate::scalar::Scalar;
use crate::types::{Resolution, TextBounds};
use vstd::prelude::*;

verus! {

/// The part of the bounds that lies on the screen, as the least and the
/// greatest coordinates.
pub open spec fn clipped(bounds: TextBounds, resolution: Resolution) -> Seq<i32> {
    let width = signed(resolution.width);
    let height = signed(resolution.height);
    seq![
        if bounds.left > 0 { bounds.left } else { 0 },
        if bounds.top > 0 { bounds.top } else { 0 },
        if bounds.right < width { bounds.right } else { width },
        if bounds.bottom < height { bounds.bottom } else { height },
    ]
}

/// The part of the bounds that lies on the screen: least x and y, greatest x
/// and y.
pub fn clipped_bounds(bounds: TextBounds, resolution: Resolution) -> (r: [i32; 4])
    ensures
        r@ == clipped(bounds, resolution),
{
    let width: i32 = to_signed(resolution.width);
    let height: i32 = to_signed(resolution.height);
    let left: i32 = if bounds.left > 0 {
        bounds.left
    } else {
        0
    };
    let top: i32 = if bounds.top > 0 {
        bounds.top
    } else {
        0
    };
    let right: i32 = if bounds.right < width {
        bounds.right
    } else {
        width
    };
    let bottom: i32 = if bounds.bottom < height {
        bounds.bottom
    } else {
        height
    };
    let r = [left, top, right, bottom];
    assert(r@ =~= clipped(bounds, resolution));
    r
}

/// How a cached area relates to the requested placement.
#[derive(Clone, Copy, Debug, PartialEq, Eq, Structural)]
pub enum PlacementClass {
    /// Nothing about the placement changed.
    Direct,
    /// The cached glyphs can be shifted and culled anew.
    ReCull,
    /// The area has to be laid out anew.
    Miss,
}

/// Whether a distance is zero.
pub open spec fn is_still(dx: Scalar, dy: Scalar) -> bool {
    dx.order() == 0 && dy.order() == 0
}

/// Whether the difference of two coordinates is zero. There is no such
/// difference between infinite ones.
pub open spec fn same_place(a: Scalar, b: Scalar) -> bool {
    a.finite() && a.equal(b)
}

/// Whether the difference of two coordinates is zero.
pub fn is_same_place(a: Scalar, b: Scalar) -> (r: bool)
    ensures
        r == same_place(a, b),
{
    a.is_finite() && a.same(b)
}

/// The class of a placement, given whether it is still. An area can be culled
/// anew when its cached glyphs are complete; raster glyphs among them forbid a
/// shift, because their place on the pixel grid depends on it.
pub open spec fn placement_class(
    still: bool,
    scroll_matches: bool,
    complete: bool,
    has_raster_candidates: bool,
) -> PlacementClass {
    if still && scroll_matches {
        PlacementClass::Direct
    } else if complete && (!has_raster_candidates || still) {
        PlacementClass::ReCull
    } else {
        PlacementClass::Miss
    }
}

/// Classifies the placement of a cached area that is shifted by `dx` and `dy`.
pub fn classify_placement(
    dx: Scalar,
    dy: Scalar,
    scroll_matches: bool,
    complete: bool,
    has_raster_candidates: bool,
) -> (r: PlacementClass)
    ensures
        r == placement_class(is_still(dx, dy), scroll_matches, complete, has_raster_candidates),
{
    let still: bool = dx.is_zero() && dy.is_zero();
    classify_still(still, scroll_matches, complete, has_raster_candidates)
}

/// Classifies the placement of a cached area, given whether it is still.
pub fn classify_still(
    still: bool,
    scroll_matches: bool,
    complete: bool,
    has_raster_candidates: bool,
) -> (r: PlacementClass)
    ensures
        r == placement_class(still, scroll_matches, complete, has_raster_candidates),
{
    if still && scroll_matches {
        return PlacementClass::Direct;
    }
    if complete && (!has_raster_candidates || still) {
        return PlacementClass::ReCull;
    }
    PlacementClass::Miss
}

/// The first run from `i` on that is visible.
pub open spec fn first_visible(visible: Seq<bool>, i: int) -> int
    decreases visible.len() - i,
{
    if 0 <= i < visible.len() && !visible[i] {
        first_visible(visible, i + 1)
    } else {
        i
    }
}

/// The first run from `i` on that is not visible.
pub open spec fn first_hidden(visible: Seq<bool>, i: int) -> int
    decreases visible.len() - i,
{
    if 0 <= i < visible.len() && visible[i] {
        first_hidden(visible, i + 1)
    } else {
        i
    }
}

/// The runs of an area that are laid out.
#[derive(Clone, Copy, Debug, PartialEq, Eq, Structural)]
pub struct RunSelection {
    /// The first run that is laid out.
    pub start: usize,
    /// The first run after it that is not.
    pub end: usize,
    /// Whether every run of the area is visible.
    pub all_included: bool,
}

/// Selects the runs to lay out: runs go down the page, so the visible ones are
/// the first that are visible, up to the next that is not.
pub fn select_runs(visible: &Vec<bool>) -> (r: RunSelection)
    ensures
        r.start == first_visible(visible@, 0),
        r.end == first_hidden(visible@, r.start as int),
        r.start <= r.end <= visible.len(),
        r.all_included == (forall|i: int| 0 <= i < visible.len() ==> visible@[i]),
{
    let mut start: usize = 0;
    while start < visible.len() && !visible[start]
        invariant
            start <= visible.len(),
            first_visible(visible@, 0) == first_visible(visible@, start as int),
            forall|i: int| 0 <= i < start ==> !visible@[i],
        decreases visible.len() - start,
    {
        start = start + 1;
    }
    let mut end: usize = start;
    while end < visible.len() && visible[end]
        invariant
            start <= end <= visible.len(),
            first_hidden(visible@, start as int) == first_hidden(visible@, end as int),
            forall|i: int| start <= i < end ==> visible@[i],
        decreases visible.len() - end,
    {
        end = end + 1;
    }
    let all_included: bool = start == 0 && end == visible.len();
    proof {
        if start > 0 {
            assert(!visible@[0]);
        }
        if end < visible.len() {
            assert(!visible@[end as int]);
        }
    }
    RunSelection { start, end, all_included }
}

/// The runs that are laid out are a block of visible runs, and no run before
/// them is visible.
pub proof fn lemma_selected_runs(visible: Seq<bool>, i: int)
    requires
        0 <= i < visible.len(),
    ensures
        i < first_visible(visible, 0) ==> !visible[i],
        first_visible(visible, 0) <= i < first_hidden(visible, first_visible(visible, 0))
            ==> visible[i],
{
    lemma_first_visible(visible, 0);
    lemma_first_hidden(visible, first_visible(visible, 0));
}

proof fn lemma_first_visible(visible: Seq<bool>, from: int)
    requires
        0 <= from <= visible.len(),
    ensures
        from <= first_visible(visible, from) <= visible.len(),
        forall|i: int| from <= i < first_visible(visible, from) ==> !visible[i],
    decreases visible.len() - from,
{
    if from < visible.len() && !visible[from] {
        lemma_first_visible(visible, from + 1);
    }
}

proof fn lemma_first_hidden(visible: Seq<bool>, from: int)
    requires
        0 <= from <= visible.len(),
    ensures
        from <= first_hidden(visible, from) <= visible.len(),
        forall|i: int| from <= i < first_hidden(visible, from) ==> visible[i],
    decreases visible.len() - from,
{
    if from < visible.len() && visible[from] {
        lemma_first_hidden(visible, from + 1);
    }
}

/// The instances among the first `n` that stay visible, at their new places.
pub open spec fn reculled(
    instances: Seq<GlyphInstance>,
    rects: Seq<Rect>,
    visible: Seq<bool>,
    n: nat,
) -> Seq<GlyphInstance>
    decreases n,
{
    if n == 0 {
        Seq::empty()
    } else {
        let before = reculled(instances, rects, visible, (n - 1) as nat);
        if visible[n - 1] {
            before.push(GlyphInstance { screen_rect: rects[n - 1], ..instances[n - 1] })
        } else {
            before
        }
    }
}

/// Whether the first `n` flags are all set.
pub open spec fn all_visible(visible: Seq<bool>, n: nat) -> bool {
    forall|i: int| 0 <= i < n ==> visible[i]
}

/// Culls shifted instances anew. `rects` holds the shifted rectangle of each
/// instance and `visible` says whether it is visible there. The result is
/// complete when it was before and every instance stays.
pub fn re_cull_vector_instances(
    instances: &Vec<GlyphInstance>,
    complete: bool,
    rects: &Vec<Rect>,
    visible: &Vec<bool>,
) -> (r: (Vec<GlyphInstance>, bool))
    requires
        rects.len() == instances.len(),
        visible.len() == instances.len(),
    ensures
        r.0@ == reculled(instances@, rects@, visible@, instances@.len()),
        r.1 == (complete && all_visible(visible@, instances@.len())),
{
    let mut kept: Vec<GlyphInstance> = Vec::new();
    let mut complete_now: bool = complete;
    let mut i: usize = 0;
    while i < instances.len()
        invariant
            i <= instances.len(),
            rects.len() == instances.len(),
            visible.len() == instances.len(),
            kept@ == reculled(instances@, rects@, visible@, i as nat),
            complete_now == (complete && all_visible(visible@, i as nat)),
        decreases instances.len() - i,
    {
        if visible[i] {
            let mut adjusted = instances[i];
            adjusted.screen_rect = rects[i];
            kept.push(adjusted);
        } else {
            complete_now = false;
        }
        i = i + 1;
    }
    (kept, complete_now)
}

/// Culling anew keeps completeness only when every instance survives: then
/// none is lost.
pub proof fn lemma_complete_loses_nothing(
    instances: Seq<GlyphInstance>,
    rects: Seq<Rect>,
    visible: Seq<bool>,
    n: nat,
)
    requires
        all_visible(visible, n),
    ensures
        reculled(instances, rects, visible, n).len() == n,
        forall|i: int|
            0 <= i < n ==> #[trigger] reculled(instances, rects, visible, n)[i] == (GlyphInstance {
                screen_rect: rects[i],
                ..instances[i]
            }),
    decreases n,
{
    if n > 0 {
        lemma_complete_loses_nothing(instances, rects, visible, (n - 1) as nat);
    }
}

} // verus!
