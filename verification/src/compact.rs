//! Compaction: settling the items of a layout into a stable arrangement.
//!
//! Both built-in strategies first put the layout in reading order (see
//! [`crate::order`]) and then place the items one by one:
//! - gravity ("rising tide") keeps, for each column, the lowest free row (the
//!   waterline) and drops each movable item onto the highest waterline under it;
//!   static items stay where they are and only raise the waterline;
//! - free placement keeps each item at its requested row, or moves a movable
//!   item down row by row until it no longer collides with an item placed
//!   before it; static items stay where they are and only block later items.

use vstd::prelude::*;
use crate::item::{LayoutItem, collides, collision, rects_overlap};
use crate::order::{reading_order, reading_order_is_permutation, sort_by_position};

verus! {

/// A compaction strategy: a rule that turns a layout into a settled layout.
pub trait Compactor {
    /// The layout that compacting `layout` on a grid of `cols` columns produces.
    spec fn compaction(&self, layout: Seq<LayoutItem>, cols: int) -> Seq<LayoutItem>;

    /// The layouts this strategy can compact: those on which it finishes without
    /// an arithmetic overflow or an out-of-range column.
    spec fn accepts(&self, layout: Seq<LayoutItem>, cols: int) -> bool;

    /// Compacts the layout by resolving collisions and moving items.
    fn compact(&self, layout: &mut Vec<LayoutItem>, cols: i32)
        requires
            self.accepts(old(layout)@, cols as int),
        ensures
            final(layout)@ == self.compaction(old(layout)@, cols as int),
    ;

    /// Whether this strategy accepts `layout` on `cols` columns, so that
    /// [`Compactor::compact`] may be called on it.
    fn accepts_layout(&self, layout: &Vec<LayoutItem>, cols: i32) -> (r: bool)
        ensures
            r == self.accepts(layout@, cols as int),
    ;
}

/// Supported compaction strategies.
#[derive(Debug, Clone, Copy, PartialEq, Eq, Structural)]
pub enum CompactionType {
    /// Items settle towards the top of the grid (Y=0).
    Gravity,
    /// Items stay at their requested positions unless they collide.
    FreePlacement,
}

impl Default for CompactionType {
    fn default() -> (r: Self)
        ensures
            r == CompactionType::Gravity,
    {
        CompactionType::Gravity
    }
}

// ---------------------------------------------------------------------------
// Gravity
// ---------------------------------------------------------------------------

/// First column covered by `item`: `max(x, 0)`.
pub open spec fn span_start(item: LayoutItem) -> int {
    if item.x < 0 {
        0
    } else {
        item.x as int
    }
}

/// One past the last column covered by `item`: `min(x + w, cols)`.
pub open spec fn span_end(item: LayoutItem, cols: int) -> int {
    if item.x + item.w < cols {
        item.x + item.w
    } else {
        cols
    }
}

/// The largest waterline value among columns `lo .. hi` (meaningful when `lo < hi`).
pub open spec fn range_max(wl: Seq<i32>, lo: int, hi: int) -> int
    decreases hi - lo,
{
    if hi <= lo + 1 {
        wl[lo] as int
    } else {
        let m = range_max(wl, lo, hi - 1);
        if wl[hi - 1] > m {
            wl[hi - 1] as int
        } else {
            m
        }
    }
}

/// The row a movable item lands on: the highest waterline under its columns,
/// or row 0 when it covers no column.
pub open spec fn landing_row(wl: Seq<i32>, lo: int, hi: int) -> int {
    if lo < hi {
        range_max(wl, lo, hi)
    } else {
        0
    }
}

/// The waterline with columns `lo .. hi` set to `v`.
pub open spec fn fill_range(wl: Seq<i32>, lo: int, hi: int, v: i32) -> Seq<i32> {
    Seq::new(wl.len(), |c: int| if lo <= c < hi { v } else { wl[c] })
}

/// The waterline with columns `lo .. hi` raised to at least `v`.
pub open spec fn raise_range(wl: Seq<i32>, lo: int, hi: int, v: i32) -> Seq<i32> {
    Seq::new(wl.len(), |c: int| if lo <= c < hi && wl[c] < v { v } else { wl[c] })
}

/// Placing `item` over waterline `wl` stays within `i32` and within the waterline.
pub open spec fn tide_step_ok(wl: Seq<i32>, item: LayoutItem, cols: int) -> bool {
    &&& span_start(item) <= span_end(item, cols)
    &&& if item.is_static {
        i32::MIN <= item.y + item.h <= i32::MAX
    } else {
        i32::MIN <= landing_row(wl, span_start(item), span_end(item, cols)) + item.h <= i32::MAX
    }
}

/// Places one item over the waterline: the new waterline and the placed item.
pub open spec fn tide_step(wl: Seq<i32>, item: LayoutItem, cols: int) -> (Seq<i32>, LayoutItem) {
    let lo = span_start(item);
    let hi = span_end(item, cols);
    if item.is_static {
        (raise_range(wl, lo, hi, (item.y + item.h) as i32), item)
    } else {
        let y = landing_row(wl, lo, hi);
        (fill_range(wl, lo, hi, (y + item.h) as i32), LayoutItem { y: y as i32, ..item })
    }
}

/// Gravity placement of the items of `s`, in order, on `cols` columns: the final
/// waterline, the placed items, and whether every step stayed in range.
pub open spec fn rising_tide(s: Seq<LayoutItem>, cols: int) -> (Seq<i32>, Seq<LayoutItem>, bool)
    decreases s.len(),
{
    if s.len() == 0 {
        (Seq::new(cols as nat, |c: int| 0i32), Seq::empty(), true)
    } else {
        let prev = rising_tide(s.drop_last(), cols);
        let step = tide_step(prev.0, s.last(), cols);
        (step.0, prev.1.push(step.1), prev.2 && tide_step_ok(prev.0, s.last(), cols))
    }
}

/// The result of gravity compaction.
pub open spec fn gravity_compaction(layout: Seq<LayoutItem>, cols: int) -> Seq<LayoutItem> {
    rising_tide(reading_order(layout), cols).1
}

/// The layouts gravity compaction accepts.
pub open spec fn gravity_accepts(layout: Seq<LayoutItem>, cols: int) -> bool {
    cols >= 0 && rising_tide(reading_order(layout), cols).2
}

pub(crate) proof fn rising_tide_shape(s: Seq<LayoutItem>, cols: int)
    requires
        cols >= 0,
    ensures
        rising_tide(s, cols).0.len() == cols,
        rising_tide(s, cols).1.len() == s.len(),
    decreases s.len(),
{
    if s.len() > 0 {
        rising_tide_shape(s.drop_last(), cols);
    }
}

proof fn rising_tide_prefix_ok(s: Seq<LayoutItem>, cols: int, i: int)
    requires
        0 <= i <= s.len(),
        rising_tide(s, cols).2,
    ensures
        rising_tide(s.take(i), cols).2,
    decreases s.len() - i,
{
    if i < s.len() {
        rising_tide_prefix_ok(s, cols, i + 1);
        assert(s.take(i + 1).drop_last() =~= s.take(i));
    } else {
        assert(s.take(i) =~= s);
    }
}

/// Gravity compaction using the "waterline" approach: after the stable sort
/// into reading order (quadratic in the number of items), one pass of O(N * Cols).
pub struct RisingTideCompactor;

impl Compactor for RisingTideCompactor {
    open spec fn compaction(&self, layout: Seq<LayoutItem>, cols: int) -> Seq<LayoutItem> {
        gravity_compaction(layout, cols)
    }

    open spec fn accepts(&self, layout: Seq<LayoutItem>, cols: int) -> bool {
        gravity_accepts(layout, cols)
    }

    fn compact(&self, layout: &mut Vec<LayoutItem>, cols: i32) {
        sort_by_position(layout);
        if let Some(placed) = place_by_tide(layout, cols) {
            *layout = placed;
        }
    }

    /// Accepted when `cols` is not negative and every placement step stays
    /// within `i32` and the waterline.
    fn accepts_layout(&self, layout: &Vec<LayoutItem>, cols: i32) -> (r: bool) {
        let mut sorted = crate::grid::copy_layout(layout);
        sort_by_position(&mut sorted);
        cols >= 0 && place_by_tide(&sorted, cols).is_some()
    }
}

/// Gravity placement of the items of `sorted`, in order, on `cols` columns;
/// `None` when a step leaves `i32` or the waterline (see [`tide_step_ok`]).
fn place_by_tide(sorted: &Vec<LayoutItem>, cols: i32) -> (r: Option<Vec<LayoutItem>>)
    requires
        cols >= 0,
    ensures
        r is Some <==> rising_tide(sorted@, cols as int).2,
        r matches Some(v) ==> v@ == rising_tide(sorted@, cols as int).1,
{
    let ghost all = sorted@;
    let mut waterline: Vec<i32> = Vec::new();
    let mut c: i32 = 0;
    while c < cols
        invariant
            0 <= c <= cols,
            waterline@ =~= Seq::new(c as nat, |k: int| 0i32),
        decreases cols - c,
    {
        waterline.push(0);
        c = c + 1;
    }
    assert(waterline@ =~= rising_tide(all.take(0), cols as int).0);
    let n = sorted.len();
    let mut placed: Vec<LayoutItem> = Vec::new();
    let mut i: usize = 0;
    while i < n
        invariant
            sorted@ == all,
            n == all.len(),
            i <= n,
            cols >= 0,
            rising_tide(all.take(i as int), cols as int).2,
            waterline@ == rising_tide(all.take(i as int), cols as int).0,
            placed@ == rising_tide(all.take(i as int), cols as int).1,
            waterline@.len() == cols,
        decreases n - i,
    {
        proof {
            assert(all.take(i + 1).drop_last() =~= all.take(i as int));
            assert(all.take(i + 1).last() == all[i as int]);
        }
        let ghost wl0 = waterline@;
        let mut item = sorted[i].clone();
        let right: i64 = item.x as i64 + item.w as i64;
        let lo64: i64 = if item.x < 0 {
            0
        } else {
            item.x as i64
        };
        let hi64: i64 = if right < cols as i64 {
            right
        } else {
            cols as i64
        };
        assert(lo64 == span_start(item) && hi64 == span_end(item, cols as int));
        if lo64 > hi64 {
            proof {
                if rising_tide(all, cols as int).2 {
                    rising_tide_prefix_ok(all, cols as int, i + 1);
                }
            }
            return None;
        }
        let lo: usize = lo64 as usize;
        let hi: usize = hi64 as usize;
        if !item.is_static {
            let mut top: i32 = 0;
            if lo < hi {
                top = waterline[lo];
                let mut k: usize = lo + 1;
                while k < hi
                    invariant
                        lo < k <= hi,
                        hi <= waterline@.len(),
                        waterline@ == wl0,
                        top == range_max(wl0, lo as int, k as int),
                    decreases hi - k,
                {
                    if waterline[k] > top {
                        top = waterline[k];
                    }
                    k = k + 1;
                }
            }
            assert(top == landing_row(wl0, lo as int, hi as int));
            let bottom: i64 = top as i64 + item.h as i64;
            if bottom < i32::MIN as i64 || bottom > i32::MAX as i64 {
                proof {
                    if rising_tide(all, cols as int).2 {
                        rising_tide_prefix_ok(all, cols as int, i + 1);
                    }
                }
                return None;
            }
            item.y = top;
            let v = top + item.h;
            let mut k: usize = lo;
            while k < hi
                invariant
                    lo <= k <= hi,
                    hi <= wl0.len(),
                    waterline@ =~= fill_range(wl0, lo as int, k as int, v),
                decreases hi - k,
            {
                waterline.set(k, v);
                k = k + 1;
            }
        } else {
            let bottom: i64 = item.y as i64 + item.h as i64;
            if bottom < i32::MIN as i64 || bottom > i32::MAX as i64 {
                proof {
                    if rising_tide(all, cols as int).2 {
                        rising_tide_prefix_ok(all, cols as int, i + 1);
                    }
                }
                return None;
            }
            let v = item.y + item.h;
            let mut k: usize = lo;
            while k < hi
                invariant
                    lo <= k <= hi,
                    hi <= wl0.len(),
                    waterline@ =~= raise_range(wl0, lo as int, k as int, v),
                decreases hi - k,
            {
                if waterline[k] < v {
                    waterline.set(k, v);
                }
                k = k + 1;
            }
        }
        placed.push(item);
        i = i + 1;
    }
    proof {
        assert(all.take(n as int) =~= all);
    }
    Some(placed)
}

// ---------------------------------------------------------------------------
// Free placement
// ---------------------------------------------------------------------------

/// `item` moved to row `y`.
pub open spec fn at_row(item: LayoutItem, y: int) -> LayoutItem {
    LayoutItem { y: y as i32, ..item }
}

/// The lowest bottom edge among `placed` (`i32::MIN` when there is none):
/// an item whose top is at or below it collides with none of them.
pub open spec fn bottom_bound(placed: Seq<LayoutItem>) -> int
    decreases placed.len(),
{
    if placed.len() == 0 {
        i32::MIN as int
    } else {
        let b = bottom_bound(placed.drop_last());
        let last = placed.last().y + placed.last().h;
        if last > b {
            last
        } else {
            b
        }
    }
}

/// `item` collides with some item of `placed`.
pub open spec fn hits_any(item: LayoutItem, placed: Seq<LayoutItem>) -> bool {
    exists|j: int| 0 <= j < placed.len() && collision(item, #[trigger] placed[j])
}

/// The first row from `y` on where `item` collides with none of `placed`.
pub open spec fn first_free_row(item: LayoutItem, placed: Seq<LayoutItem>, y: int) -> int
    decreases bottom_bound(placed) - y,
{
    if y >= bottom_bound(placed) || !hits_any(at_row(item, y), placed) {
        y
    } else {
        first_free_row(item, placed, y + 1)
    }
}

/// The row free placement gives `item` after `placed`: a static item keeps its
/// row (it only blocks the items placed after it); a movable item goes to the
/// first row from its own on where it collides with none of `placed`.
pub open spec fn free_row(item: LayoutItem, placed: Seq<LayoutItem>) -> int {
    if item.is_static {
        item.y as int
    } else {
        first_free_row(item, placed, item.y as int)
    }
}

/// Placing `item` after `placed` stays within `i32`: its free row is an `i32`.
pub open spec fn free_step_ok(placed: Seq<LayoutItem>, item: LayoutItem) -> bool {
    free_row(item, placed) <= i32::MAX
}

/// Free placement of the items of `s`, in order: the placed items and whether
/// every step stayed in range.
pub open spec fn free_placement(s: Seq<LayoutItem>) -> (Seq<LayoutItem>, bool)
    decreases s.len(),
{
    if s.len() == 0 {
        (Seq::empty(), true)
    } else {
        let prev = free_placement(s.drop_last());
        let it = s.last();
        (
            prev.0.push(at_row(it, free_row(it, prev.0))),
            prev.1 && free_step_ok(prev.0, it),
        )
    }
}

/// The result of free-placement compaction.
pub open spec fn free_compaction(layout: Seq<LayoutItem>) -> Seq<LayoutItem> {
    free_placement(reading_order(layout)).0
}

/// The layouts free-placement compaction accepts.
pub open spec fn free_accepts(layout: Seq<LayoutItem>) -> bool {
    free_placement(reading_order(layout)).1
}

proof fn bottom_bound_above(placed: Seq<LayoutItem>, j: int)
    requires
        0 <= j < placed.len(),
    ensures
        placed[j].y + placed[j].h <= bottom_bound(placed),
    decreases placed.len(),
{
    if j < placed.len() - 1 {
        bottom_bound_above(placed.drop_last(), j);
    }
}

/// At or below the bound, nothing is hit.
proof fn no_hit_past_bound(item: LayoutItem, placed: Seq<LayoutItem>, y: int)
    requires
        y >= bottom_bound(placed),
        i32::MIN <= y <= i32::MAX,
    ensures
        !hits_any(at_row(item, y), placed),
{
    assert forall|j: int| 0 <= j < placed.len() implies !collision(
        at_row(item, y),
        #[trigger] placed[j],
    ) by {
        bottom_bound_above(placed, j);
    }
}

/// The first free row is not above `y`, and is free.
proof fn first_free_row_facts(item: LayoutItem, placed: Seq<LayoutItem>, y: int)
    requires
        i32::MIN <= y,
        first_free_row(item, placed, y) <= i32::MAX,
    ensures
        y <= first_free_row(item, placed, y),
        !hits_any(at_row(item, first_free_row(item, placed, y)), placed),
    decreases bottom_bound(placed) - y,
{
    if y >= bottom_bound(placed) {
        no_hit_past_bound(item, placed, y);
    } else if hits_any(at_row(item, y), placed) {
        first_free_row_facts(item, placed, y + 1);
    }
}

proof fn free_placement_shape(s: Seq<LayoutItem>)
    ensures
        free_placement(s).0.len() == s.len(),
    decreases s.len(),
{
    if s.len() > 0 {
        free_placement_shape(s.drop_last());
    }
}

proof fn free_placement_prefix_ok(s: Seq<LayoutItem>, i: int)
    requires
        0 <= i <= s.len(),
        free_placement(s).1,
    ensures
        free_placement(s.take(i)).1,
    decreases s.len() - i,
{
    if i < s.len() {
        free_placement_prefix_ok(s, i + 1);
        assert(s.take(i + 1).drop_last() =~= s.take(i));
    } else {
        assert(s.take(i) =~= s);
    }
}

/// Whether `item` collides with any item of `placed`.
fn collides_with_any(item: &LayoutItem, placed: &Vec<LayoutItem>) -> (r: bool)
    ensures
        r == hits_any(*item, placed@),
{
    let mut j: usize = 0;
    while j < placed.len()
        invariant
            j <= placed@.len(),
            forall|k: int| 0 <= k < j ==> !collision(*item, #[trigger] placed@[k]),
        decreases placed@.len() - j,
    {
        if collides(item, &placed[j]) {
            return true;
        }
        j = j + 1;
    }
    false
}

/// Keeps items at their requested rows, moving a movable item down only while
/// it collides with an item placed before it; static items never move.
pub struct FreePlacementCompactor;

impl Compactor for FreePlacementCompactor {
    open spec fn compaction(&self, layout: Seq<LayoutItem>, cols: int) -> Seq<LayoutItem> {
        free_compaction(layout)
    }

    open spec fn accepts(&self, layout: Seq<LayoutItem>, cols: int) -> bool {
        free_accepts(layout)
    }

    fn compact(&self, layout: &mut Vec<LayoutItem>, _cols: i32) {
        sort_by_position(layout);
        if let Some(placed) = place_freely(layout) {
            *layout = placed;
        }
    }

    /// Accepted when the free row of every movable item is an `i32`.
    fn accepts_layout(&self, layout: &Vec<LayoutItem>, _cols: i32) -> (r: bool) {
        let mut sorted = crate::grid::copy_layout(layout);
        sort_by_position(&mut sorted);
        place_freely(&sorted).is_some()
    }
}

/// The free row from `y` on is not above `y`.
proof fn first_free_row_at_least(item: LayoutItem, placed: Seq<LayoutItem>, y: int)
    ensures
        y <= first_free_row(item, placed, y),
    decreases bottom_bound(placed) - y,
{
    if y < bottom_bound(placed) && hits_any(at_row(item, y), placed) {
        first_free_row_at_least(item, placed, y + 1);
    }
}

/// Free placement of the items of `sorted`, in order; `None` when the free row
/// of an item lies past `i32::MAX` (see [`free_step_ok`]).
fn place_freely(sorted: &Vec<LayoutItem>) -> (r: Option<Vec<LayoutItem>>)
    ensures
        r is Some <==> free_placement(sorted@).1,
        r matches Some(v) ==> v@ == free_placement(sorted@).0,
{
    let ghost all = sorted@;
    let n = sorted.len();
    let mut processed: Vec<LayoutItem> = Vec::new();
    let mut i: usize = 0;
    while i < n
        invariant
            sorted@ == all,
            n == all.len(),
            i <= n,
            processed@ == free_placement(all.take(i as int)).0,
            free_placement(all.take(i as int)).1,
        decreases n - i,
    {
        proof {
            assert(all.take(i + 1).drop_last() =~= all.take(i as int));
            assert(all.take(i + 1).last() == all[i as int]);
        }
        let ghost orig = all[i as int];
        let ghost target = first_free_row(orig, processed@, orig.y as int);
        proof {
            first_free_row_at_least(orig, processed@, orig.y as int);
        }
        let mut item = sorted[i].clone();
        if !item.is_static {
            while collides_with_any(&item, &processed)
                invariant
                    sorted@ == all,
                    n == all.len(),
                    i < n,
                    orig == all[i as int],
                    !orig.is_static,
                    processed@ == free_placement(all.take(i as int)).0,
                    free_placement(all.take(i as int)).1,
                    all.take(i + 1).drop_last() == all.take(i as int),
                    all.take(i + 1).last() == orig,
                    target == first_free_row(orig, processed@, orig.y as int),
                    item == at_row(orig, item.y as int),
                    orig.y <= item.y <= target,
                    first_free_row(orig, processed@, item.y as int) == target,
                decreases target - item.y,
            {
                proof {
                    if item.y >= bottom_bound(processed@) {
                        no_hit_past_bound(orig, processed@, item.y as int);
                    }
                    assert(item.y < bottom_bound(processed@));
                    assert(first_free_row(orig, processed@, item.y as int) == first_free_row(
                        orig,
                        processed@,
                        item.y + 1,
                    ));
                    first_free_row_at_least(orig, processed@, item.y + 1);
                }
                if item.y == i32::MAX {
                    proof {
                        if free_placement(all).1 {
                            free_placement_prefix_ok(all, i + 1);
                        }
                    }
                    return None;
                }
                item.y = item.y + 1;
            }
            assert(target == item.y);
        } else {
            assert(at_row(orig, orig.y as int) == orig);
        }
        processed.push(item);
        i = i + 1;
    }
    proof {
        assert(all.take(n as int) =~= all);
    }
    Some(processed)
}

impl Compactor for CompactionType {
    open spec fn compaction(&self, layout: Seq<LayoutItem>, cols: int) -> Seq<LayoutItem> {
        match self {
            CompactionType::Gravity => gravity_compaction(layout, cols),
            CompactionType::FreePlacement => free_compaction(layout),
        }
    }

    open spec fn accepts(&self, layout: Seq<LayoutItem>, cols: int) -> bool {
        match self {
            CompactionType::Gravity => gravity_accepts(layout, cols),
            CompactionType::FreePlacement => free_accepts(layout),
        }
    }

    fn compact(&self, layout: &mut Vec<LayoutItem>, cols: i32) {
        match self {
            CompactionType::Gravity => RisingTideCompactor.compact(layout, cols),
            CompactionType::FreePlacement => FreePlacementCompactor.compact(layout, cols),
        }
    }

    fn accepts_layout(&self, layout: &Vec<LayoutItem>, cols: i32) -> (r: bool) {
        match self {
            CompactionType::Gravity => RisingTideCompactor.accepts_layout(layout, cols),
            CompactionType::FreePlacement => FreePlacementCompactor.accepts_layout(layout, cols),
        }
    }
}


// ---------------------------------------------------------------------------
// Laws
// ---------------------------------------------------------------------------

/// Every step of gravity placement keeps the item's id, columns, size and flags;
/// a static item keeps its row too.
pub(crate) proof fn rising_tide_changes_only_rows(s: Seq<LayoutItem>, cols: int)
    requires
        cols >= 0,
    ensures
        rising_tide(s, cols).1.len() == s.len(),
        forall|k: int|
            0 <= k < s.len() ==> #[trigger] rising_tide(s, cols).1[k] == at_row(
                s[k],
                rising_tide(s, cols).1[k].y as int,
            ),
        forall|k: int|
            0 <= k < s.len() && s[k].is_static ==> #[trigger] rising_tide(s, cols).1[k] == s[k],
    decreases s.len(),
{
    rising_tide_shape(s, cols);
    if s.len() > 0 {
        rising_tide_changes_only_rows(s.drop_last(), cols);
        assert forall|k: int| 0 <= k < s.len() implies #[trigger] rising_tide(s, cols).1[k]
            == at_row(s[k], rising_tide(s, cols).1[k].y as int) by {
            if k < s.len() - 1 {
                assert(s.drop_last()[k] == s[k]);
            }
        }
        assert forall|k: int| 0 <= k < s.len() && s[k].is_static implies #[trigger] rising_tide(
            s,
            cols,
        ).1[k] == s[k] by {
            if k < s.len() - 1 {
                assert(s.drop_last()[k] == s[k]);
            }
        }
    }
}

/// Gravity compaction returns the input items in reading order, each with at
/// most its row changed; static items are returned unchanged.
pub proof fn gravity_moves_only_rows(layout: Seq<LayoutItem>, cols: int)
    requires
        gravity_accepts(layout, cols),
    ensures
        gravity_compaction(layout, cols).len() == layout.len(),
        forall|k: int|
            0 <= k < layout.len() ==> #[trigger] gravity_compaction(layout, cols)[k] == at_row(
                reading_order(layout)[k],
                gravity_compaction(layout, cols)[k].y as int,
            ),
        forall|k: int|
            0 <= k < layout.len() && reading_order(layout)[k].is_static
                ==> #[trigger] gravity_compaction(layout, cols)[k] == reading_order(layout)[k],
{
    reading_order_is_permutation(layout);
    rising_tide_changes_only_rows(reading_order(layout), cols);
}

/// Each item lies inside the grid, is at least one column wide, is not of
/// negative height, and is movable.
pub open spec fn movable_in_grid(item: LayoutItem, cols: int) -> bool {
    &&& !item.is_static
    &&& 0 <= item.x
    &&& item.x + item.w <= cols
    &&& item.w >= 1
    &&& item.h >= 0
}

pub(crate) proof fn range_max_bounds(wl: Seq<i32>, lo: int, hi: int, c: int)
    requires
        0 <= lo <= c < hi <= wl.len(),
    ensures
        wl[c] <= range_max(wl, lo, hi),
        exists|d: int| lo <= d < hi && range_max(wl, lo, hi) == wl[d],
    decreases hi - lo,
{
    if hi > lo + 1 {
        if c < hi - 1 {
            range_max_bounds(wl, lo, hi - 1, c);
        } else {
            range_max_bounds(wl, lo, hi - 1, lo);
        }
        let d = choose|d: int| lo <= d < hi - 1 && range_max(wl, lo, hi - 1) == wl[d];
        if wl[hi - 1] > range_max(wl, lo, hi - 1) {
            assert(range_max(wl, lo, hi) == wl[hi - 1]);
        } else {
            assert(range_max(wl, lo, hi) == wl[d]);
        }
    } else {
        assert(range_max(wl, lo, hi) == wl[lo]);
    }
}

/// Gravity placement of items that are static or movable inside the grid keeps
/// the waterline above every placed movable item and leaves no two placed
/// movable items colliding.
proof fn rising_tide_separates(s: Seq<LayoutItem>, cols: int)
    requires
        cols >= 0,
        rising_tide(s, cols).2,
        forall|k: int| 0 <= k < s.len() ==> (#[trigger] s[k]).is_static || movable_in_grid(s[k], cols),
    ensures
        forall|j: int, c: int|
            #![trigger rising_tide(s, cols).1[j], rising_tide(s, cols).0[c]]
            0 <= j < s.len() && !rising_tide(s, cols).1[j].is_static && rising_tide(s, cols).1[j].x
                <= c < rising_tide(s, cols).1[j].x + rising_tide(s, cols).1[j].w ==> rising_tide(
                s,
                cols,
            ).1[j].y + rising_tide(s, cols).1[j].h <= rising_tide(s, cols).0[c],
        forall|i: int, j: int|
            0 <= i < j < s.len() && !rising_tide(s, cols).1[i].is_static && !rising_tide(
                s,
                cols,
            ).1[j].is_static ==> !collision(
                #[trigger] rising_tide(s, cols).1[i],
                #[trigger] rising_tide(s, cols).1[j],
            ),
    decreases s.len(),
{
    rising_tide_shape(s, cols);
    rising_tide_changes_only_rows(s, cols);
    if s.len() > 0 {
        let t = s.drop_last();
        assert forall|k: int| 0 <= k < t.len() implies (#[trigger] t[k]).is_static || movable_in_grid(
            t[k],
            cols,
        ) by {
            assert(t[k] == s[k]);
        }
        rising_tide_separates(t, cols);
        rising_tide_shape(t, cols);
        rising_tide_changes_only_rows(t, cols);
        let prev = rising_tide(t, cols);
        let q = s.last();
        assert(s[s.len() - 1].is_static || movable_in_grid(s[s.len() - 1], cols));
        let now = rising_tide(s, cols);
        let n = s.len() - 1;
        assert(now.1 == prev.1.push(tide_step(prev.0, q, cols).1));
        assert(now.0 == tide_step(prev.0, q, cols).0);
        if q.is_static {
            let lo = span_start(q);
            let hi = span_end(q, cols);
            assert(now.0 == raise_range(prev.0, lo, hi, (q.y + q.h) as i32));
            assert(now.1[n] == q);
            assert forall|j: int, c: int|
                #![trigger now.1[j], now.0[c]]
                0 <= j < s.len() && !now.1[j].is_static && now.1[j].x <= c < now.1[j].x + now.1[j].w
                implies now.1[j].y + now.1[j].h <= now.0[c] by {
                assert(now.1[j] == prev.1[j]);
                assert(prev.1[j] == at_row(t[j], prev.1[j].y as int));
                assert(t[j] == s[j]);
                assert(movable_in_grid(t[j], cols));
                assert(prev.1[j].y + prev.1[j].h <= prev.0[c]);
            }
            assert forall|i: int, j: int|
                0 <= i < j < s.len() && !now.1[i].is_static && !now.1[j].is_static implies !collision(
                #[trigger] now.1[i],
                #[trigger] now.1[j],
            ) by {
                assert(now.1[i] == prev.1[i]);
                assert(now.1[j] == prev.1[j]);
            }
        } else {
            assert(movable_in_grid(q, cols));
            let lo = q.x as int;
            let hi = q.x + q.w;
            assert(span_start(q) == lo && span_end(q, cols) == hi);
            let y = range_max(prev.0, lo, hi);
            range_max_bounds(prev.0, lo, hi, lo);
            assert(now.1[n].y == y);
            assert forall|j: int, c: int|
                #![trigger now.1[j], now.0[c]]
                0 <= j < s.len() && !now.1[j].is_static && now.1[j].x <= c < now.1[j].x + now.1[j].w
                implies now.1[j].y + now.1[j].h <= now.0[c] by {
                if j < n {
                    assert(now.1[j] == prev.1[j]);
                    assert(prev.1[j] == at_row(t[j], prev.1[j].y as int));
                    assert(t[j] == s[j]);
                    assert(movable_in_grid(t[j], cols));
                    if lo <= c < hi {
                        range_max_bounds(prev.0, lo, hi, c);
                    }
                }
            }
            assert forall|i: int, j: int|
                0 <= i < j < s.len() && !now.1[i].is_static && !now.1[j].is_static implies !collision(
                #[trigger] now.1[i],
                #[trigger] now.1[j],
            ) by {
                if j < n {
                    assert(now.1[i] == prev.1[i]);
                    assert(now.1[j] == prev.1[j]);
                } else {
                    assert(now.1[i] == prev.1[i]);
                    let p = prev.1[i];
                    assert(p == at_row(t[i], p.y as int));
                    assert(t[i] == s[i]);
                    assert(movable_in_grid(t[i], cols));
                    if rects_overlap(p, now.1[j]) {
                        let c = if p.x < q.x {
                            q.x as int
                        } else {
                            p.x as int
                        };
                        range_max_bounds(prev.0, lo, hi, c);
                        assert(p.y + p.h <= prev.0[c]);
                    }
                }
            }
        }
    }
}

/// Gravity compaction of items that are static or movable inside the grid
/// leaves no two movable items colliding (a movable item may still overlap a
/// static item that comes after it in reading order).
pub proof fn gravity_leaves_no_collisions(layout: Seq<LayoutItem>, cols: int)
    requires
        gravity_accepts(layout, cols),
        forall|k: int|
            0 <= k < layout.len() ==> (#[trigger] layout[k]).is_static || movable_in_grid(
                layout[k],
                cols,
            ),
    ensures
        forall|i: int, j: int|
            0 <= i < j < layout.len() && !gravity_compaction(layout, cols)[i].is_static
                && !gravity_compaction(layout, cols)[j].is_static ==> !collision(
                #[trigger] gravity_compaction(layout, cols)[i],
                #[trigger] gravity_compaction(layout, cols)[j],
            ),
{
    let s = reading_order(layout);
    reading_order_is_permutation(layout);
    assert forall|k: int| 0 <= k < s.len() implies (#[trigger] s[k]).is_static || movable_in_grid(
        s[k],
        cols,
    ) by {
        crate::order::reading_order_items_from_input(layout, k);
        let m = choose|m: int| 0 <= m < layout.len() && layout[m] == s[k];
        assert(layout[m].is_static || movable_in_grid(layout[m], cols));
    }
    rising_tide_separates(s, cols);
}

/// Every step of free placement keeps the item's id, columns, size and flags,
/// and only ever moves an item down; a static item keeps its row; no movable
/// placed item collides with one placed before it.
proof fn free_placement_facts(s: Seq<LayoutItem>)
    requires
        free_placement(s).1,
    ensures
        free_placement(s).0.len() == s.len(),
        forall|k: int|
            0 <= k < s.len() ==> #[trigger] free_placement(s).0[k] == at_row(
                s[k],
                free_placement(s).0[k].y as int,
            ),
        forall|k: int| 0 <= k < s.len() ==> s[k].y <= (#[trigger] free_placement(s).0[k]).y,
        forall|k: int| 0 <= k < s.len() && s[k].is_static ==> #[trigger] free_placement(s).0[k] == s[k],
        forall|i: int, j: int|
            0 <= i < j < s.len() && !s[j].is_static ==> !collision(
                #[trigger] free_placement(s).0[i],
                #[trigger] free_placement(s).0[j],
            ),
    decreases s.len(),
{
    free_placement_shape(s);
    if s.len() > 0 {
        let t = s.drop_last();
        free_placement_facts(t);
        free_placement_shape(t);
        let prev = free_placement(t).0;
        let it = s.last();
        if !it.is_static {
            first_free_row_facts(it, prev, it.y as int);
        } else {
            assert(at_row(it, it.y as int) == it);
        }
        let now = free_placement(s).0;
        assert forall|k: int| 0 <= k < s.len() implies #[trigger] now[k] == at_row(
            s[k],
            now[k].y as int,
        ) && s[k].y <= now[k].y && (s[k].is_static ==> now[k] == s[k]) by {
            if k < s.len() - 1 {
                assert(t[k] == s[k]);
                assert(now[k] == prev[k]);
            }
        }
        assert forall|i: int, j: int| 0 <= i < j < s.len() && !s[j].is_static implies !collision(
            #[trigger] now[i],
            #[trigger] now[j],
        ) by {
            assert(now[i] == prev[i]);
            if j < s.len() - 1 {
                assert(now[j] == prev[j]);
                assert(t[j] == s[j]);
            } else {
                assert(!collision(now[j], prev[i]));
            }
        }
    }
}

/// Free-placement compaction returns the input items in reading order, each
/// kept at its requested row or moved down; static items keep their rows, and
/// no movable item collides with an item that comes before it. So with no
/// static item, no two items collide.
pub proof fn free_placement_settles(layout: Seq<LayoutItem>)
    requires
        free_accepts(layout),
    ensures
        free_compaction(layout).len() == layout.len(),
        forall|k: int|
            0 <= k < layout.len() ==> #[trigger] free_compaction(layout)[k] == at_row(
                reading_order(layout)[k],
                free_compaction(layout)[k].y as int,
            ),
        forall|k: int|
            0 <= k < layout.len() ==> reading_order(layout)[k].y <= (#[trigger] free_compaction(
                layout,
            )[k]).y,
        forall|k: int|
            0 <= k < layout.len() && reading_order(layout)[k].is_static
                ==> #[trigger] free_compaction(layout)[k] == reading_order(layout)[k],
        forall|i: int, j: int|
            0 <= i < j < layout.len() && !free_compaction(layout)[j].is_static ==> !collision(
                #[trigger] free_compaction(layout)[i],
                #[trigger] free_compaction(layout)[j],
            ),
        (forall|k: int| 0 <= k < layout.len() ==> !(#[trigger] layout[k]).is_static)
            ==> collision_free(free_compaction(layout)),
{
    let s = reading_order(layout);
    let out = free_compaction(layout);
    reading_order_is_permutation(layout);
    free_placement_facts(s);
    assert forall|i: int, j: int|
        0 <= i < j < layout.len() && !out[j].is_static implies !collision(
        #[trigger] out[i],
        #[trigger] out[j],
    ) by {
        assert(out[j] == at_row(s[j], out[j].y as int));
    }
    if forall|k: int| 0 <= k < layout.len() ==> !(#[trigger] layout[k]).is_static {
        assert forall|i: int, j: int| 0 <= i < j < out.len() implies !collision(
            #[trigger] out[i],
            #[trigger] out[j],
        ) by {
            crate::order::reading_order_items_from_input(layout, j);
            let m = choose|m: int| 0 <= m < layout.len() && layout[m] == s[j];
            assert(!layout[m].is_static);
            assert(out[j] == at_row(s[j], out[j].y as int));
        }
    }
}

/// Compaction with a built-in strategy keeps every input item, changing at
/// most its row (the items come back in reading order).
pub proof fn compaction_keeps_items(strategy: CompactionType, layout: Seq<LayoutItem>, cols: int)
    requires
        strategy.accepts(layout, cols),
    ensures
        strategy.compaction(layout, cols).len() == layout.len(),
        forall|i: int|
            #![trigger layout[i]]
            0 <= i < layout.len() ==> exists|k: int|
                0 <= k < layout.len() && #[trigger] strategy.compaction(layout, cols)[k] == at_row(
                    layout[i],
                    strategy.compaction(layout, cols)[k].y as int,
                ),
{
    broadcast use vstd::seq_lib::to_multiset_contains;
    let sorted = reading_order(layout);
    let out = strategy.compaction(layout, cols);
    reading_order_is_permutation(layout);
    match strategy {
        CompactionType::Gravity => gravity_moves_only_rows(layout, cols),
        CompactionType::FreePlacement => free_placement_settles(layout),
    }
    assert forall|i: int| #![trigger layout[i]] 0 <= i < layout.len() implies exists|k: int|
        0 <= k < layout.len() && #[trigger] out[k] == at_row(layout[i], out[k].y as int) by {
        assert(layout.contains(layout[i]));
        assert(layout.to_multiset().count(layout[i]) > 0);
        assert(sorted.to_multiset().count(layout[i]) > 0);
        assert(sorted.contains(layout[i]));
        let k = choose|k: int| 0 <= k < sorted.len() && sorted[k] == layout[i];
        assert(out[k] == at_row(sorted[k], out[k].y as int));
    }
}

/// No two items of `s` collide.
pub open spec fn collision_free(s: Seq<LayoutItem>) -> bool {
    forall|i: int, j: int| 0 <= i < j < s.len() ==> !collision(#[trigger] s[i], #[trigger] s[j])
}

proof fn free_placement_of_settled(s: Seq<LayoutItem>)
    requires
        collision_free(s),
    ensures
        free_placement(s).1,
        free_placement(s).0 == s,
    decreases s.len(),
{
    if s.len() > 0 {
        let t = s.drop_last();
        assert forall|i: int, j: int| 0 <= i < j < t.len() implies !collision(
            #[trigger] t[i],
            #[trigger] t[j],
        ) by {
            assert(t[i] == s[i] && t[j] == s[j]);
        }
        free_placement_of_settled(t);
        let last = s.last();
        assert(at_row(last, last.y as int) == last);
        assert forall|j: int| 0 <= j < t.len() implies !collision(at_row(last, last.y as int), #[trigger] t[j]) by {
            assert(t[j] == s[j]);
            assert(!collision(s[j], s[s.len() - 1]));
        }
        assert(!hits_any(at_row(last, last.y as int), t));
        assert(first_free_row(last, t, last.y as int) == last.y);
        assert(free_row(last, t) == last.y);
        assert(t.push(last) =~= s);
    }
}

/// Sorting a collision-free layout leaves it collision-free.
proof fn reading_order_collision_free(layout: Seq<LayoutItem>)
    requires
        collision_free(layout),
    ensures
        collision_free(reading_order(layout)),
{
    let s = reading_order(layout);
    reading_order_is_permutation(layout);
    assert forall|i: int, j: int| 0 <= i < j < s.len() implies !collision(#[trigger] s[i], #[trigger] s[j]) by {
        if s[i] != s[j] {
            crate::order::reading_order_items_from_input(layout, i);
            crate::order::reading_order_items_from_input(layout, j);
            let a = choose|a: int| 0 <= a < layout.len() && layout[a] == s[i];
            let b = choose|b: int| 0 <= b < layout.len() && layout[b] == s[j];
            if a < b {
                assert(!collision(layout[a], layout[b]));
            } else if b < a {
                assert(!collision(layout[b], layout[a]));
            }
        }
    }
}

/// Free placement leaves a layout without collisions where it is: the items
/// only come back in reading order. So compacting twice gives the same
/// positions as compacting once.
pub proof fn free_placement_keeps_settled_layout(layout: Seq<LayoutItem>)
    requires
        collision_free(layout),
    ensures
        free_accepts(layout),
        free_compaction(layout) == reading_order(layout),
{
    reading_order_collision_free(layout);
    free_placement_of_settled(reading_order(layout));
}

/// Without static items, the output of free placement is collision-free, so
/// compacting it again only puts it in reading order. (A static item can make a
/// second pass differ: a movable item pushed next to it may then read after it.)
pub proof fn free_placement_is_stable(layout: Seq<LayoutItem>)
    requires
        free_accepts(layout),
        forall|k: int| 0 <= k < layout.len() ==> !(#[trigger] layout[k]).is_static,
    ensures
        free_accepts(free_compaction(layout)),
        free_compaction(free_compaction(layout)) == reading_order(free_compaction(layout)),
{
    free_placement_settles(layout);
    free_placement_keeps_settled_layout(free_compaction(layout));
}

// ---------------------------------------------------------------------------
// When compaction is accepted
// ---------------------------------------------------------------------------

/// The item lies inside the columns, below row 0, with sizes that are not negative.
pub open spec fn inside_grid(item: LayoutItem, cols: int) -> bool {
    &&& 0 <= item.x
    &&& item.x + item.w <= cols
    &&& item.w >= 0
    &&& item.h >= 0
    &&& item.y >= 0
}

/// What an item can add to the waterline: its height, or its bottom edge when static.
pub open spec fn tide_weight(item: LayoutItem) -> int {
    if item.is_static {
        item.y + item.h
    } else {
        item.h as int
    }
}

/// The total weight of the items of `s`.
pub open spec fn total_tide_weight(s: Seq<LayoutItem>) -> int
    decreases s.len(),
{
    if s.len() == 0 {
        0
    } else {
        tide_weight(s[0]) + total_tide_weight(s.drop_first())
    }
}

proof fn total_tide_weight_split(s: Seq<LayoutItem>)
    requires
        s.len() > 0,
    ensures
        total_tide_weight(s) == total_tide_weight(s.drop_last()) + tide_weight(s.last()),
    decreases s.len(),
{
    assert(total_tide_weight(s) == tide_weight(s[0]) + total_tide_weight(s.drop_first()));
    if s.len() > 1 {
        let d = s.drop_first();
        total_tide_weight_split(d);
        assert(d.drop_last() =~= s.drop_last().drop_first());
        assert(d.last() == s.last());
        assert(s.drop_last()[0] == s[0]);
        assert(total_tide_weight(s.drop_last()) == tide_weight(s.drop_last()[0]) + total_tide_weight(
            s.drop_last().drop_first(),
        ));
    } else {
        assert(s.drop_last().len() == 0);
        assert(s.drop_first().len() == 0);
        assert(total_tide_weight(s.drop_first()) == 0);
        assert(total_tide_weight(s.drop_last()) == 0);
    }
}

proof fn total_tide_weight_nonneg(s: Seq<LayoutItem>)
    requires
        forall|k: int| 0 <= k < s.len() ==> tide_weight(#[trigger] s[k]) >= 0,
    ensures
        total_tide_weight(s) >= 0,
    decreases s.len(),
{
    if s.len() > 0 {
        let d = s.drop_first();
        assert forall|k: int| 0 <= k < d.len() implies tide_weight(#[trigger] d[k]) >= 0 by {
            assert(d[k] == s[k + 1]);
        }
        total_tide_weight_nonneg(d);
        assert(tide_weight(s[0]) >= 0);
    }
}

proof fn total_tide_weight_insert(s: Seq<LayoutItem>, e: LayoutItem)
    ensures
        total_tide_weight(crate::order::insert_in_order(s, e)) == total_tide_weight(s) + tide_weight(e),
    decreases s.len(),
{
    let r = crate::order::insert_in_order(s, e);
    assert(total_tide_weight(r) == tide_weight(r[0]) + total_tide_weight(r.drop_first()));
    if s.len() == 0 {
        assert(r =~= seq![e]);
        assert(r.drop_first().len() == 0);
        assert(total_tide_weight(r.drop_first()) == 0);
        assert(total_tide_weight(s) == 0);
    } else if !crate::order::reads_before(s[0], e) {
        assert(r =~= seq![e] + s);
        assert(r.drop_first() =~= s);
    } else {
        total_tide_weight_insert(s.drop_first(), e);
        assert(r =~= seq![s[0]] + crate::order::insert_in_order(s.drop_first(), e));
        assert(r.drop_first() =~= crate::order::insert_in_order(s.drop_first(), e));
        assert(total_tide_weight(s) == tide_weight(s[0]) + total_tide_weight(s.drop_first()));
    }
}

proof fn total_tide_weight_sorted(s: Seq<LayoutItem>)
    ensures
        total_tide_weight(reading_order(s)) == total_tide_weight(s),
    decreases s.len(),
{
    if s.len() > 0 {
        total_tide_weight_sorted(s.drop_last());
        total_tide_weight_insert(reading_order(s.drop_last()), s.last());
        total_tide_weight_split(s);
    }
}

proof fn rising_tide_bounded(s: Seq<LayoutItem>, cols: int)
    requires
        cols >= 0,
        forall|k: int| 0 <= k < s.len() ==> inside_grid(#[trigger] s[k], cols),
        forall|k: int| 0 <= k < s.len() ==> tide_weight(#[trigger] s[k]) >= 0,
        total_tide_weight(s) <= i32::MAX,
    ensures
        rising_tide(s, cols).2,
        rising_tide(s, cols).0.len() == cols,
        forall|c: int|
            0 <= c < cols ==> 0 <= #[trigger] rising_tide(s, cols).0[c] <= total_tide_weight(s),
    decreases s.len(),
{
    rising_tide_shape(s, cols);
    if s.len() > 0 {
        let t = s.drop_last();
        total_tide_weight_split(s);
        assert forall|k: int| 0 <= k < t.len() implies inside_grid(#[trigger] t[k], cols)
            && tide_weight(t[k]) >= 0 by {
            assert(t[k] == s[k]);
        }
        total_tide_weight_nonneg(t);
        rising_tide_bounded(t, cols);
        rising_tide_shape(t, cols);
        let wl = rising_tide(t, cols).0;
        let q = s.last();
        assert(inside_grid(s[s.len() - 1], cols) && tide_weight(s[s.len() - 1]) >= 0);
        let lo = span_start(q);
        let hi = span_end(q, cols);
        assert(lo == q.x && hi == q.x + q.w);
        let total = total_tide_weight(s);
        let y = landing_row(wl, lo, hi);
        if lo < hi {
            range_max_bounds(wl, lo, hi, lo);
            let d = choose|d: int| lo <= d < hi && range_max(wl, lo, hi) == wl[d];
            assert(0 <= wl[d] <= total_tide_weight(t));
        }
        assert(0 <= y <= total_tide_weight(t));
        assert(tide_step_ok(wl, q, cols));
        let now = rising_tide(s, cols).0;
        assert forall|c: int| 0 <= c < cols implies 0 <= #[trigger] now[c] <= total by {
            assert(0 <= wl[c] <= total_tide_weight(t));
        }
    }
}

/// Gravity compaction accepts every layout whose items lie inside the grid and
/// whose total weight (heights, and bottom edges for static items) fits in an `i32`.
pub proof fn gravity_accepts_inside_grid(layout: Seq<LayoutItem>, cols: int)
    requires
        cols >= 0,
        forall|k: int| 0 <= k < layout.len() ==> inside_grid(#[trigger] layout[k], cols),
        total_tide_weight(layout) <= i32::MAX,
    ensures
        gravity_accepts(layout, cols),
{
    let s = reading_order(layout);
    reading_order_is_permutation(layout);
    total_tide_weight_sorted(layout);
    assert forall|k: int| 0 <= k < s.len() implies inside_grid(#[trigger] s[k], cols) && tide_weight(
        s[k],
    ) >= 0 by {
        crate::order::reading_order_items_from_input(layout, k);
        let m = choose|m: int| 0 <= m < layout.len() && layout[m] == s[k];
        assert(inside_grid(layout[m], cols));
    }
    rising_tide_bounded(s, cols);
}

/// The first free row is at most `max(y, bound)`.
proof fn first_free_row_upper(item: LayoutItem, placed: Seq<LayoutItem>, y: int)
    ensures
        first_free_row(item, placed, y) <= y || first_free_row(item, placed, y) <= bottom_bound(
            placed,
        ),
    decreases bottom_bound(placed) - y,
{
    if y < bottom_bound(placed) && hits_any(at_row(item, y), placed) {
        first_free_row_upper(item, placed, y + 1);
    }
}

/// The largest row of the items of `s` (0 when there is none).
pub open spec fn max_row(s: Seq<LayoutItem>) -> int
    decreases s.len(),
{
    if s.len() == 0 {
        0
    } else if s.last().y > max_row(s.drop_last()) {
        s.last().y as int
    } else {
        max_row(s.drop_last())
    }
}

proof fn max_row_nonneg(s: Seq<LayoutItem>)
    ensures
        max_row(s) >= 0,
    decreases s.len(),
{
    if s.len() > 0 {
        max_row_nonneg(s.drop_last());
    }
}

proof fn max_row_above(s: Seq<LayoutItem>, k: int)
    requires
        0 <= k < s.len(),
    ensures
        s[k].y <= max_row(s),
    decreases s.len(),
{
    if k < s.len() - 1 {
        max_row_above(s.drop_last(), k);
    }
}

proof fn total_height_nonneg(s: Seq<LayoutItem>)
    requires
        forall|k: int| 0 <= k < s.len() ==> (#[trigger] s[k]).h >= 0,
    ensures
        crate::collision::total_height(s) >= 0,
    decreases s.len(),
{
    if s.len() > 0 {
        let t = s.drop_last();
        assert forall|k: int| 0 <= k < t.len() implies (#[trigger] t[k]).h >= 0 by {
            assert(t[k] == s[k]);
        }
        total_height_nonneg(t);
        assert(s[s.len() - 1].h >= 0);
    }
}

proof fn free_placement_bounded(s: Seq<LayoutItem>, top: int)
    requires
        top >= 0,
        forall|k: int| 0 <= k < s.len() ==> (#[trigger] s[k]).y <= top,
        forall|k: int| 0 <= k < s.len() ==> (#[trigger] s[k]).h >= 0,
        top + crate::collision::total_height(s) <= i32::MAX,
    ensures
        free_placement(s).1,
        bottom_bound(free_placement(s).0) <= top + crate::collision::total_height(s),
    decreases s.len(),
{
    free_placement_shape(s);
    if s.len() > 0 {
        let t = s.drop_last();
        assert forall|k: int| 0 <= k < t.len() implies (#[trigger] t[k]).y <= top && t[k].h >= 0 by {
            assert(t[k] == s[k]);
        }
        assert(s[s.len() - 1].h >= 0 && s[s.len() - 1].y <= top);
        total_height_nonneg(t);
        free_placement_bounded(t, top);
        let prev = free_placement(t).0;
        let it = s.last();
        let ff = free_row(it, prev);
        if !it.is_static {
            first_free_row_upper(it, prev, it.y as int);
        }
        assert(ff <= top + crate::collision::total_height(t));
        assert(free_step_ok(prev, it));
        if !it.is_static {
            first_free_row_facts(it, prev, it.y as int);
        }
        assert(crate::collision::total_height(s) == crate::collision::total_height(t) + it.h);
        let placed = at_row(it, ff);
        let now = free_placement(s).0;
        assert(now == prev.push(placed));
        assert(now.drop_last() =~= prev);
        assert(now.last() == placed);
        assert(placed.y + placed.h <= top + crate::collision::total_height(s));
    } else {
        assert(bottom_bound(free_placement(s).0) == i32::MIN);
    }
}

/// Free placement accepts every layout of items with heights that are not
/// negative, when the largest row plus the total height fits in an `i32`.
pub proof fn free_accepts_bounded(layout: Seq<LayoutItem>)
    requires
        forall|k: int| 0 <= k < layout.len() ==> (#[trigger] layout[k]).h >= 0,
        max_row(layout) + crate::collision::total_height(layout) <= i32::MAX,
    ensures
        free_accepts(layout),
{
    let s = reading_order(layout);
    reading_order_is_permutation(layout);
    assert forall|k: int| 0 <= k < s.len() implies (#[trigger] s[k]).y <= max_row(layout) && s[k].h
        >= 0 by {
        crate::order::reading_order_items_from_input(layout, k);
        let m = choose|m: int| 0 <= m < layout.len() && layout[m] == s[k];
        max_row_above(layout, m);
    }
    total_height_sorted(layout);
    max_row_nonneg(layout);
    free_placement_bounded(s, max_row(layout));
}

proof fn total_height_front(s: Seq<LayoutItem>)
    requires
        s.len() > 0,
    ensures
        crate::collision::total_height(s) == s[0].h + crate::collision::total_height(s.drop_first()),
    decreases s.len(),
{
    if s.len() > 1 {
        let dl = s.drop_last();
        total_height_front(dl);
        assert(dl.drop_first() =~= s.drop_first().drop_last());
        assert(s.drop_first().last() == s.last());
        assert(dl[0] == s[0]);
        assert(crate::collision::total_height(s.drop_first()) == crate::collision::total_height(
            s.drop_first().drop_last(),
        ) + s.drop_first().last().h);
    } else {
        assert(s.drop_first().len() == 0);
        assert(s.drop_last().len() == 0);
        assert(crate::collision::total_height(s.drop_first()) == 0);
        assert(crate::collision::total_height(s.drop_last()) == 0);
        assert(s.last() == s[0]);
    }
}

proof fn total_height_insert(s: Seq<LayoutItem>, e: LayoutItem)
    ensures
        crate::collision::total_height(crate::order::insert_in_order(s, e))
            == crate::collision::total_height(s) + e.h,
    decreases s.len(),
{
    let r = crate::order::insert_in_order(s, e);
    total_height_front(r);
    if s.len() == 0 {
        assert(r =~= seq![e]);
        assert(r.drop_first().len() == 0);
        assert(crate::collision::total_height(r.drop_first()) == 0);
        assert(crate::collision::total_height(s) == 0);
    } else if !crate::order::reads_before(s[0], e) {
        assert(r =~= seq![e] + s);
        assert(r.drop_first() =~= s);
    } else {
        total_height_insert(s.drop_first(), e);
        total_height_front(s);
        assert(r =~= seq![s[0]] + crate::order::insert_in_order(s.drop_first(), e));
        assert(r.drop_first() =~= crate::order::insert_in_order(s.drop_first(), e));
    }
}

proof fn total_height_sorted(s: Seq<LayoutItem>)
    ensures
        crate::collision::total_height(reading_order(s)) == crate::collision::total_height(s),
    decreases s.len(),
{
    if s.len() > 0 {
        total_height_sorted(s.drop_last());
        total_height_insert(reading_order(s.drop_last()), s.last());
    }
}

} // verus!
