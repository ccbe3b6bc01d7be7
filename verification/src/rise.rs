//! Gravity compaction only lifts items: on a layout where no two items
//! overlap, every item is at least one row high and none lies above row 0, no
//! item ends up lower than it started.
//!
//! The argument: every waterline value is at most 0, or at most the bottom edge (as it was
//! before compaction) of an earlier item covering that column. Such an item
//! shares a column with the item being placed and reads before it, so, as the
//! two do not overlap, it ends above the row the item started on.

use vstd::prelude::*;
use crate::compact::{
    fill_range, gravity_accepts, gravity_compaction, landing_row, raise_range, range_max,
    range_max_bounds, rising_tide, rising_tide_shape, span_end, span_start, tide_step,
    tide_step_ok,
};
use crate::item::{LayoutItem, rects_overlap};
use crate::order::{
    reading_order, reading_order_is_permutation, reading_order_items_from_input,
    reading_order_sorted, reads_before,
};
use crate::settle::{cols_overlap, covers};

verus! {

/// No two items of `s`, at different positions, overlap.
pub open spec fn no_overlaps(s: Seq<LayoutItem>) -> bool {
    forall|i: int, j: int|
        0 <= i < s.len() && 0 <= j < s.len() && i != j ==> !rects_overlap(
            #[trigger] s[i],
            #[trigger] s[j],
        )
}

/// Every waterline value is at most 0, or at most the bottom edge of an item
/// of `s` covering that column.
spec fn waterline_bounded(wl: Seq<i32>, s: Seq<LayoutItem>, cols: int) -> bool {
    forall|c: int|
        0 <= c < cols ==> #[trigger] wl[c] <= 0 || exists|k: int|
            0 <= k < s.len() && covers(#[trigger] s[k], c) && wl[c] <= s[k].y + s[k].h
}

/// An item that appears twice in `s` appears twice in any permutation `l` of it.
proof fn repeated_in_permutation(s: Seq<LayoutItem>, l: Seq<LayoutItem>, a: int, b: int) -> (ij: (
    int,
    int,
))
    requires
        s.to_multiset() == l.to_multiset(),
        0 <= a < s.len(),
        0 <= b < s.len(),
        a != b,
        s[a] == s[b],
    ensures
        0 <= ij.0 < l.len(),
        0 <= ij.1 < l.len(),
        ij.0 != ij.1,
        l[ij.0] == s[a],
        l[ij.1] == s[a],
{
    broadcast use vstd::seq_lib::to_multiset_contains, vstd::seq_lib::to_multiset_remove;

    let v = s[a];
    let sr = s.remove(a);
    let b2 = if b < a {
        b
    } else {
        b - 1
    };
    assert(sr[b2] == v);
    assert(sr.contains(v));
    assert(sr.to_multiset().count(v) > 0);
    assert(s.to_multiset().count(v) >= 2);
    assert(l.to_multiset().count(v) > 0);
    assert(l.contains(v));
    let i = choose|i: int| 0 <= i < l.len() && l[i] == v;
    let lr = l.remove(i);
    assert(lr.to_multiset() == l.to_multiset().remove(v));
    assert(lr.to_multiset().count(v) > 0);
    assert(lr.contains(v));
    let j2 = choose|j: int| 0 <= j < lr.len() && lr[j] == v;
    let j = if j2 < i {
        j2
    } else {
        j2 + 1
    };
    assert(l[j] == lr[j2]);
    (i, j)
}

/// Gravity placement of items that read in order, where an item that shares a
/// column with a later one ends above that one's row: each item lands at or
/// above its own row, and the waterline stays bounded by the items as given.
proof fn rising_tide_lifts(s: Seq<LayoutItem>, cols: int)
    requires
        cols >= 0,
        rising_tide(s, cols).2,
        forall|k: int| 0 <= k < s.len() ==> (#[trigger] s[k]).y >= 0,
        forall|i: int, j: int|
            0 <= i < j < s.len() && cols_overlap(#[trigger] s[i], #[trigger] s[j]) ==> s[i].y
                + s[i].h <= s[j].y,
    ensures
        waterline_bounded(rising_tide(s, cols).0, s, cols),
        forall|k: int| 0 <= k < s.len() ==> (#[trigger] rising_tide(s, cols).1[k]).y <= s[k].y,
    decreases s.len(),
{
    rising_tide_shape(s, cols);
    if s.len() > 0 {
        let n = s.len() - 1;
        let t = s.drop_last();
        assert forall|k: int| 0 <= k < t.len() implies (#[trigger] t[k]).y >= 0 by {
            assert(t[k] == s[k]);
        }
        assert forall|i: int, j: int|
            0 <= i < j < t.len() && cols_overlap(#[trigger] t[i], #[trigger] t[j]) implies t[i].y
            + t[i].h <= t[j].y by {
            assert(t[i] == s[i] && t[j] == s[j]);
        }
        rising_tide_lifts(t, cols);
        rising_tide_shape(t, cols);
        let wl = rising_tide(t, cols).0;
        let q = s[n];
        assert(s.last() == q);
        assert(tide_step_ok(wl, q, cols));
        let lo = span_start(q);
        let hi = span_end(q, cols);
        let step = tide_step(wl, q, cols);
        assert(rising_tide(s, cols).0 == step.0);
        assert(rising_tide(s, cols).1 == rising_tide(t, cols).1.push(step.1));
        // the landing row of a movable item is not below its own row
        if !q.is_static && lo < hi {
            range_max_bounds(wl, lo, hi, lo);
            let d = choose|d: int| lo <= d < hi && range_max(wl, lo, hi) == wl[d];
            assert(covers(q, d));
            if wl[d] > 0 {
                let k = choose|k: int|
                    0 <= k < t.len() && covers(#[trigger] t[k], d) && wl[d] <= t[k].y + t[k].h;
                assert(t[k] == s[k]);
                assert(cols_overlap(s[k], s[n]));
            }
            assert(landing_row(wl, lo, hi) <= q.y);
        }
        assert(step.1.y <= q.y);
        assert forall|k: int| 0 <= k < s.len() implies (#[trigger] rising_tide(s, cols).1[k]).y
            <= s[k].y by {
            if k < n {
                assert(rising_tide(s, cols).1[k] == rising_tide(t, cols).1[k]);
                assert(t[k] == s[k]);
            }
        }
        let nwl = step.0;
        assert forall|c: int| 0 <= c < cols implies #[trigger] nwl[c] <= 0 || exists|k: int|
            0 <= k < s.len() && covers(#[trigger] s[k], c) && nwl[c] <= s[k].y + s[k].h by {
            if lo <= c < hi && nwl[c] != wl[c] {
                assert(covers(s[n], c));
                if !q.is_static {
                    assert(nwl == fill_range(wl, lo, hi, (landing_row(wl, lo, hi) + q.h) as i32));
                } else {
                    assert(nwl == raise_range(wl, lo, hi, (q.y + q.h) as i32));
                }
            } else if wl[c] > 0 {
                let k = choose|k: int|
                    0 <= k < t.len() && covers(#[trigger] t[k], c) && wl[c] <= t[k].y + t[k].h;
                assert(t[k] == s[k]);
            }
        }
    }
}

/// Gravity compaction only lifts items: on a layout where no two items
/// overlap, every item is at least one row high and none lies above row 0,
/// each item of the result (listed in reading order, see
/// [`crate::compact::gravity_moves_only_rows`]) sits at or above the row it had.
pub proof fn gravity_only_lifts(layout: Seq<LayoutItem>, cols: int)
    requires
        gravity_accepts(layout, cols),
        no_overlaps(layout),
        forall|k: int| 0 <= k < layout.len() ==> (#[trigger] layout[k]).y >= 0 && layout[k].h >= 1,
    ensures
        forall|k: int|
            0 <= k < layout.len() ==> (#[trigger] gravity_compaction(layout, cols)[k]).y
                <= reading_order(layout)[k].y,
{
    let s = reading_order(layout);
    reading_order_is_permutation(layout);
    reading_order_sorted(layout);
    assert forall|k: int| 0 <= k < s.len() implies (#[trigger] s[k]).y >= 0 && s[k].h >= 1 by {
        reading_order_items_from_input(layout, k);
        let m = choose|m: int| 0 <= m < layout.len() && layout[m] == s[k];
        assert(layout[m].y >= 0 && layout[m].h >= 1);
    }
    assert forall|i: int, j: int|
        0 <= i < j < s.len() && cols_overlap(#[trigger] s[i], #[trigger] s[j]) implies s[i].y
        + s[i].h <= s[j].y by {
        assert(reads_before(s[i], s[j]));
        assert(s[i].h >= 1 && s[j].h >= 1);
        if s[i] == s[j] {
            let ij = repeated_in_permutation(s, layout, i, j);
            assert(rects_overlap(layout[ij.0], layout[ij.1]));
        } else {
            reading_order_items_from_input(layout, i);
            reading_order_items_from_input(layout, j);
            let mi = choose|m: int| 0 <= m < layout.len() && layout[m] == s[i];
            let mj = choose|m: int| 0 <= m < layout.len() && layout[m] == s[j];
            assert(!rects_overlap(layout[mi], layout[mj]));
        }
    }
    rising_tide_lifts(s, cols);
}

} // verus!
