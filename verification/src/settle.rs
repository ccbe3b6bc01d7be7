//! Gravity compaction settles a layout for good: compacting its result again
//! moves no item, it only lists the items in reading order.
//!
//! The argument: on a layout of movable items inside the grid, each item lands
//! on the highest bottom edge among the items placed before it that share a
//! column with it (or on row 0). After one compaction, an item that shares a
//! column with an earlier one lies strictly below it, so reading order keeps
//! every such pair in the same order, and each item finds the same supports,
//! hence the same row, the second time.

use vstd::prelude::*;
use crate::compact::{
    at_row, gravity_accepts, gravity_compaction, landing_row, movable_in_grid, raise_range, range_max,
    range_max_bounds, rising_tide, rising_tide_changes_only_rows, rising_tide_shape, span_end,
    span_start, tide_step, tide_step_ok,
};
use crate::item::LayoutItem;
use crate::order::{
    reading_order, reading_order_is_permutation, reading_order_items_from_input,
    reading_order_sorted, reads_before,
};

verus! {

/// `a` and `b` share at least one column.
pub open spec fn cols_overlap(a: LayoutItem, b: LayoutItem) -> bool {
    a.x < b.x + b.w && b.x < a.x + a.w
}

/// Column `c` is one of the columns of `a`.
pub open spec fn covers(a: LayoutItem, c: int) -> bool {
    a.x <= c < a.x + a.w
}

/// The lowest bottom edge among the items of `p` covering column `c` (0 when none).
pub open spec fn col_top(p: Seq<LayoutItem>, c: int) -> int
    decreases p.len(),
{
    if p.len() == 0 {
        0
    } else {
        let r = col_top(p.drop_last(), c);
        let q = p.last();
        if covers(q, c) && q.y + q.h > r {
            q.y + q.h
        } else {
            r
        }
    }
}

/// Row `y` is where `q` rests on the items of `p`: not above row 0, not above
/// the bottom edge of any item sharing a column with `q`, and equal to 0 or to
/// one of those bottom edges.
pub open spec fn rests_on(y: int, p: Seq<LayoutItem>, q: LayoutItem) -> bool {
    &&& y >= 0
    &&& forall|k: int| 0 <= k < p.len() && cols_overlap(#[trigger] p[k], q) ==> p[k].y + p[k].h <= y
    &&& y == 0 || exists|k: int|
        0 <= k < p.len() && cols_overlap(#[trigger] p[k], q) && y == p[k].y + p[k].h
}

/// A movable item inside the grid, at least one row high.
pub open spec fn settles_fully(item: LayoutItem, cols: int) -> bool {
    movable_in_grid(item, cols) && item.h >= 1
}

/// An item gravity places so that the laws here hold: a static item at least
/// one column wide, or a movable item inside the grid at least one row high.
pub open spec fn gravity_placeable(item: LayoutItem, cols: int) -> bool {
    (item.is_static && item.w >= 1) || settles_fully(item, cols)
}

proof fn col_top_facts(p: Seq<LayoutItem>, c: int)
    ensures
        col_top(p, c) >= 0,
        forall|k: int|
            0 <= k < p.len() && covers(#[trigger] p[k], c) ==> p[k].y + p[k].h <= col_top(p, c),
        col_top(p, c) == 0 || exists|k: int|
            0 <= k < p.len() && covers(#[trigger] p[k], c) && col_top(p, c) == p[k].y + p[k].h,
    decreases p.len(),
{
    if p.len() > 0 {
        let t = p.drop_last();
        col_top_facts(t, c);
        assert forall|k: int| 0 <= k < p.len() && covers(#[trigger] p[k], c) implies p[k].y + p[k].h
            <= col_top(p, c) by {
            if k < p.len() - 1 {
                assert(p[k] == t[k]);
            }
        }
        if col_top(p, c) != 0 && col_top(p, c) == col_top(t, c) {
            let k = choose|k: int|
                0 <= k < t.len() && covers(#[trigger] t[k], c) && col_top(t, c) == t[k].y + t[k].h;
            assert(p[k] == t[k]);
        }
    }
}

/// The waterline of gravity placement is the lowest bottom edge per column.
proof fn waterline_is_col_top(s: Seq<LayoutItem>, cols: int)
    requires
        cols >= 0,
        rising_tide(s, cols).2,
        forall|k: int| 0 <= k < s.len() ==> (#[trigger] s[k]).is_static || movable_in_grid(s[k], cols),
    ensures
        forall|c: int|
            0 <= c < cols ==> #[trigger] rising_tide(s, cols).0[c] == col_top(rising_tide(s, cols).1, c),
    decreases s.len(),
{
    rising_tide_shape(s, cols);
    if s.len() > 0 {
        let t = s.drop_last();
        assert forall|k: int| 0 <= k < t.len() implies (#[trigger] t[k]).is_static || movable_in_grid(
            t[k],
            cols,
        ) by {
            assert(t[k] == s[k]);
        }
        waterline_is_col_top(t, cols);
        rising_tide_shape(t, cols);
        let wl = rising_tide(t, cols).0;
        let p = rising_tide(t, cols).1;
        let q = s.last();
        assert(s[s.len() - 1].is_static || movable_in_grid(s[s.len() - 1], cols));
        let placed = rising_tide(s, cols).1;
        assert(tide_step_ok(wl, q, cols));
        if q.is_static {
            let lo = span_start(q);
            let hi = span_end(q, cols);
            assert(placed == p.push(q));
            assert(placed.drop_last() =~= p);
            assert(rising_tide(s, cols).0 == raise_range(wl, lo, hi, (q.y + q.h) as i32));
            assert forall|c: int| 0 <= c < cols implies #[trigger] rising_tide(s, cols).0[c]
                == col_top(placed, c) by {
                assert((lo <= c < hi) == covers(q, c));
            }
        } else {
            let lo = q.x as int;
            let hi = q.x + q.w;
            assert(span_start(q) == lo && span_end(q, cols) == hi);
            let y = range_max(wl, lo, hi);
            assert(placed == p.push(at_row(q, y)));
            assert(placed.drop_last() =~= p);
            assert forall|c: int| 0 <= c < cols implies #[trigger] rising_tide(s, cols).0[c]
                == col_top(placed, c) by {
                if lo <= c < hi {
                    range_max_bounds(wl, lo, hi, c);
                    col_top_facts(p, c);
                }
            }
        }
    }
}

/// Where gravity placement puts an item: it rests on the items placed before it.
proof fn landing_rests(t: Seq<LayoutItem>, q: LayoutItem, cols: int)
    requires
        cols >= 0,
        rising_tide(t, cols).2,
        forall|k: int|
            0 <= k < t.len() ==> ((#[trigger] t[k]).is_static && t[k].w >= 1) || movable_in_grid(
                t[k],
                cols,
            ),
        movable_in_grid(q, cols),
    ensures
        rests_on(
            landing_row(rising_tide(t, cols).0, q.x as int, q.x + q.w),
            rising_tide(t, cols).1,
            q,
        ),
{
    rising_tide_shape(t, cols);
    rising_tide_changes_only_rows(t, cols);
    waterline_is_col_top(t, cols);
    let wl = rising_tide(t, cols).0;
    let p = rising_tide(t, cols).1;
    let lo = q.x as int;
    let hi = q.x + q.w;
    let y = landing_row(wl, lo, hi);
    range_max_bounds(wl, lo, hi, lo);
    let d = choose|d: int| lo <= d < hi && range_max(wl, lo, hi) == wl[d];
    col_top_facts(p, d);
    assert forall|k: int| 0 <= k < p.len() && cols_overlap(#[trigger] p[k], q) implies p[k].y
        + p[k].h <= y by {
        let c = if p[k].x < q.x {
            q.x as int
        } else {
            p[k].x as int
        };
        assert(p[k] == at_row(t[k], p[k].y as int));
        assert((t[k].is_static && t[k].w >= 1) || movable_in_grid(t[k], cols));
        range_max_bounds(wl, lo, hi, c);
        col_top_facts(p, c);
        assert(covers(p[k], c));
        assert(0 <= c < cols);
        assert(wl[c] == col_top(p, c));
        assert(p[k].y + p[k].h <= col_top(p, c));
        assert(wl[c] <= y);
    }
    if y != 0 {
        let k = choose|k: int|
            0 <= k < p.len() && covers(#[trigger] p[k], d) && col_top(p, d) == p[k].y + p[k].h;
        assert(cols_overlap(p[k], q));
    }
}

/// Gravity placement of a prefix gives the prefix of the placement.
proof fn rising_tide_prefix(s: Seq<LayoutItem>, cols: int, j: int)
    requires
        cols >= 0,
        0 <= j <= s.len(),
    ensures
        rising_tide(s.take(j), cols).1 == rising_tide(s, cols).1.take(j),
        rising_tide(s, cols).2 ==> rising_tide(s.take(j), cols).2,
        j < s.len() ==> rising_tide(s, cols).1[j] == tide_step(
            rising_tide(s.take(j), cols).0,
            s[j],
            cols,
        ).1,
    decreases s.len(),
{
    rising_tide_shape(s, cols);
    if j == s.len() {
        assert(s.take(j) =~= s);
        assert(rising_tide(s, cols).1.take(j) =~= rising_tide(s, cols).1);
    } else {
        let t = s.drop_last();
        rising_tide_prefix(t, cols, j);
        rising_tide_shape(t, cols);
        assert(s.take(j) =~= t.take(j));
        assert(rising_tide(s, cols).1.take(j) =~= rising_tide(t, cols).1.take(j));
        if j == s.len() - 1 {
            assert(t.take(j) =~= t);
        } else {
            assert(rising_tide(s, cols).1[j] == rising_tide(t, cols).1[j]);
            assert(t[j] == s[j]);
        }
    }
}

/// The facts one gravity pass leaves: every placed movable item rests on the
/// items placed before it and has a bottom edge that fits; every item keeps its
/// columns and size, so stays placeable.
proof fn first_pass(s: Seq<LayoutItem>, cols: int)
    requires
        cols >= 0,
        rising_tide(s, cols).2,
        forall|k: int| 0 <= k < s.len() ==> gravity_placeable(#[trigger] s[k], cols),
    ensures
        rising_tide(s, cols).1.len() == s.len(),
        forall|j: int|
            0 <= j < s.len() && !s[j].is_static ==> rests_on(
                (#[trigger] rising_tide(s, cols).1[j]).y as int,
                rising_tide(s, cols).1.take(j),
                rising_tide(s, cols).1[j],
            ),
        forall|j: int|
            0 <= j < s.len() ==> gravity_placeable(#[trigger] rising_tide(s, cols).1[j], cols),
        forall|j: int|
            0 <= j < s.len() ==> #[trigger] rising_tide(s, cols).1[j] == at_row(
                s[j],
                rising_tide(s, cols).1[j].y as int,
            ),
        forall|j: int|
            0 <= j < s.len() && !s[j].is_static ==> (#[trigger] rising_tide(s, cols).1[j]).y
                + rising_tide(s, cols).1[j].h <= i32::MAX,
{
    let o = rising_tide(s, cols).1;
    rising_tide_shape(s, cols);
    rising_tide_changes_only_rows(s, cols);
    assert forall|j: int| 0 <= j < s.len() implies (!s[j].is_static ==> rests_on(
        (#[trigger] o[j]).y as int,
        o.take(j),
        o[j],
    ) && o[j].y + o[j].h <= i32::MAX) && gravity_placeable(o[j], cols) by {
        if s[j].is_static {
            assert(o[j] == s[j]);
            assert(gravity_placeable(s[j], cols));
        } else {
            rising_tide_prefix(s, cols, j);
            rising_tide_prefix(s, cols, j + 1);
            let t = s.take(j);
            assert forall|k: int| 0 <= k < t.len() implies ((#[trigger] t[k]).is_static && t[k].w
                >= 1) || movable_in_grid(t[k], cols) by {
                assert(t[k] == s[k]);
                assert(gravity_placeable(s[k], cols));
            }
            assert(gravity_placeable(s[j], cols));
            assert(settles_fully(s[j], cols));
            landing_rests(t, s[j], cols);
            let wl = rising_tide(t, cols).0;
            let y = landing_row(wl, s[j].x as int, s[j].x + s[j].w);
            assert(span_start(s[j]) == s[j].x && span_end(s[j], cols) == s[j].x + s[j].w);
            assert(s.take(j + 1).drop_last() =~= t);
            assert(s.take(j + 1).last() == s[j]);
            assert(tide_step_ok(wl, s[j], cols));
            assert(o[j] == at_row(s[j], y));
            assert forall|k: int|
                0 <= k < o.take(j).len() && cols_overlap(#[trigger] o.take(j)[k], o[j]) implies o.take(
                j,
            )[k].y + o.take(j)[k].h <= o[j].y by {
                assert(cols_overlap(rising_tide(t, cols).1[k], s[j]));
            }
            if o[j].y != 0 {
                let k = choose|k: int|
                    0 <= k < rising_tide(t, cols).1.len() && cols_overlap(
                        #[trigger] rising_tide(t, cols).1[k],
                        s[j],
                    ) && y == rising_tide(t, cols).1[k].y + rising_tide(t, cols).1[k].h;
                assert(cols_overlap(o.take(j)[k], o[j]));
            }
        }
    }
}

/// Items of the first pass that share a column come in strictly increasing rows.
proof fn first_pass_order(o: Seq<LayoutItem>, cols: int, i: int, j: int)
    requires
        forall|j: int| 0 <= j < o.len() ==> rests_on((#[trigger] o[j]).y as int, o.take(j), o[j]),
        forall|j: int| 0 <= j < o.len() ==> settles_fully(#[trigger] o[j], cols),
        0 <= i < j < o.len(),
        cols_overlap(o[i], o[j]),
    ensures
        o[i].y + o[i].h <= o[j].y,
        o[i].y < o[j].y,
{
    assert(rests_on(o[j].y as int, o.take(j), o[j]));
    assert(o.take(j)[i] == o[i]);
    assert(settles_fully(o[i], cols));
}

/// What the first pass leaves, as the second pass reads it: `u` lists the
/// items of `o` in reading order, and every item of `o` rests on those before it.
spec fn second_pass_input(o: Seq<LayoutItem>, u: Seq<LayoutItem>, cols: int) -> bool {
    &&& cols >= 0
    &&& u == reading_order(o)
    &&& u.len() == o.len()
    &&& o.no_duplicates()
    &&& u.no_duplicates()
    &&& forall|j: int| 0 <= j < o.len() ==> rests_on((#[trigger] o[j]).y as int, o.take(j), o[j])
    &&& forall|j: int| 0 <= j < o.len() ==> settles_fully(#[trigger] o[j], cols)
    &&& forall|j: int| 0 <= j < o.len() ==> (#[trigger] o[j]).y + o[j].h <= i32::MAX
    &&& forall|k: int| 0 <= k < u.len() ==> o.contains(#[trigger] u[k])
    &&& forall|j: int| 0 <= j < o.len() ==> u.contains(#[trigger] o[j])
}

/// In the second pass an item does not land below its own row.
#[verifier::spinoff_prover]
proof fn landing_not_below(o: Seq<LayoutItem>, u: Seq<LayoutItem>, cols: int, m: int, y: int)
    requires
        second_pass_input(o, u, cols),
        1 <= m <= u.len(),
        rests_on(y, u.take(m - 1), u[m - 1]),
    ensures
        y <= u[m - 1].y,
{
    let t = u.take(m - 1);
    let q = u[m - 1];
    if y != 0 {
        assert(o.contains(q));
        let j = choose|j: int| 0 <= j < o.len() && o[j] == q;
        let k = choose|k: int|
            0 <= k < t.len() && cols_overlap(#[trigger] t[k], q) && y == t[k].y + t[k].h;
        assert(t[k] == u[k]);
        assert(o.contains(u[k]));
        let i = choose|i: int| 0 <= i < o.len() && o[i] == u[k];
        assert(i != j) by {
            if i == j {
                assert(u[k] == u[m - 1]);
            }
        }
        if i > j {
            assert(cols_overlap(o[j], o[i]));
            first_pass_order(o, cols, j, i);
            reading_order_sorted(o);
            assert(reads_before(u[k], u[m - 1]));
        } else {
            first_pass_order(o, cols, i, j);
        }
    }
}

/// In the second pass an item does not land above its own row.
#[verifier::spinoff_prover]
proof fn landing_not_above(o: Seq<LayoutItem>, u: Seq<LayoutItem>, cols: int, m: int, y: int)
    requires
        second_pass_input(o, u, cols),
        1 <= m <= u.len(),
        rests_on(y, u.take(m - 1), u[m - 1]),
    ensures
        u[m - 1].y <= y,
{
    let t = u.take(m - 1);
    let q = u[m - 1];
    if q.y != 0 {
        assert(o.contains(q));
        let j = choose|j: int| 0 <= j < o.len() && o[j] == q;
        assert(rests_on(o[j].y as int, o.take(j), o[j]));
        let i = choose|i: int|
            0 <= i < o.take(j).len() && cols_overlap(#[trigger] o.take(j)[i], o[j]) && o[j].y
                == o.take(j)[i].y + o.take(j)[i].h;
        assert(o.take(j)[i] == o[i]);
        first_pass_order(o, cols, i, j);
        assert(u.contains(o[i]));
        let k = choose|k: int| 0 <= k < u.len() && u[k] == o[i];
        assert(k < m - 1) by {
            if k == m - 1 {
                assert(o[i] == o[j]);
            }
            if k > m - 1 {
                reading_order_sorted(o);
                assert(reads_before(u[m - 1], u[k]));
            }
        }
        assert(t[k] == u[k]);
        assert(cols_overlap(t[k], q));
    }
}

/// The second pass: placing the items of the first pass in reading order puts
/// each one back on its own row.
proof fn second_pass(o: Seq<LayoutItem>, u: Seq<LayoutItem>, cols: int, m: int)
    requires
        second_pass_input(o, u, cols),
        0 <= m <= u.len(),
    ensures
        rising_tide(u.take(m), cols).2,
        rising_tide(u.take(m), cols).1 == u.take(m),
    decreases m,
{
    if m == 0 {
        assert(u.take(0) =~= Seq::<LayoutItem>::empty());
    } else {
        second_pass(o, u, cols, m - 1);
        let t = u.take(m - 1);
        let q = u[m - 1];
        assert(o.contains(q));
        let j = choose|j: int| 0 <= j < o.len() && o[j] == q;
        assert(settles_fully(o[j], cols));
        assert(o[j].y + o[j].h <= i32::MAX);
        assert forall|k: int| 0 <= k < t.len() implies movable_in_grid(#[trigger] t[k], cols) by {
            assert(t[k] == u[k]);
            assert(o.contains(u[k]));
            let i = choose|i: int| 0 <= i < o.len() && o[i] == u[k];
            assert(settles_fully(o[i], cols));
        }
        landing_rests(t, q, cols);
        let wl = rising_tide(t, cols).0;
        let y = landing_row(wl, q.x as int, q.x + q.w);
        landing_not_below(o, u, cols, m, y);
        landing_not_above(o, u, cols, m, y);
        assert(span_start(q) == q.x && span_end(q, cols) == q.x + q.w);
        assert(u.take(m).drop_last() =~= t);
        assert(u.take(m).last() == q);
        assert(tide_step_ok(wl, q, cols));
        assert(at_row(q, y) == q);
        assert(rising_tide(u.take(m), cols).1 =~= t.push(q));
        assert(t.push(q) =~= u.take(m));
    }
}

/// Gravity settles items toward row 0: on a layout of static items at least
/// one column wide and movable items inside the grid at least one row high,
/// every movable item of the result rests on row 0 or on the bottom edge of an
/// item before it (static or not) that shares a column with it, and no item
/// before it that shares a column reaches below its top.
pub proof fn gravity_rests(layout: Seq<LayoutItem>, cols: int)
    requires
        gravity_accepts(layout, cols),
        forall|k: int| 0 <= k < layout.len() ==> gravity_placeable(#[trigger] layout[k], cols),
    ensures
        gravity_compaction(layout, cols).len() == layout.len(),
        forall|j: int|
            0 <= j < layout.len() && !gravity_compaction(layout, cols)[j].is_static ==> rests_on(
                (#[trigger] gravity_compaction(layout, cols)[j]).y as int,
                gravity_compaction(layout, cols).take(j),
                gravity_compaction(layout, cols)[j],
            ),
{
    let s = reading_order(layout);
    reading_order_is_permutation(layout);
    assert forall|k: int| 0 <= k < s.len() implies gravity_placeable(#[trigger] s[k], cols) by {
        reading_order_items_from_input(layout, k);
        let m = choose|m: int| 0 <= m < layout.len() && layout[m] == s[k];
        assert(gravity_placeable(layout[m], cols));
    }
    first_pass(s, cols);
    let o = gravity_compaction(layout, cols);
    assert forall|j: int| 0 <= j < layout.len() && !o[j].is_static implies rests_on(
        (#[trigger] o[j]).y as int,
        o.take(j),
        o[j],
    ) by {
        assert(o[j] == at_row(s[j], o[j].y as int));
    }
}

/// Gravity compaction of movable items inside the grid, each at least one row
/// high, is settled: compacting the result again is accepted and moves no item;
/// it only lists the items in reading order.
pub proof fn gravity_is_stable(layout: Seq<LayoutItem>, cols: int)
    requires
        gravity_accepts(layout, cols),
        forall|k: int| 0 <= k < layout.len() ==> settles_fully(#[trigger] layout[k], cols),
    ensures
        gravity_accepts(gravity_compaction(layout, cols), cols),
        gravity_compaction(gravity_compaction(layout, cols), cols) == reading_order(
            gravity_compaction(layout, cols),
        ),
{
    broadcast use vstd::seq_lib::to_multiset_contains;

    let s = reading_order(layout);
    reading_order_is_permutation(layout);
    assert forall|k: int| 0 <= k < s.len() implies settles_fully(#[trigger] s[k], cols) by {
        reading_order_items_from_input(layout, k);
        let m = choose|m: int| 0 <= m < layout.len() && layout[m] == s[k];
        assert(settles_fully(layout[m], cols));
    }
    first_pass(s, cols);
    let o = rising_tide(s, cols).1;
    assert forall|j: int| 0 <= j < o.len() implies settles_fully(#[trigger] o[j], cols) && rests_on(
        o[j].y as int,
        o.take(j),
        o[j],
    ) && o[j].y + o[j].h <= i32::MAX by {
        assert(settles_fully(s[j], cols));
        assert(gravity_placeable(o[j], cols));
        assert(o[j] == at_row(s[j], o[j].y as int));
    }
    assert(o == gravity_compaction(layout, cols));
    // no two placed items are equal: equal items share their columns
    assert forall|i: int, j: int| 0 <= i < o.len() && 0 <= j < o.len() && i != j implies o[i]
        != o[j] by {
        if o[i] == o[j] {
            if i < j {
                first_pass_order(o, cols, i, j);
            } else {
                first_pass_order(o, cols, j, i);
            }
        }
    }
    assert(o.no_duplicates());
    let u = reading_order(o);
    reading_order_is_permutation(o);
    o.lemma_multiset_has_no_duplicates();
    u.lemma_multiset_has_no_duplicates_conv();
    assert forall|k: int| 0 <= k < u.len() implies o.contains(#[trigger] u[k]) by {
        reading_order_items_from_input(o, k);
    }
    assert forall|j: int| 0 <= j < o.len() implies u.contains(#[trigger] o[j]) by {
        assert(o.contains(o[j]));
        assert(o.to_multiset().count(o[j]) > 0);
        assert(u.to_multiset().count(o[j]) > 0);
    }
    second_pass(o, u, cols, u.len() as int);
    assert(u.take(u.len() as int) =~= u);
}

} // verus!
