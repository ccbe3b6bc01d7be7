//! Breakpoint selection and proportional layout scaling (RGL-style).

use vstd::prelude::*;
use crate::engine::{at_least_one, max_i32, min_i32, scale_by, scale_round};
use crate::item::LayoutItem;

verus! {

/// Describes one responsive breakpoint (usually paired with CSS media queries).
#[derive(Debug, PartialEq)]
pub struct BreakpointSpec {
    pub name: String,
    /// Minimum container width in px for this breakpoint to apply.
    pub min_width_px: i32,
    pub cols: i32,
}

impl Clone for BreakpointSpec {
    fn clone(&self) -> (r: Self)
        ensures
            r == *self,
    {
        BreakpointSpec { name: self.name.clone(), min_width_px: self.min_width_px, cols: self.cols }
    }
}

/// Breakpoint `i` applies to a container `width` px wide.
pub open spec fn applies(bps: Seq<BreakpointSpec>, width: int, i: int) -> bool {
    0 <= i < bps.len() && width >= bps[i].min_width_px
}

/// Breakpoint `i` is the one to pick among `bps[0 .. k]`: it applies, no
/// applicable breakpoint has a larger minimum width, and every later applicable
/// one has a smaller minimum width (the last of the largest wins).
pub open spec fn best_among(bps: Seq<BreakpointSpec>, width: int, i: int, k: int) -> bool {
    &&& 0 <= i < k
    &&& applies(bps, width, i)
    &&& forall|j: int| 0 <= j < k && applies(bps, width, j) ==> bps[j].min_width_px <= bps[i].min_width_px
    &&& forall|j: int|
        i < j < k && applies(bps, width, j) ==> bps[j].min_width_px < bps[i].min_width_px
}

/// Pick the breakpoint with the largest `min_width_px` such that `container_width_px >= min_width_px`
/// (the last such one when several share that width); `None` when none applies.
/// `breakpoints` should be sorted by `min_width_px` ascending.
pub fn select_breakpoint(breakpoints: &[BreakpointSpec], container_width_px: i32) -> (r: Option<
    &BreakpointSpec,
>)
    ensures
        r is None <==> forall|i: int|
            0 <= i < breakpoints@.len() ==> !applies(breakpoints@, container_width_px as int, i),
        r matches Some(b) ==> exists|i: int|
            best_among(breakpoints@, container_width_px as int, i, breakpoints@.len() as int)
                && *b == breakpoints@[i],
{
    let n = breakpoints.len();
    let mut best: Option<usize> = None;
    let mut i: usize = 0;
    while i < n
        invariant
            n == breakpoints@.len(),
            i <= n,
            best is None <==> forall|j: int|
                0 <= j < i ==> !applies(breakpoints@, container_width_px as int, j),
            best matches Some(b) ==> best_among(
                breakpoints@,
                container_width_px as int,
                b as int,
                i as int,
            ),
        decreases n - i,
    {
        let take = match best {
            Some(b) => container_width_px >= breakpoints[i].min_width_px
                && breakpoints[i].min_width_px >= breakpoints[b].min_width_px,
            None => container_width_px >= breakpoints[i].min_width_px,
        };
        if take {
            best = Some(i);
        }
        proof {
            if best is Some {
                assert(applies(breakpoints@, container_width_px as int, best.unwrap() as int));
            }
        }
        i = i + 1;
    }
    match best {
        Some(b) => Some(&breakpoints[b]),
        None => None,
    }
}

/// The breakpoint index chosen among the first `k` minimum widths for a
/// container `width` px wide: start from the first one and move to each later
/// one that applies and whose minimum width is not below the current choice's.
pub open spec fn responsive_pick(min_widths: Seq<i32>, width: int, k: int) -> int
    decreases k,
{
    if k <= 1 {
        0
    } else {
        let b = responsive_pick(min_widths, width, k - 1);
        if width >= min_widths[k - 1] && min_widths[k - 1] >= min_widths[b] {
            k - 1
        } else {
            b
        }
    }
}

proof fn responsive_pick_in_range(min_widths: Seq<i32>, width: int, k: int)
    requires
        1 <= k,
    ensures
        0 <= responsive_pick(min_widths, width, k) < k,
    decreases k,
{
    if k > 1 {
        responsive_pick_in_range(min_widths, width, k - 1);
    }
}

/// The breakpoint a responsive grid follows for a container `width` px wide,
/// given the minimum widths of its breakpoints (there must be at least one).
pub fn responsive_breakpoint_index(min_widths: &[i32], width: i32) -> (r: usize)
    requires
        min_widths@.len() > 0,
    ensures
        r == responsive_pick(min_widths@, width as int, min_widths@.len() as int),
        r < min_widths@.len(),
{
    let n = min_widths.len();
    let mut best: usize = 0;
    let mut i: usize = 1;
    while i < n
        invariant
            n == min_widths@.len(),
            1 <= i <= n,
            best == responsive_pick(min_widths@, width as int, i as int),
            best < i,
        decreases n - i,
    {
        proof {
            responsive_pick_in_range(min_widths@, width as int, i as int);
        }
        if width >= min_widths[i] && min_widths[i] >= min_widths[best] {
            best = i;
        }
        i = i + 1;
    }
    best
}

/// `it` rescaled from `from` to `to` columns: `x` and `w` multiplied by
/// `to / from` and rounded (halves away from zero), the width kept at least 1
/// and `x` kept inside the new columns; `y` and `h` unchanged.
pub open spec fn scaled_item(it: LayoutItem, from: int, to: int) -> LayoutItem {
    let x0 = scale_round(it.x as int, to, from);
    let w = at_least_one(scale_round(it.w as int, to, from));
    let x1 = if x0 < 0 {
        0
    } else {
        x0
    };
    let room = if to - w < 0 {
        0
    } else {
        to - w
    };
    let x = if x1 > room {
        room
    } else {
        x1
    };
    LayoutItem { x: x as i32, w: w as i32, ..it }
}

/// Scale `x`/`w` when column count changes (React-Grid-Layout style).
/// `h`/`y` are left unchanged; run a [`crate::Compactor`] afterward if needed.
/// With a column count below 1, or no change, the items are returned as they are.
pub fn scale_layout_cols(items: &[LayoutItem], from_cols: i32, to_cols: i32) -> (out: Vec<LayoutItem>)
    ensures
        out@.len() == items@.len(),
        from_cols < 1 || to_cols < 1 || from_cols == to_cols ==> out@ == items@,
        !(from_cols < 1 || to_cols < 1 || from_cols == to_cols) ==> forall|k: int|
            0 <= k < items@.len() ==> #[trigger] out@[k] == scaled_item(
                items@[k],
                from_cols as int,
                to_cols as int,
            ),
{
    let unchanged = from_cols < 1 || to_cols < 1 || from_cols == to_cols;
    let n = items.len();
    let mut out: Vec<LayoutItem> = Vec::new();
    let mut i: usize = 0;
    while i < n
        invariant
            n == items@.len(),
            i <= n,
            out@.len() == i,
            unchanged == (from_cols < 1 || to_cols < 1 || from_cols == to_cols),
            unchanged ==> forall|k: int| 0 <= k < i ==> #[trigger] out@[k] == items@[k],
            !unchanged ==> forall|k: int|
                0 <= k < i ==> #[trigger] out@[k] == scaled_item(
                    items@[k],
                    from_cols as int,
                    to_cols as int,
                ),
        decreases n - i,
    {
        let mut it = items[i].clone();
        if !unchanged {
            let x = scale_by(it.x, to_cols as u32, from_cols as u32);
            let w = max_i32(scale_by(it.w, to_cols as u32, from_cols as u32), 1);
            it.w = w;
            it.x = min_i32(max_i32(x, 0), max_i32(to_cols - w, 0));
        }
        out.push(it);
        i = i + 1;
    }
    proof {
        if unchanged {
            assert(out@ =~= items@);
        }
    }
    out
}

/// Rescaling keeps every item's `x` not negative, and inside the new columns
/// when its new width fits them; rows and heights do not change.
pub proof fn scaled_item_fits(it: LayoutItem, from: int, to: int)
    requires
        from >= 1,
        to >= 1,
    ensures
        scaled_item(it, from, to).x >= 0,
        scaled_item(it, from, to).w >= 1,
        scaled_item(it, from, to).w <= to ==> scaled_item(it, from, to).x + scaled_item(
            it,
            from,
            to,
        ).w <= to,
        scaled_item(it, from, to).y == it.y,
        scaled_item(it, from, to).h == it.h,
{
}

/// Rounding `a * d / d` gives back `a` when `a` is not negative.
proof fn round_div_exact(a: int, d: int)
    requires
        a >= 0,
        d >= 1,
    ensures
        crate::engine::round_div(a * d, d) == a,
{
    assert(a * d >= 0) by (nonlinear_arith)
        requires
            a >= 0,
            d >= 1,
    ;
    assert(2 * (a * d) + d == a * (2 * d) + d) by (nonlinear_arith);
    vstd::arithmetic::div_mod::lemma_fundamental_div_mod_converse(2 * (a * d) + d, 2 * d, a, d);
}

/// Scaling an item that lies inside `to` columns up to `to * k` columns and
/// back down to `to` gives the item back: its column and width are multiplied
/// by `k` exactly, then divided by `k` exactly.
pub proof fn scaling_up_and_back_restores(it: LayoutItem, to: int, k: int)
    requires
        to >= 1,
        k >= 1,
        to * k <= i32::MAX,
        0 <= it.x,
        1 <= it.w,
        it.x + it.w <= to,
    ensures
        scaled_item(it, to, to * k).x == it.x * k,
        scaled_item(it, to, to * k).w == it.w * k,
        scaled_item(scaled_item(it, to, to * k), to * k, to) == it,
{
    let from = to * k;
    assert(it.x * k + it.w * k <= from && it.x * k >= 0 && it.w * k >= k) by (nonlinear_arith)
        requires
            0 <= it.x,
            1 <= it.w,
            it.x + it.w <= to,
            k >= 1,
            from == to * k,
    ;
    assert(it.x * from == (it.x * k) * to && it.w * from == (it.w * k) * to) by (nonlinear_arith)
        requires
            from == to * k,
    ;
    round_div_exact(it.x * k, to);
    round_div_exact(it.w * k, to);
    let up = scaled_item(it, to, from);
    assert(up.x == it.x * k && up.w == it.w * k);
    assert((it.x * k) * to == it.x * from && (it.w * k) * to == it.w * from) by (nonlinear_arith)
        requires
            from == to * k,
    ;
    assert(up.x * to == it.x * from && up.w * to == it.w * from) by (nonlinear_arith)
        requires
            up.x == it.x * k,
            up.w == it.w * k,
            from == to * k,
    ;
    round_div_exact(it.x as int, from);
    round_div_exact(it.w as int, from);
    assert(scaled_item(up, from, to) == it);
}

} // verus!
