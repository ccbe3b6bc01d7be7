//! The layout engine: moving and resizing an item, then resolving the overlaps
//! and compacting the layout.

use vstd::prelude::*;
use crate::collision::{CollisionResolver, CollisionStrategy, PushDownResolver};
use crate::compact::{CompactionType, Compactor, at_row, compaction_keeps_items};
use crate::collision::strategy_changes_only_rows;
use crate::ids::{index_of_id, position_of_id};
use crate::item::{AspectRatio, LayoutItem, ResizeHandle, aspect_prefers_width, prefers_width};

verus! {

// ---------------------------------------------------------------------------
// Size arithmetic
// ---------------------------------------------------------------------------

/// `v`, but at least 1.
pub open spec fn at_least_one(v: int) -> int {
    if v < 1 {
        1
    } else {
        v
    }
}

/// `v` raised to the optional minimum, then lowered to the optional maximum.
pub open spec fn clamp_opt(v: int, lo: Option<i32>, hi: Option<i32>) -> int {
    let a = match lo {
        Some(m) => if v < m {
            m as int
        } else {
            v
        },
        None => v,
    };
    match hi {
        Some(m) => if a > m {
            m as int
        } else {
            a
        },
        None => a,
    }
}

/// `n / d` rounded to the nearest integer, halves away from zero (`d > 0`).
pub open spec fn round_div(n: int, d: int) -> int {
    if n >= 0 {
        (2 * n + d) / (2 * d)
    } else {
        -((-2 * n + d) / (2 * d))
    }
}

/// `v` limited to the `i32` range.
pub open spec fn saturate(v: int) -> int {
    if v > i32::MAX {
        i32::MAX as int
    } else if v < i32::MIN {
        i32::MIN as int
    } else {
        v
    }
}

/// `v * num / den`, rounded and limited to the `i32` range.
pub open spec fn scale_round(v: int, num: int, den: int) -> int {
    saturate(round_div(v * num, den))
}

pub(crate) fn scale_by(v: i32, num: u32, den: u32) -> (r: i32)
    requires
        den > 0,
    ensures
        r == scale_round(v as int, num as int, den as int),
{
    assert(-0x8000_0000_0000_0000 <= (v as int) * (num as int) <= 0x8000_0000_0000_0000) by (nonlinear_arith)
        requires
            -0x8000_0000 <= v <= 0x7fff_ffff,
            0 <= num <= 0xffff_ffff,
    ;
    let n: i128 = (v as i128) * (num as i128);
    assert(-0x8000_0000_0000_0000 <= n <= 0x8000_0000_0000_0000);
    let d: i128 = den as i128;
    let q: i128 = if n >= 0 {
        (2 * n + d) / (2 * d)
    } else {
        -((-2 * n + d) / (2 * d))
    };
    if q > i32::MAX as i128 {
        i32::MAX
    } else if q < i32::MIN as i128 {
        i32::MIN
    } else {
        q as i32
    }
}

// ---------------------------------------------------------------------------
// Aspect ratio
// ---------------------------------------------------------------------------

/// Whether a resize from `handle` derives the height from the width; with no
/// handle it does.
pub open spec fn prefer_width_for(handle: Option<ResizeHandle>) -> bool {
    match handle {
        Some(h) => prefers_width(h),
        None => true,
    }
}

/// One round of fitting `(w, h)` to the ratio `ar`: derive one side from the
/// other, apply the item's bounds, then derive the other side back.
pub open spec fn aspect_step(w: int, h: int, item: LayoutItem, ar: AspectRatio, prefer_width: bool) -> (
    int,
    int,
) {
    let (w1, h1) = if prefer_width {
        (w, scale_round(w, ar.height as int, ar.width as int))
    } else {
        (scale_round(h, ar.width as int, ar.height as int), h)
    };
    let h2 = clamp_opt(at_least_one(h1), item.min_h, item.max_h);
    let w2 = clamp_opt(at_least_one(w1), item.min_w, item.max_w);
    let (w3, h3) = if prefer_width {
        (scale_round(h2, ar.width as int, ar.height as int), h2)
    } else {
        (w2, scale_round(w2, ar.height as int, ar.width as int))
    };
    (at_least_one(w3), at_least_one(h3))
}

/// `n` rounds of [`aspect_step`] from `(w, h)`.
pub open spec fn aspect_rounds(
    w: int,
    h: int,
    item: LayoutItem,
    ar: AspectRatio,
    prefer_width: bool,
    n: nat,
) -> (int, int)
    decreases n,
{
    if n == 0 {
        (w, h)
    } else {
        let prev = aspect_rounds(w, h, item, ar, prefer_width, (n - 1) as nat);
        aspect_step(prev.0, prev.1, item, ar, prefer_width)
    }
}

/// The size of `item` after fitting it to its aspect ratio, if it has a usable
/// one, and to its bounds: without a usable ratio each side is raised to at
/// least 1 and then to its optional minimum and lowered to its optional maximum.
pub open spec fn aspect_size(item: LayoutItem, handle: Option<ResizeHandle>) -> (int, int) {
    let w0 = at_least_one(item.w as int);
    let h0 = at_least_one(item.h as int);
    let bounded = (clamp_opt(w0, item.min_w, item.max_w), clamp_opt(h0, item.min_h, item.max_h));
    match item.aspect_ratio {
        Some(ar) => if ar.width > 0 && ar.height > 0 {
            aspect_rounds(w0, h0, item, ar, prefer_width_for(handle), 6)
        } else {
            bounded
        },
        None => bounded,
    }
}

/// `item` fitted to its aspect ratio and bounds, and placed inside `cols` columns.
pub open spec fn aspect_clamped(item: LayoutItem, cols: int, handle: Option<ResizeHandle>) -> LayoutItem {
    let size = aspect_size(item, handle);
    let w = at_least_one(if size.0 < cols {
        size.0
    } else {
        cols
    });
    let h = at_least_one(size.1);
    let x0 = if item.x < 0 {
        0
    } else {
        item.x as int
    };
    let room = if cols - w < 0 {
        0
    } else {
        cols - w
    };
    let x = if x0 < room {
        x0
    } else {
        room
    };
    let y = if item.y < 0 {
        0
    } else {
        item.y as int
    };
    LayoutItem { w: w as i32, h: h as i32, x: x as i32, y: y as i32, ..item }
}

pub(crate) fn max_i32(a: i32, b: i32) -> (r: i32)
    ensures
        r == (if a < b {
            b
        } else {
            a
        }),
{
    if a < b {
        b
    } else {
        a
    }
}

pub(crate) fn min_i32(a: i32, b: i32) -> (r: i32)
    ensures
        r == (if a > b {
            b
        } else {
            a
        }),
{
    if a > b {
        b
    } else {
        a
    }
}

pub(crate) fn clamp_by(v: i32, lo: Option<i32>, hi: Option<i32>) -> (r: i32)
    ensures
        r == clamp_opt(v as int, lo, hi),
{
    let mut r = v;
    if let Some(m) = lo {
        r = max_i32(r, m);
    }
    if let Some(m) = hi {
        r = min_i32(r, m);
    }
    r
}

/// Applies `aspect_ratio` (width : height) plus min/max; re-clamps `x`/`w` to `cols`.
pub fn apply_aspect_and_clamp(item: &mut LayoutItem, cols: i32, handle: Option<ResizeHandle>)
    requires
        cols > i32::MIN,
    ensures
        *final(item) == aspect_clamped(*old(item), cols as int, handle),
{
    let mut w = max_i32(item.w, 1);
    let mut h = max_i32(item.h, 1);
    if let Some(ar) = item.aspect_ratio {
        if ar.width > 0 && ar.height > 0 {
            let prefer_width = match handle {
                Some(hd) => aspect_prefers_width(hd),
                None => true,
            };
            let mut round: usize = 0;
            while round < 6
                invariant
                    round <= 6,
                    ar.width > 0 && ar.height > 0,
                    prefer_width == prefer_width_for(handle),
                    (w as int, h as int) == aspect_rounds(
                        at_least_one(old(item).w as int),
                        at_least_one(old(item).h as int),
                        *old(item),
                        ar,
                        prefer_width,
                        round as nat,
                    ),
                    *item == *old(item),
                decreases 6 - round,
            {
                if prefer_width {
                    h = scale_by(w, ar.height, ar.width);
                } else {
                    w = scale_by(h, ar.width, ar.height);
                }
                h = max_i32(h, 1);
                w = max_i32(w, 1);
                h = clamp_by(h, item.min_h, item.max_h);
                w = clamp_by(w, item.min_w, item.max_w);
                if prefer_width {
                    w = scale_by(h, ar.width, ar.height);
                } else {
                    h = scale_by(w, ar.height, ar.width);
                }
                w = max_i32(w, 1);
                h = max_i32(h, 1);
                round = round + 1;
            }
        } else {
            w = clamp_by(w, item.min_w, item.max_w);
            h = clamp_by(h, item.min_h, item.max_h);
        }
    } else {
        w = clamp_by(w, item.min_w, item.max_w);
        h = clamp_by(h, item.min_h, item.max_h);
    }
    item.w = max_i32(min_i32(w, cols), 1);
    item.h = max_i32(h, 1);
    item.x = min_i32(max_i32(item.x, 0), max_i32(cols - item.w, 0));
    item.y = max_i32(item.y, 0);
}

// ---------------------------------------------------------------------------
// The engine
// ---------------------------------------------------------------------------

/// The main orchestration point for grid operations.
pub struct LayoutEngine<C, R> {
    /// The compaction strategy to use.
    pub compactor: C,
    /// Displacement policy after overlaps.
    pub collision: R,
    /// The number of columns in the grid.
    pub cols: i32,
}

/// `item` dragged to `(x, y)`: kept inside the columns and at a row not above 0.
pub open spec fn dragged_to(item: LayoutItem, cols: int, x: int, y: int) -> LayoutItem {
    let x0 = if x < 0 {
        0
    } else {
        x
    };
    let nx = if x0 > cols - item.w {
        cols - item.w
    } else {
        x0
    };
    let ny = if y < 0 {
        0
    } else {
        y
    };
    LayoutItem { x: nx as i32, y: ny as i32, ..item }
}

/// `item` resized to the requested rectangle: the bounds applied to the size,
/// the position kept inside the columns, then [`aspect_clamped`].
pub open spec fn resized_to(
    item: LayoutItem,
    cols: int,
    x: int,
    y: int,
    w: int,
    h: int,
    handle: Option<ResizeHandle>,
) -> LayoutItem {
    let fw = clamp_opt(w, item.min_w, item.max_w);
    let fh = clamp_opt(h, item.min_h, item.max_h);
    let x0 = if x < 0 {
        0
    } else {
        x
    };
    let fx = if x0 > cols - fw {
        cols - fw
    } else {
        x0
    };
    let fy = if y < 0 {
        0
    } else {
        y
    };
    let sized = LayoutItem {
        x: fx as i32,
        y: fy as i32,
        w: at_least_one(fw) as i32,
        h: at_least_one(fh) as i32,
        ..item
    };
    aspect_clamped(sized, cols, handle)
}

impl<C: Compactor, R: CollisionResolver> LayoutEngine<C, R> {
    pub fn new(compactor: C, collision: R, cols: i32) -> (e: Self)
        ensures
            e.compactor == compactor,
            e.collision == collision,
            e.cols == cols,
    {
        LayoutEngine { compactor, collision, cols }
    }

    /// Overlaps of the item `id` resolved, then the layout compacted.
    pub open spec fn settled(&self, layout: Seq<LayoutItem>, id: Seq<char>) -> Seq<LayoutItem> {
        self.compactor.compaction(self.collision.resolution(layout, id), self.cols as int)
    }

    /// Both resolution and compaction accept what they are given.
    pub open spec fn settles(&self, layout: Seq<LayoutItem>, id: Seq<char>) -> bool {
        &&& self.collision.accepts(layout, id)
        &&& self.compactor.accepts(self.collision.resolution(layout, id), self.cols as int)
    }

    pub fn compact(&self, layout: &mut Vec<LayoutItem>)
        requires
            self.compactor.accepts(old(layout)@, self.cols as int),
        ensures
            final(layout)@ == self.compactor.compaction(old(layout)@, self.cols as int),
    {
        self.compactor.compact(layout, self.cols);
    }

    /// The layout with the item `id` dragged to `(x, y)` (before resolution),
    /// when that item exists and may be dragged.
    pub open spec fn drag_placed(&self, layout: Seq<LayoutItem>, id: Seq<char>, x: int, y: int) -> Seq<
        LayoutItem,
    > {
        let i = index_of_id(layout, id);
        layout.update(i, dragged_to(layout[i], self.cols as int, x, y))
    }

    /// The item `id` exists and may be dragged.
    pub open spec fn drag_applies(&self, layout: Seq<LayoutItem>, id: Seq<char>) -> bool {
        index_of_id(layout, id) >= 0 && layout[index_of_id(layout, id)].draggable()
    }

    /// The layout that [`Self::move_element`] produces.
    pub open spec fn moved(&self, layout: Seq<LayoutItem>, id: Seq<char>, x: int, y: int) -> Seq<
        LayoutItem,
    > {
        if self.drag_applies(layout, id) {
            self.settled(self.drag_placed(layout, id, x, y), id)
        } else {
            layout
        }
    }

    /// [`Self::move_element`] finishes: the column limit `cols - w` fits in an
    /// `i32`, and resolution and compaction accept the dragged layout.
    pub open spec fn move_accepts(&self, layout: Seq<LayoutItem>, id: Seq<char>, x: int, y: int) -> bool {
        self.drag_applies(layout, id) ==> {
            &&& i32::MIN <= self.cols - layout[index_of_id(layout, id)].w <= i32::MAX
            &&& self.settles(self.drag_placed(layout, id, x, y), id)
        }
    }

    pub fn move_element(&self, layout: &mut Vec<LayoutItem>, id: &str, x: i32, y: i32)
        requires
            self.move_accepts(old(layout)@, id@, x as int, y as int),
        ensures
            final(layout)@ == self.moved(old(layout)@, id@, x as int, y as int),
    {
        if let Some(index) = position_of_id(layout, id) {
            let mut item = layout[index].clone();
            if !item.can_drag() {
                return ;
            }
            item.x = min_i32(max_i32(x, 0), self.cols - item.w);
            item.y = max_i32(y, 0);
            layout.set(index, item);
            self.collision.resolve_collisions(layout, id);
            self.compact(layout);
        }
    }

    /// The layout with the item `id` resized (before resolution), when that item
    /// exists and may be resized.
    pub open spec fn resize_placed(
        &self,
        layout: Seq<LayoutItem>,
        id: Seq<char>,
        x: int,
        y: int,
        w: int,
        h: int,
        handle: Option<ResizeHandle>,
    ) -> Seq<LayoutItem> {
        let i = index_of_id(layout, id);
        layout.update(i, resized_to(layout[i], self.cols as int, x, y, w, h, handle))
    }

    /// The item `id` exists and may be resized.
    pub open spec fn resize_applies(&self, layout: Seq<LayoutItem>, id: Seq<char>) -> bool {
        index_of_id(layout, id) >= 0 && layout[index_of_id(layout, id)].resizable()
    }

    /// The layout that [`Self::resize_element`] produces.
    pub open spec fn resized(
        &self,
        layout: Seq<LayoutItem>,
        id: Seq<char>,
        x: int,
        y: int,
        w: int,
        h: int,
        handle: Option<ResizeHandle>,
    ) -> Seq<LayoutItem> {
        if self.resize_applies(layout, id) {
            self.settled(self.resize_placed(layout, id, x, y, w, h, handle), id)
        } else {
            layout
        }
    }

    /// [`Self::resize_element`] finishes: `cols` minus the bounded width fits in
    /// an `i32`, `cols` is above `i32::MIN`, and resolution and compaction accept
    /// the resized layout.
    pub open spec fn resize_accepts(
        &self,
        layout: Seq<LayoutItem>,
        id: Seq<char>,
        x: int,
        y: int,
        w: int,
        h: int,
        handle: Option<ResizeHandle>,
    ) -> bool {
        let item = layout[index_of_id(layout, id)];
        self.resize_applies(layout, id) ==> {
            &&& i32::MIN <= self.cols - clamp_opt(w, item.min_w, item.max_w) <= i32::MAX
            &&& self.cols > i32::MIN
            &&& self.settles(self.resize_placed(layout, id, x, y, w, h, handle), id)
        }
    }

    pub fn resize_element(
        &self,
        layout: &mut Vec<LayoutItem>,
        id: &str,
        x: i32,
        y: i32,
        w: i32,
        h: i32,
        handle: Option<ResizeHandle>,
    )
        requires
            self.resize_accepts(old(layout)@, id@, x as int, y as int, w as int, h as int, handle),
        ensures
            final(layout)@ == self.resized(
                old(layout)@,
                id@,
                x as int,
                y as int,
                w as int,
                h as int,
                handle,
            ),
    {
        if let Some(index) = position_of_id(layout, id) {
            let mut item = layout[index].clone();
            if !item.can_resize() {
                return ;
            }
            let final_w = clamp_by(w, item.min_w, item.max_w);
            let final_h = clamp_by(h, item.min_h, item.max_h);
            let final_x = min_i32(max_i32(x, 0), self.cols - final_w);
            let final_y = max_i32(y, 0);
            item.x = final_x;
            item.y = final_y;
            item.w = max_i32(final_w, 1);
            item.h = max_i32(final_h, 1);
            apply_aspect_and_clamp(&mut item, self.cols, handle);
            layout.set(index, item);
            self.collision.resolve_collisions(layout, id);
            self.compact(layout);
        }
    }
}

impl<C: Compactor, R: CollisionResolver> LayoutEngine<C, R> {
    /// The tests [`Self::try_move_element`] makes: when the move applies, the
    /// column limit fits in an `i32`, resolution surely accepts the dragged
    /// layout, and compaction accepts its resolution.
    pub open spec fn move_checks(&self, layout: Seq<LayoutItem>, id: Seq<char>, x: int, y: int) -> bool {
        self.drag_applies(layout, id) ==> {
            &&& i32::MIN <= self.cols - layout[index_of_id(layout, id)].w <= i32::MAX
            &&& self.collision.surely_accepts(self.drag_placed(layout, id, x, y), id)
            &&& self.compactor.accepts(
                self.collision.resolution(self.drag_placed(layout, id, x, y), id),
                self.cols as int,
            )
        }
    }

    /// [`Self::move_element`] after testing that it finishes: when
    /// [`Self::move_checks`] holds, the layout is moved and `true` returned;
    /// otherwise the layout is left as it is and `false` returned.
    pub fn try_move_element(&self, layout: &mut Vec<LayoutItem>, id: &str, x: i32, y: i32) -> (ok:
        bool)
        ensures
            ok == self.move_checks(old(layout)@, id@, x as int, y as int),
            ok ==> final(layout)@ == self.moved(old(layout)@, id@, x as int, y as int),
            !ok ==> final(layout)@ == old(layout)@,
    {
        if let Some(index) = position_of_id(layout, id) {
            let mut item = layout[index].clone();
            if !item.can_drag() {
                return true;
            }
            let room: i64 = self.cols as i64 - item.w as i64;
            if room < i32::MIN as i64 || room > i32::MAX as i64 {
                return false;
            }
            item.x = min_i32(max_i32(x, 0), self.cols - item.w);
            item.y = max_i32(y, 0);
            let mut staged = crate::grid::copy_layout(layout);
            staged.set(index, item);
            if !self.collision.can_resolve(&staged, id) {
                return false;
            }
            self.collision.resolve_collisions(&mut staged, id);
            if !self.compactor.accepts_layout(&staged, self.cols) {
                return false;
            }
            self.compactor.compact(&mut staged, self.cols);
            *layout = staged;
            true
        } else {
            true
        }
    }

    /// The tests [`Self::try_resize_element`] makes: when the resize applies,
    /// `cols` minus the bounded width fits in an `i32`, `cols` is above
    /// `i32::MIN`, resolution surely accepts the resized layout, and compaction
    /// accepts its resolution.
    pub open spec fn resize_checks(
        &self,
        layout: Seq<LayoutItem>,
        id: Seq<char>,
        x: int,
        y: int,
        w: int,
        h: int,
        handle: Option<ResizeHandle>,
    ) -> bool {
        let item = layout[index_of_id(layout, id)];
        self.resize_applies(layout, id) ==> {
            &&& i32::MIN <= self.cols - clamp_opt(w, item.min_w, item.max_w) <= i32::MAX
            &&& self.cols > i32::MIN
            &&& self.collision.surely_accepts(self.resize_placed(layout, id, x, y, w, h, handle), id)
            &&& self.compactor.accepts(
                self.collision.resolution(self.resize_placed(layout, id, x, y, w, h, handle), id),
                self.cols as int,
            )
        }
    }

    /// [`Self::resize_element`] after testing that it finishes: when
    /// [`Self::resize_checks`] holds, the layout is resized and `true`
    /// returned; otherwise the layout is left as it is and `false` returned.
    pub fn try_resize_element(
        &self,
        layout: &mut Vec<LayoutItem>,
        id: &str,
        x: i32,
        y: i32,
        w: i32,
        h: i32,
        handle: Option<ResizeHandle>,
    ) -> (ok: bool)
        ensures
            ok == self.resize_checks(
                old(layout)@,
                id@,
                x as int,
                y as int,
                w as int,
                h as int,
                handle,
            ),
            ok ==> final(layout)@ == self.resized(
                old(layout)@,
                id@,
                x as int,
                y as int,
                w as int,
                h as int,
                handle,
            ),
            !ok ==> final(layout)@ == old(layout)@,
    {
        if let Some(index) = position_of_id(layout, id) {
            let mut item = layout[index].clone();
            if !item.can_resize() {
                return true;
            }
            let final_w = clamp_by(w, item.min_w, item.max_w);
            let final_h = clamp_by(h, item.min_h, item.max_h);
            let room: i64 = self.cols as i64 - final_w as i64;
            if room < i32::MIN as i64 || room > i32::MAX as i64 || self.cols == i32::MIN {
                return false;
            }
            let final_x = min_i32(max_i32(x, 0), self.cols - final_w);
            let final_y = max_i32(y, 0);
            item.x = final_x;
            item.y = final_y;
            item.w = max_i32(final_w, 1);
            item.h = max_i32(final_h, 1);
            apply_aspect_and_clamp(&mut item, self.cols, handle);
            let mut staged = crate::grid::copy_layout(layout);
            staged.set(index, item);
            if !self.collision.can_resolve(&staged, id) {
                return false;
            }
            self.collision.resolve_collisions(&mut staged, id);
            if !self.compactor.accepts_layout(&staged, self.cols) {
                return false;
            }
            self.compactor.compact(&mut staged, self.cols);
            *layout = staged;
            true
        } else {
            true
        }
    }
}

impl<C: Compactor> LayoutEngine<C, PushDownResolver> {
    /// An engine that pushes overlapped items down.
    pub fn with_default_collision(compactor: C, cols: i32) -> (e: Self)
        ensures
            e.compactor == compactor,
            e.collision == PushDownResolver,
            e.cols == cols,
    {
        LayoutEngine::new(compactor, PushDownResolver, cols)
    }
}

/// Build an engine from compaction + collision strategy (common in interaction code).
pub fn layout_engine(compaction: CompactionType, collision: CollisionStrategy, cols: i32) -> (e:
    LayoutEngine<CompactionType, CollisionStrategy>)
    ensures
        e.compactor == compaction,
        e.collision == collision,
        e.cols == cols,
{
    LayoutEngine::new(compaction, collision, cols)
}

/// `item` made to fit `cols` columns: a movable item's width is lowered to at
/// most `cols` and its column kept between 0 and `cols - w`; a static item is
/// left as it is.
pub open spec fn fitted_to_columns(item: LayoutItem, cols: int) -> LayoutItem {
    if item.is_static {
        item
    } else {
        let w = if item.w < cols {
            item.w as int
        } else {
            cols
        };
        let x0 = if item.x < 0 {
            0
        } else {
            item.x as int
        };
        let x = if x0 > cols - w {
            cols - w
        } else {
            x0
        };
        LayoutItem { x: x as i32, w: w as i32, ..item }
    }
}

/// Every item of `layout` made to fit `cols` columns.
pub open spec fn fitted_layout(layout: Seq<LayoutItem>, cols: int) -> Seq<LayoutItem> {
    Seq::new(layout.len(), |k: int| fitted_to_columns(layout[k], cols))
}

/// Fitting `item` stays within `i32`: `cols` minus its lowered width fits.
pub open spec fn fit_fits(item: LayoutItem, cols: int) -> bool {
    item.is_static || cols - (if item.w < cols {
        item.w as int
    } else {
        cols
    }) <= i32::MAX
}

/// Ensures no movable item is wider than the grid or outside its columns.
pub fn fit_to_columns(layout: &mut Vec<LayoutItem>, cols: i32)
    requires
        forall|k: int| 0 <= k < old(layout)@.len() ==> fit_fits(#[trigger] old(layout)@[k], cols as int),
    ensures
        final(layout)@ == fitted_layout(old(layout)@, cols as int),
{
    let ghost start = layout@;
    let n = layout.len();
    let mut i: usize = 0;
    while i < n
        invariant
            n == layout@.len(),
            n == start.len(),
            i <= n,
            forall|k: int| 0 <= k < n ==> fit_fits(#[trigger] start[k], cols as int),
            forall|k: int| 0 <= k < i ==> #[trigger] layout@[k] == fitted_to_columns(start[k], cols as int),
            forall|k: int| i <= k < n ==> #[trigger] layout@[k] == start[k],
        decreases n - i,
    {
        let mut item = layout[i].clone();
        assert(item == start[i as int]);
        if !item.is_static {
            item.w = min_i32(item.w, cols);
            item.x = min_i32(max_i32(item.x, 0), cols - item.w);
        }
        layout.set(i, item);
        i = i + 1;
    }
    assert(layout@ =~= fitted_layout(start, cols as int));
}

/// Fits every movable item to the columns, then compacts the layout, as the
/// grid does after its layout or column count changes.
pub fn fit_and_compact(layout: &mut Vec<LayoutItem>, cols: i32, compaction: CompactionType)
    requires
        forall|k: int| 0 <= k < old(layout)@.len() ==> fit_fits(#[trigger] old(layout)@[k], cols as int),
        compaction.accepts(fitted_layout(old(layout)@, cols as int), cols as int),
    ensures
        final(layout)@ == compaction.compaction(fitted_layout(old(layout)@, cols as int), cols as int),
{
    fit_to_columns(layout, cols);
    compaction.compact(layout, cols);
}

/// Moves the item `item_id` by `(dx, dy)` cells, as the arrow keys do, with
/// push-down resolution and the given compaction. Nothing happens when the item
/// is missing or may not be dragged.
pub fn keyboard_cell_nudge(
    layout: &mut Vec<LayoutItem>,
    cols: i32,
    compaction: CompactionType,
    item_id: &str,
    dx: i32,
    dy: i32,
)
    requires
        ({
            let engine = LayoutEngine { compactor: compaction, collision: PushDownResolver, cols };
            let i = index_of_id(old(layout)@, item_id@);
            engine.drag_applies(old(layout)@, item_id@) ==> {
                &&& i32::MIN <= old(layout)@[i].x + dx <= i32::MAX
                &&& i32::MIN <= old(layout)@[i].y + dy <= i32::MAX
                &&& engine.move_accepts(
                    old(layout)@,
                    item_id@,
                    old(layout)@[i].x + dx,
                    old(layout)@[i].y + dy,
                )
            }
        }),
    ensures
        ({
            let engine = LayoutEngine { compactor: compaction, collision: PushDownResolver, cols };
            let i = index_of_id(old(layout)@, item_id@);
            final(layout)@ == engine.moved(
                old(layout)@,
                item_id@,
                old(layout)@[i].x + dx,
                old(layout)@[i].y + dy,
            )
        }),
{
    let (nx, ny) = match position_of_id(layout, item_id) {
        Some(i) => {
            if !layout[i].can_drag() {
                return ;
            }
            (layout[i].x + dx, layout[i].y + dy)
        },
        None => {
            return ;
        },
    };
    let engine = LayoutEngine::with_default_collision(compaction, cols);
    engine.move_element(layout, item_id, nx, ny);
}

// ---------------------------------------------------------------------------
// Laws
// ---------------------------------------------------------------------------

proof fn aspect_rounds_in_range(w: int, h: int, item: LayoutItem, ar: AspectRatio, prefer_width: bool, n: nat)
    requires
        1 <= w <= i32::MAX,
        1 <= h <= i32::MAX,
    ensures
        1 <= aspect_rounds(w, h, item, ar, prefer_width, n).0 <= i32::MAX,
        1 <= aspect_rounds(w, h, item, ar, prefer_width, n).1 <= i32::MAX,
    decreases n,
{
    if n > 0 {
        aspect_rounds_in_range(w, h, item, ar, prefer_width, (n - 1) as nat);
    }
}

/// After [`apply_aspect_and_clamp`] the item is at least one cell in each
/// direction, at a position that is not negative, and, on a grid of at least
/// one column, inside the columns.
pub proof fn aspect_clamped_in_grid(item: LayoutItem, cols: int, handle: Option<ResizeHandle>)
    requires
        i32::MIN < cols <= i32::MAX,
    ensures
        aspect_clamped(item, cols, handle).w >= 1,
        aspect_clamped(item, cols, handle).h >= 1,
        aspect_clamped(item, cols, handle).x >= 0,
        aspect_clamped(item, cols, handle).y >= 0,
        cols >= 1 ==> aspect_clamped(item, cols, handle).x + aspect_clamped(item, cols, handle).w
            <= cols,
{
    let w0 = at_least_one(item.w as int);
    let h0 = at_least_one(item.h as int);
    match item.aspect_ratio {
        Some(ar) => {
            aspect_rounds_in_range(w0, h0, item, ar, prefer_width_for(handle), 6);
        },
        None => {},
    }
}

/// After a move with built-in strategies, the dragged item is in the layout at
/// the requested cell kept inside the columns (`x` at most `cols - w`, and not
/// negative when the item fits the grid); only its row may have changed since,
/// through resolution and compaction.
pub proof fn move_places_item(
    engine: LayoutEngine<CompactionType, CollisionStrategy>,
    layout: Seq<LayoutItem>,
    id: Seq<char>,
    x: int,
    y: int,
)
    requires
        engine.move_accepts(layout, id, x, y),
        engine.drag_applies(layout, id),
        i32::MIN <= x <= i32::MAX,
    ensures
        ({
            let d = dragged_to(layout[index_of_id(layout, id)], engine.cols as int, x, y);
            let out = engine.moved(layout, id, x, y);
            &&& exists|k: int| 0 <= k < out.len() && #[trigger] out[k] == at_row(d, out[k].y as int)
            &&& d.x <= engine.cols - d.w
            &&& d.w <= engine.cols ==> d.x >= 0
        }),
{
    let i = index_of_id(layout, id);
    crate::ids::index_of_id_meaning(layout, id);
    let d = dragged_to(layout[i], engine.cols as int, x, y);
    let placed = engine.drag_placed(layout, id, x, y);
    let resolved = engine.collision.resolution(placed, id);
    strategy_changes_only_rows(engine.collision, placed, id);
    compaction_keeps_items(engine.compactor, resolved, engine.cols as int);
    let out = engine.moved(layout, id, x, y);
    assert(resolved[i] == at_row(d, resolved[i].y as int));
    let k = choose|k: int| 0 <= k < resolved.len() && #[trigger] out[k] == at_row(resolved[i], out[k].y as int);
    assert(out[k] == at_row(d, out[k].y as int));
}

/// After a resize with built-in strategies, the resized item is in the layout
/// with its new size and column (see [`aspect_clamped_in_grid`]); only its row
/// may have changed since, through resolution and compaction.
pub proof fn resize_places_item(
    engine: LayoutEngine<CompactionType, CollisionStrategy>,
    layout: Seq<LayoutItem>,
    id: Seq<char>,
    x: int,
    y: int,
    w: int,
    h: int,
    handle: Option<ResizeHandle>,
)
    requires
        engine.resize_accepts(layout, id, x, y, w, h, handle),
        engine.resize_applies(layout, id),
    ensures
        ({
            let r = resized_to(layout[index_of_id(layout, id)], engine.cols as int, x, y, w, h, handle);
            let out = engine.resized(layout, id, x, y, w, h, handle);
            exists|k: int| 0 <= k < out.len() && #[trigger] out[k] == at_row(r, out[k].y as int)
        }),
{
    let i = index_of_id(layout, id);
    crate::ids::index_of_id_meaning(layout, id);
    let r = resized_to(layout[i], engine.cols as int, x, y, w, h, handle);
    let placed = engine.resize_placed(layout, id, x, y, w, h, handle);
    let resolved = engine.collision.resolution(placed, id);
    strategy_changes_only_rows(engine.collision, placed, id);
    compaction_keeps_items(engine.compactor, resolved, engine.cols as int);
    let out = engine.resized(layout, id, x, y, w, h, handle);
    assert(resolved[i] == at_row(r, resolved[i].y as int));
    let k = choose|k: int| 0 <= k < resolved.len() && #[trigger] out[k] == at_row(resolved[i], out[k].y as int);
    assert(out[k] == at_row(r, out[k].y as int));
}

/// `v` lies within the optional bounds `lo ..= hi`.
pub open spec fn within_bounds(v: int, lo: Option<i32>, hi: Option<i32>) -> bool {
    &&& (lo matches Some(m) ==> m <= v)
    &&& (hi matches Some(m) ==> v <= m)
}

/// Each maximum is at least 1 and each minimum at most its maximum.
pub open spec fn size_bounds_consistent(item: LayoutItem) -> bool {
    &&& (item.max_w matches Some(m) ==> m >= 1)
    &&& (item.max_h matches Some(m) ==> m >= 1)
    &&& (item.min_w matches Some(a) ==> (item.max_w matches Some(b) ==> a <= b))
    &&& (item.min_h matches Some(a) ==> (item.max_h matches Some(b) ==> a <= b))
}

/// `item` has an aspect ratio with no zero part.
pub open spec fn has_usable_ratio(item: LayoutItem) -> bool {
    item.aspect_ratio matches Some(ar) && ar.width > 0 && ar.height > 0
}

/// A value raised to 1 and clamped into consistent bounds whose maximum is at
/// least 1 lies within them and is at least 1.
proof fn clamped_within(v: int, lo: Option<i32>, hi: Option<i32>)
    requires
        hi matches Some(m) ==> m >= 1,
        lo matches Some(a) ==> (hi matches Some(b) ==> a <= b),
    ensures
        within_bounds(clamp_opt(at_least_one(v), lo, hi), lo, hi),
        clamp_opt(at_least_one(v), lo, hi) >= 1,
{
}

/// One round of fitting to a ratio ends with the side it keeps within that
/// side's bounds: the height when it derives the width from the height last,
/// the width otherwise.
proof fn aspect_step_keeps_bounds(
    w: int,
    h: int,
    item: LayoutItem,
    ar: AspectRatio,
    prefer_width: bool,
)
    requires
        size_bounds_consistent(item),
    ensures
        prefer_width ==> within_bounds(aspect_step(w, h, item, ar, prefer_width).1, item.min_h, item.max_h),
        !prefer_width ==> within_bounds(aspect_step(w, h, item, ar, prefer_width).0, item.min_w, item.max_w),
        aspect_step(w, h, item, ar, prefer_width).0 >= 1,
        aspect_step(w, h, item, ar, prefer_width).1 >= 1,
{
    let (w1, h1) = if prefer_width {
        (w, scale_round(w, ar.height as int, ar.width as int))
    } else {
        (scale_round(h, ar.width as int, ar.height as int), h)
    };
    clamped_within(h1, item.min_h, item.max_h);
    clamped_within(w1, item.min_w, item.max_w);
}

/// Fitting to the aspect ratio and bounds keeps the size within the item's
/// bounds (when they are consistent): without a usable ratio both sides lie
/// within them; with one, the side the resize keeps does — the height for a
/// resize from the east or west edge, a south-east or north-east corner, or
/// with no handle, and the width otherwise (the other side is derived from it
/// by the ratio). The width is at most the column count, and at least its
/// minimum when that minimum fits the columns.
pub proof fn aspect_clamped_keeps_bounds(item: LayoutItem, cols: int, handle: Option<ResizeHandle>)
    requires
        size_bounds_consistent(item),
    ensures
        ({
            let r = aspect_clamped(item, cols, handle);
            let keeps_h = !has_usable_ratio(item) || prefer_width_for(handle);
            let keeps_w = !has_usable_ratio(item) || !prefer_width_for(handle);
            &&& keeps_h ==> within_bounds(r.h as int, item.min_h, item.max_h)
            &&& keeps_w ==> (item.max_w matches Some(m) ==> r.w <= m)
            &&& keeps_w ==> (item.min_w matches Some(m) ==> (m <= cols ==> m <= r.w))
            &&& cols >= 1 ==> r.w <= cols
        }),
{
    let w0 = at_least_one(item.w as int);
    let h0 = at_least_one(item.h as int);
    clamped_within(item.w as int, item.min_w, item.max_w);
    clamped_within(item.h as int, item.min_h, item.max_h);
    if has_usable_ratio(item) {
        let ar = item.aspect_ratio.unwrap();
        let pw = prefer_width_for(handle);
        let prev = aspect_rounds(w0, h0, item, ar, pw, 5);
        assert(aspect_rounds(w0, h0, item, ar, pw, 6) == aspect_step(prev.0, prev.1, item, ar, pw));
        aspect_step_keeps_bounds(prev.0, prev.1, item, ar, pw);
    }
}

/// A move of a draggable item to a column where it fits (`0 <= x <= cols - w`)
/// puts it in exactly that column with its size kept; a row that is not
/// negative is asked for as it is (resolution and compaction may then change
/// only the row).
pub proof fn move_keeps_requested_column(
    engine: LayoutEngine<CompactionType, CollisionStrategy>,
    layout: Seq<LayoutItem>,
    id: Seq<char>,
    x: int,
    y: int,
)
    requires
        engine.move_accepts(layout, id, x, y),
        index_of_id(layout, id) >= 0,
        !layout[index_of_id(layout, id)].is_static,
        layout[index_of_id(layout, id)].is_draggable,
        0 <= x <= engine.cols - layout[index_of_id(layout, id)].w,
        0 <= y <= i32::MAX,
    ensures
        ({
            let it = layout[index_of_id(layout, id)];
            let out = engine.moved(layout, id, x, y);
            &&& dragged_to(it, engine.cols as int, x, y).y == y
            &&& exists|k: int|
                0 <= k < out.len() && (#[trigger] out[k]).id@ == id && out[k].x == x && out[k].w
                    == it.w && out[k].h == it.h
        }),
{
    crate::ids::index_of_id_meaning(layout, id);
    move_places_item(engine, layout, id, x, y);
    let it = layout[index_of_id(layout, id)];
    let d = dragged_to(it, engine.cols as int, x, y);
    let out = engine.moved(layout, id, x, y);
    let k = choose|k: int| 0 <= k < out.len() && #[trigger] out[k] == at_row(d, out[k].y as int);
    assert(out[k].id@ == id);
}

/// Moving an item that may not be dragged (static, or not draggable) changes
/// nothing, and neither does moving an id that no item has: the layout is
/// returned exactly as it was.
pub proof fn move_leaves_locked_items<C: Compactor, R: CollisionResolver>(
    engine: LayoutEngine<C, R>,
    layout: Seq<LayoutItem>,
    id: Seq<char>,
    x: int,
    y: int,
)
    requires
        forall|k: int|
            0 <= k < layout.len() && (#[trigger] layout[k]).id@ == id && (forall|j: int|
                0 <= j < k ==> layout[j].id@ != id) ==> layout[k].is_static || !layout[k].is_draggable,
    ensures
        engine.moved(layout, id, x, y) == layout,
{
    crate::ids::index_of_id_meaning(layout, id);
}

/// Resizing an item that may not be resized (static, or not resizable)
/// changes nothing, and neither does resizing an id that no item has.
pub proof fn resize_leaves_locked_items<C: Compactor, R: CollisionResolver>(
    engine: LayoutEngine<C, R>,
    layout: Seq<LayoutItem>,
    id: Seq<char>,
    x: int,
    y: int,
    w: int,
    h: int,
    handle: Option<ResizeHandle>,
)
    requires
        forall|k: int|
            0 <= k < layout.len() && (#[trigger] layout[k]).id@ == id && (forall|j: int|
                0 <= j < k ==> layout[j].id@ != id) ==> layout[k].is_static || !layout[k].is_resizable,
    ensures
        engine.resized(layout, id, x, y, w, h, handle) == layout,
{
    crate::ids::index_of_id_meaning(layout, id);
}

} // verus!
