//! Drag and resize sessions: turning a pointer displacement, measured in grid
//! cells, into a move or a resize of the item.

use vstd::prelude::*;
use crate::collision::CollisionStrategy;
use crate::compact::CompactionType;
use crate::engine::{LayoutEngine, layout_engine};
use crate::item::{LayoutItem, ResizeHandle};

verus! {

/// The type of user interaction currently active.
#[derive(Debug, Clone, Copy, PartialEq, Eq, Structural)]
pub enum InteractionType {
    /// Moving an item across the grid.
    Drag,
    /// Changing an item's dimensions.
    Resize,
}

/// The grid state of an active drag or resize operation: which item, how it
/// started, and how the layout reacts. Pointer positions and pixel sizes are
/// converted to whole cells before they reach [`InteractionSession::update`].
#[derive(Debug, PartialEq)]
pub struct InteractionSession {
    /// ID of the item being interacted with.
    pub id: String,
    /// Whether this is a drag or resize.
    pub interaction_type: InteractionType,
    /// Initial position and dimensions (X, Y, W, H) in grid units.
    pub start_rect: (i32, i32, i32, i32),
    /// The resize handle being used (only relevant for Resize).
    pub handle: ResizeHandle,
    /// The compaction strategy to apply during the interaction.
    pub compaction: CompactionType,
    /// Collision handling during the interaction (usually [`CollisionStrategy::PushDown`]).
    pub collision: CollisionStrategy,
}

/// The rectangle `(x, y, w, h)` that dragging `handle` by `(dx, dy)` cells asks
/// for: a west edge moves `x` and shrinks `w` as it moves right, a north edge
/// moves `y` and shrinks `h` as it moves down, east and south edges grow the size.
pub open spec fn resize_target(handle: ResizeHandle, rect: (i32, i32, i32, i32), dx: int, dy: int) -> (
    int,
    int,
    int,
    int,
) {
    let (x, y, w, h) = (rect.0 as int, rect.1 as int, rect.2 as int, rect.3 as int);
    match handle {
        ResizeHandle::East => (x, y, w + dx, h),
        ResizeHandle::West => (x + dx, y, w - dx, h),
        ResizeHandle::South => (x, y, w, h + dy),
        ResizeHandle::North => (x, y + dy, w, h - dy),
        ResizeHandle::SouthEast => (x, y, w + dx, h + dy),
        ResizeHandle::SouthWest => (x + dx, y, w - dx, h + dy),
        ResizeHandle::NorthEast => (x, y + dy, w + dx, h - dy),
        ResizeHandle::NorthWest => (x + dx, y + dy, w - dx, h - dy),
    }
}

/// Every component of the rectangle fits in an `i32`.
pub open spec fn rect_fits(r: (int, int, int, int)) -> bool {
    &&& i32::MIN <= r.0 <= i32::MAX
    &&& i32::MIN <= r.1 <= i32::MAX
    &&& i32::MIN <= r.2 <= i32::MAX
    &&& i32::MIN <= r.3 <= i32::MAX
}

impl InteractionSession {
    /// The engine the session uses on a grid of `cols` columns.
    pub open spec fn engine(&self, cols: i32) -> LayoutEngine<CompactionType, CollisionStrategy> {
        LayoutEngine { compactor: self.compaction, collision: self.collision, cols }
    }

    /// The layout [`Self::update`] produces for a displacement of `(dx, dy)` cells.
    pub open spec fn updated(&self, layout: Seq<LayoutItem>, cols: i32, dx: int, dy: int) -> Seq<
        LayoutItem,
    > {
        let r = self.start_rect;
        match self.interaction_type {
            InteractionType::Drag => self.engine(cols).moved(layout, self.id@, r.0 + dx, r.1 + dy),
            InteractionType::Resize => {
                let t = resize_target(self.handle, r, dx, dy);
                self.engine(cols).resized(layout, self.id@, t.0, t.1, t.2, t.3, Some(self.handle))
            },
        }
    }

    /// [`Self::update`] finishes: the requested rectangle fits in `i32`, and the
    /// move or resize accepts the layout.
    pub open spec fn update_accepts(&self, layout: Seq<LayoutItem>, cols: i32, dx: int, dy: int) -> bool {
        let r = self.start_rect;
        match self.interaction_type {
            InteractionType::Drag => {
                &&& i32::MIN <= r.0 + dx <= i32::MAX
                &&& i32::MIN <= r.1 + dy <= i32::MAX
                &&& self.engine(cols).move_accepts(layout, self.id@, r.0 + dx, r.1 + dy)
            },
            InteractionType::Resize => {
                let t = resize_target(self.handle, r, dx, dy);
                &&& rect_fits(t)
                &&& self.engine(cols).resize_accepts(
                    layout,
                    self.id@,
                    t.0,
                    t.1,
                    t.2,
                    t.3,
                    Some(self.handle),
                )
            },
        }
    }

    /// The tests [`Self::try_update`] makes: the requested rectangle fits in
    /// `i32`, and the move or resize passes its tests (see
    /// [`LayoutEngine::move_checks`] and [`LayoutEngine::resize_checks`]).
    pub open spec fn update_checks(&self, layout: Seq<LayoutItem>, cols: i32, dx: int, dy: int) -> bool {
        let r = self.start_rect;
        match self.interaction_type {
            InteractionType::Drag => {
                &&& i32::MIN <= r.0 + dx <= i32::MAX
                &&& i32::MIN <= r.1 + dy <= i32::MAX
                &&& self.engine(cols).move_checks(layout, self.id@, r.0 + dx, r.1 + dy)
            },
            InteractionType::Resize => {
                let t = resize_target(self.handle, r, dx, dy);
                &&& rect_fits(t)
                &&& self.engine(cols).resize_checks(
                    layout,
                    self.id@,
                    t.0,
                    t.1,
                    t.2,
                    t.3,
                    Some(self.handle),
                )
            },
        }
    }

    /// [`Self::update`] after testing that it finishes: when
    /// [`Self::update_checks`] holds, the layout is updated and `true`
    /// returned; otherwise the layout is left as it is and `false` returned.
    pub fn try_update(&self, grid_delta: (i32, i32), layout: &mut Vec<LayoutItem>, cols: i32) -> (ok:
        bool)
        ensures
            ok == self.update_checks(old(layout)@, cols, grid_delta.0 as int, grid_delta.1 as int),
            ok ==> final(layout)@ == self.updated(
                old(layout)@,
                cols,
                grid_delta.0 as int,
                grid_delta.1 as int,
            ),
            !ok ==> final(layout)@ == old(layout)@,
    {
        let (dx, dy) = grid_delta;
        let engine = layout_engine(self.compaction, self.collision, cols);
        let (sx, sy, sw, sh) = self.start_rect;
        let (dx, dy, sx, sy, sw, sh) = (
            dx as i64,
            dy as i64,
            sx as i64,
            sy as i64,
            sw as i64,
            sh as i64,
        );
        let (nx, ny, nw, nh): (i64, i64, i64, i64) = match self.interaction_type {
            InteractionType::Drag => (sx + dx, sy + dy, sw, sh),
            InteractionType::Resize => match self.handle {
                ResizeHandle::East => (sx, sy, sw + dx, sh),
                ResizeHandle::West => (sx + dx, sy, sw - dx, sh),
                ResizeHandle::South => (sx, sy, sw, sh + dy),
                ResizeHandle::North => (sx, sy + dy, sw, sh - dy),
                ResizeHandle::SouthEast => (sx, sy, sw + dx, sh + dy),
                ResizeHandle::SouthWest => (sx + dx, sy, sw - dx, sh + dy),
                ResizeHandle::NorthEast => (sx, sy + dy, sw + dx, sh - dy),
                ResizeHandle::NorthWest => (sx + dx, sy + dy, sw - dx, sh - dy),
            },
        };
        let lo: i64 = i32::MIN as i64;
        let hi: i64 = i32::MAX as i64;
        if nx < lo || nx > hi || ny < lo || ny > hi || nw < lo || nw > hi || nh < lo || nh > hi {
            return false;
        }
        match self.interaction_type {
            InteractionType::Drag => engine.try_move_element(
                layout,
                self.id.as_str(),
                nx as i32,
                ny as i32,
            ),
            InteractionType::Resize => engine.try_resize_element(
                layout,
                self.id.as_str(),
                nx as i32,
                ny as i32,
                nw as i32,
                nh as i32,
                Some(self.handle),
            ),
        }
    }

    /// Performs a single-pass interaction update for a pointer displacement of
    /// `grid_delta` whole cells: Delta -> Handle-Aware Rect -> Grid Logic.
    pub fn update(&self, grid_delta: (i32, i32), layout: &mut Vec<LayoutItem>, cols: i32)
        requires
            self.update_accepts(old(layout)@, cols, grid_delta.0 as int, grid_delta.1 as int),
        ensures
            final(layout)@ == self.updated(old(layout)@, cols, grid_delta.0 as int, grid_delta.1 as int),
    {
        let (dx, dy) = grid_delta;
        let engine = layout_engine(self.compaction, self.collision, cols);
        match self.interaction_type {
            InteractionType::Drag => {
                engine.move_element(
                    layout,
                    self.id.as_str(),
                    self.start_rect.0 + dx,
                    self.start_rect.1 + dy,
                );
            },
            InteractionType::Resize => {
                let (mut nx, mut ny, mut nw, mut nh) = self.start_rect;
                match self.handle {
                    ResizeHandle::East => {
                        nw = nw + dx;
                    },
                    ResizeHandle::West => {
                        nx = nx + dx;
                        nw = nw - dx;
                    },
                    ResizeHandle::South => {
                        nh = nh + dy;
                    },
                    ResizeHandle::North => {
                        ny = ny + dy;
                        nh = nh - dy;
                    },
                    ResizeHandle::SouthEast => {
                        nw = nw + dx;
                        nh = nh + dy;
                    },
                    ResizeHandle::SouthWest => {
                        nx = nx + dx;
                        nw = nw - dx;
                        nh = nh + dy;
                    },
                    ResizeHandle::NorthEast => {
                        ny = ny + dy;
                        nh = nh - dy;
                        nw = nw + dx;
                    },
                    ResizeHandle::NorthWest => {
                        nx = nx + dx;
                        nw = nw - dx;
                        ny = ny + dy;
                        nh = nh - dy;
                    },
                }
                engine.resize_element(layout, self.id.as_str(), nx, ny, nw, nh, Some(self.handle));
            },
        }
    }
}

/// The handle drags the east (right) edge.
pub open spec fn drags_east(h: ResizeHandle) -> bool {
    h == ResizeHandle::East || h == ResizeHandle::NorthEast || h == ResizeHandle::SouthEast
}

/// The handle drags the west (left) edge.
pub open spec fn drags_west(h: ResizeHandle) -> bool {
    h == ResizeHandle::West || h == ResizeHandle::NorthWest || h == ResizeHandle::SouthWest
}

/// The handle drags the north (top) edge.
pub open spec fn drags_north(h: ResizeHandle) -> bool {
    h == ResizeHandle::North || h == ResizeHandle::NorthEast || h == ResizeHandle::NorthWest
}

/// The handle drags the south (bottom) edge.
pub open spec fn drags_south(h: ResizeHandle) -> bool {
    h == ResizeHandle::South || h == ResizeHandle::SouthEast || h == ResizeHandle::SouthWest
}

/// `d` when `cond` holds, else 0.
pub open spec fn if_dragged(cond: bool, d: int) -> int {
    if cond {
        d
    } else {
        0
    }
}

/// A resize asks for the rectangle whose dragged edges moved by the pointer's
/// displacement and whose other edges stayed: the left edge moves by `dx` for
/// a west handle, the right edge by `dx` for an east one, the top edge by `dy`
/// for a north one and the bottom edge by `dy` for a south one.
pub proof fn resize_moves_only_dragged_edges(
    handle: ResizeHandle,
    rect: (i32, i32, i32, i32),
    dx: int,
    dy: int,
)
    ensures
        ({
            let t = resize_target(handle, rect, dx, dy);
            &&& t.0 == rect.0 + if_dragged(drags_west(handle), dx)
            &&& t.0 + t.2 == rect.0 + rect.2 + if_dragged(drags_east(handle), dx)
            &&& t.1 == rect.1 + if_dragged(drags_north(handle), dy)
            &&& t.1 + t.3 == rect.1 + rect.3 + if_dragged(drags_south(handle), dy)
        }),
{
}

/// A resize of an item without bounds or aspect ratio gives it exactly the
/// size its dragged edges ask for, when that rectangle lies in the grid: the
/// width grows by `dx` on an east handle and shrinks by `dx` on a west one, the
/// height grows by `dy` on a south handle and shrinks by `dy` on a north one,
/// and a west handle moves the column by `dx` (only the row may then change,
/// through resolution and compaction).
pub proof fn resize_update_gives_dragged_size(
    session: InteractionSession,
    layout: Seq<LayoutItem>,
    cols: i32,
    dx: int,
    dy: int,
)
    requires
        session.interaction_type == InteractionType::Resize,
        session.update_accepts(layout, cols, dx, dy),
        crate::ids::index_of_id(layout, session.id@) >= 0,
        ({
            let it = layout[crate::ids::index_of_id(layout, session.id@)];
            &&& it.resizable()
            &&& it.min_w is None && it.max_w is None && it.min_h is None && it.max_h is None
            &&& it.aspect_ratio is None
        }),
        ({
            let r = session.start_rect;
            let h = session.handle;
            let x = r.0 + if_dragged(drags_west(h), dx);
            let y = r.1 + if_dragged(drags_north(h), dy);
            let w = r.2 + if_dragged(drags_east(h), dx) - if_dragged(drags_west(h), dx);
            let hh = r.3 + if_dragged(drags_south(h), dy) - if_dragged(drags_north(h), dy);
            &&& w >= 1 && hh >= 1 && x >= 0 && y >= 0 && x + w <= cols
        }),
    ensures
        ({
            let r = session.start_rect;
            let h = session.handle;
            let out = session.updated(layout, cols, dx, dy);
            exists|k: int|
                0 <= k < out.len() && (#[trigger] out[k]).id@ == session.id@ && out[k].x == r.0
                    + if_dragged(drags_west(h), dx) && out[k].w == r.2 + if_dragged(drags_east(h), dx)
                    - if_dragged(drags_west(h), dx) && out[k].h == r.3 + if_dragged(
                    drags_south(h),
                    dy,
                ) - if_dragged(drags_north(h), dy)
        }),
{
    let r = session.start_rect;
    let h = session.handle;
    let t = resize_target(h, r, dx, dy);
    resize_moves_only_dragged_edges(h, r, dx, dy);
    let engine = session.engine(cols);
    crate::engine::resize_places_item(engine, layout, session.id@, t.0, t.1, t.2, t.3, Some(h));
    let i = crate::ids::index_of_id(layout, session.id@);
    crate::ids::index_of_id_meaning(layout, session.id@);
    let rt = crate::engine::resized_to(layout[i], cols as int, t.0, t.1, t.2, t.3, Some(h));
    let out = session.updated(layout, cols, dx, dy);
    let k = choose|k: int| 0 <= k < out.len() && #[trigger] out[k] == crate::compact::at_row(rt, out[k].y as int);
    assert(out[k].id@ == session.id@);
}

} // verus!
