//! Grid items, resize handles, and the overlap test between two items.

use vstd::prelude::*;
use vstd::string::StringExecFns;

verus! {

/// A handle for resizing a grid item.
#[derive(Debug, Clone, Copy, PartialEq, Eq, Hash, Structural)]
pub enum ResizeHandle {
    North,
    South,
    East,
    West,
    NorthEast,
    NorthWest,
    SouthEast,
    SouthWest,
}

/// The label that [`resize_handle_aria_label`] gives each handle.
pub open spec fn aria_label_of(handle: ResizeHandle) -> Seq<char> {
    match handle {
        ResizeHandle::North => "Resize top edge"@,
        ResizeHandle::South => "Resize bottom edge"@,
        ResizeHandle::East => "Resize right edge"@,
        ResizeHandle::West => "Resize left edge"@,
        ResizeHandle::NorthEast => "Resize top-right corner"@,
        ResizeHandle::NorthWest => "Resize top-left corner"@,
        ResizeHandle::SouthEast => "Resize bottom-right corner"@,
        ResizeHandle::SouthWest => "Resize bottom-left corner"@,
    }
}

/// Human-readable label for assistive tech (e.g. `aria-label` on resize controls).
pub fn resize_handle_aria_label(handle: ResizeHandle) -> (label: &'static str)
    ensures
        label@ == aria_label_of(handle),
{
    match handle {
        ResizeHandle::North => "Resize top edge",
        ResizeHandle::South => "Resize bottom edge",
        ResizeHandle::East => "Resize right edge",
        ResizeHandle::West => "Resize left edge",
        ResizeHandle::NorthEast => "Resize top-right corner",
        ResizeHandle::NorthWest => "Resize top-left corner",
        ResizeHandle::SouthEast => "Resize bottom-right corner",
        ResizeHandle::SouthWest => "Resize bottom-left corner",
    }
}

/// The inline CSS placing the control of `handle` on an item: the bottom-right
/// corner, the bottom edge and the right edge have one; other handles have none.
pub open spec fn handle_style_of(handle: ResizeHandle) -> Seq<char> {
    match handle {
        ResizeHandle::SouthEast => "bottom: -8px; right: -8px; cursor: nwse-resize; width: 40px; height: 40px; display: flex; align-items: flex-end; justify-content: flex-end; padding: 12px;"@,
        ResizeHandle::South => "bottom: -8px; left: 30px; right: 30px; height: 16px; cursor: ns-resize; display: flex; justify-content: center; align-items: center;"@,
        ResizeHandle::East => "top: 30px; bottom: 30px; right: -8px; width: 16px; cursor: ew-resize; display: flex; align-items: center; justify-content: center;"@,
        _ => Seq::empty(),
    }
}

/// Inline style for the control of a resize handle.
pub fn resize_handle_style(handle: ResizeHandle) -> (style: String)
    ensures
        style@ == handle_style_of(handle),
{
    match handle {
        ResizeHandle::SouthEast => String::from_str(
            "bottom: -8px; right: -8px; cursor: nwse-resize; width: 40px; height: 40px; display: flex; align-items: flex-end; justify-content: flex-end; padding: 12px;",
        ),
        ResizeHandle::South => String::from_str(
            "bottom: -8px; left: 30px; right: 30px; height: 16px; cursor: ns-resize; display: flex; justify-content: center; align-items: center;",
        ),
        ResizeHandle::East => String::from_str(
            "top: 30px; bottom: 30px; right: -8px; width: 16px; cursor: ew-resize; display: flex; align-items: center; justify-content: center;",
        ),
        _ => String::new(),
    }
}

/// Whether an aspect-ratio resize from `handle` keeps the width and derives the height
/// (east/west edges and the east corners) or keeps the height and derives the width.
pub open spec fn prefers_width(handle: ResizeHandle) -> bool {
    match handle {
        ResizeHandle::East | ResizeHandle::West | ResizeHandle::NorthEast
        | ResizeHandle::SouthEast => true,
        _ => false,
    }
}

pub fn aspect_prefers_width(handle: ResizeHandle) -> (r: bool)
    ensures
        r == prefers_width(handle),
{
    match handle {
        ResizeHandle::East | ResizeHandle::West | ResizeHandle::NorthEast
        | ResizeHandle::SouthEast => true,
        ResizeHandle::North | ResizeHandle::South => false,
        ResizeHandle::NorthWest | ResizeHandle::SouthWest => false,
    }
}

/// The set of resize handles enabled on an item, one flag per handle.
#[derive(Debug, Clone, Copy, PartialEq, Eq, Hash, Structural)]
pub struct ResizeHandles {
    pub north: bool,
    pub south: bool,
    pub east: bool,
    pub west: bool,
    pub north_east: bool,
    pub north_west: bool,
    pub south_east: bool,
    pub south_west: bool,
}

impl ResizeHandles {
    /// Whether `handle` is in the set.
    pub open spec fn has(self, handle: ResizeHandle) -> bool {
        match handle {
            ResizeHandle::North => self.north,
            ResizeHandle::South => self.south,
            ResizeHandle::East => self.east,
            ResizeHandle::West => self.west,
            ResizeHandle::NorthEast => self.north_east,
            ResizeHandle::NorthWest => self.north_west,
            ResizeHandle::SouthEast => self.south_east,
            ResizeHandle::SouthWest => self.south_west,
        }
    }

    /// The set with no handle.
    pub fn empty() -> (s: Self)
        ensures
            forall|h: ResizeHandle| !s.has(h),
    {
        ResizeHandles {
            north: false,
            south: false,
            east: false,
            west: false,
            north_east: false,
            north_west: false,
            south_east: false,
            south_west: false,
        }
    }

    pub fn contains(&self, handle: ResizeHandle) -> (r: bool)
        ensures
            r == self.has(handle),
    {
        match handle {
            ResizeHandle::North => self.north,
            ResizeHandle::South => self.south,
            ResizeHandle::East => self.east,
            ResizeHandle::West => self.west,
            ResizeHandle::NorthEast => self.north_east,
            ResizeHandle::NorthWest => self.north_west,
            ResizeHandle::SouthEast => self.south_east,
            ResizeHandle::SouthWest => self.south_west,
        }
    }

    pub fn insert(&mut self, handle: ResizeHandle)
        ensures
            forall|h: ResizeHandle| final(self).has(h) == (old(self).has(h) || h == handle),
    {
        match handle {
            ResizeHandle::North => self.north = true,
            ResizeHandle::South => self.south = true,
            ResizeHandle::East => self.east = true,
            ResizeHandle::West => self.west = true,
            ResizeHandle::NorthEast => self.north_east = true,
            ResizeHandle::NorthWest => self.north_west = true,
            ResizeHandle::SouthEast => self.south_east = true,
            ResizeHandle::SouthWest => self.south_west = true,
        }
    }
}

/// A fixed aspect ratio `width : height` in grid units.
/// A ratio with a zero part is treated as no ratio at all.
#[derive(Debug, Clone, Copy, PartialEq, Eq, Hash, Structural)]
pub struct AspectRatio {
    pub width: u32,
    pub height: u32,
}

/// A single item within the grid layout.
#[derive(Debug, PartialEq)]
pub struct LayoutItem {
    /// Unique identifier for the item.
    pub id: String,
    /// X coordinate in grid units.
    pub x: i32,
    /// Y coordinate in grid units.
    pub y: i32,
    /// Width in grid units.
    pub w: i32,
    /// Height in grid units.
    pub h: i32,
    /// Minimum allowed width.
    pub min_w: Option<i32>,
    /// Maximum allowed width.
    pub max_w: Option<i32>,
    /// Minimum allowed height.
    pub min_h: Option<i32>,
    /// Maximum allowed height.
    pub max_h: Option<i32>,
    /// Optional fixed aspect ratio **width : height** in grid units.
    pub aspect_ratio: Option<AspectRatio>,
    /// If true, the item cannot be dragged or resized and is fixed for compaction.
    pub is_static: bool,
    /// When `is_static` is false: allow dragging (subject to compaction).
    pub is_draggable: bool,
    /// When `is_static` is false: allow resizing.
    pub is_resizable: bool,
    /// Enabled resize handles for this item.
    pub resize_handles: ResizeHandles,
}

impl Clone for LayoutItem {
    fn clone(&self) -> (r: Self)
        ensures
            r == *self,
    {
        LayoutItem {
            id: self.id.clone(),
            x: self.x,
            y: self.y,
            w: self.w,
            h: self.h,
            min_w: self.min_w,
            max_w: self.max_w,
            min_h: self.min_h,
            max_h: self.max_h,
            aspect_ratio: self.aspect_ratio,
            is_static: self.is_static,
            is_draggable: self.is_draggable,
            is_resizable: self.is_resizable,
            resize_handles: self.resize_handles,
        }
    }
}

impl Default for LayoutItem {
    /// An empty-id 1x1 item at the origin, draggable and resizable from its
    /// bottom-right corner, with no constraints.
    fn default() -> (r: Self)
        ensures
            r.id@ == Seq::<char>::empty(),
            r.x == 0,
            r.y == 0,
            r.w == 1,
            r.h == 1,
            r.min_w is None,
            r.max_w is None,
            r.min_h is None,
            r.max_h is None,
            r.aspect_ratio is None,
            !r.is_static,
            r.is_draggable,
            r.is_resizable,
            forall|h: ResizeHandle| r.resize_handles.has(h) == (h == ResizeHandle::SouthEast),
    {
        let mut handles = ResizeHandles::empty();
        handles.insert(ResizeHandle::SouthEast);
        LayoutItem {
            id: String::new(),
            x: 0,
            y: 0,
            w: 1,
            h: 1,
            min_w: None,
            max_w: None,
            min_h: None,
            max_h: None,
            aspect_ratio: None,
            is_static: false,
            is_draggable: true,
            is_resizable: true,
            resize_handles: handles,
        }
    }
}

impl LayoutItem {
    /// Whether the user may drag the item.
    pub open spec fn draggable(self) -> bool {
        !self.is_static && self.is_draggable
    }

    /// Whether the user may resize the item.
    pub open spec fn resizable(self) -> bool {
        !self.is_static && self.is_resizable
    }

    /// User-driven drag allowed (keyboard / pointer).
    pub fn can_drag(&self) -> (r: bool)
        ensures
            r == self.draggable(),
    {
        !self.is_static && self.is_draggable
    }

    /// User-driven resize allowed.
    pub fn can_resize(&self) -> (r: bool)
        ensures
            r == self.resizable(),
    {
        !self.is_static && self.is_resizable
    }
}

/// The rectangles of `a` and `b` share some area (edges that only touch do not count).
pub open spec fn rects_overlap(a: LayoutItem, b: LayoutItem) -> bool {
    !(a.x + a.w <= b.x || a.x >= b.x + b.w || a.y + a.h <= b.y || a.y >= b.y + b.h)
}

/// Two items collide when they have different ids and their rectangles overlap.
pub open spec fn collision(a: LayoutItem, b: LayoutItem) -> bool {
    a.id@ != b.id@ && rects_overlap(a, b)
}

/// Checks if two layout items overlap (edges are computed without overflow).
pub fn collides(a: &LayoutItem, b: &LayoutItem) -> (r: bool)
    ensures
        r == collision(*a, *b),
{
    if a.id == b.id {
        return false;
    }
    let (ax, ay, aw, ah) = (a.x as i64, a.y as i64, a.w as i64, a.h as i64);
    let (bx, by, bw, bh) = (b.x as i64, b.y as i64, b.w as i64, b.h as i64);
    !(ax + aw <= bx || ax >= bx + bw || ay + ah <= by || ay >= by + bh)
}

/// Collision does not depend on the order of the two items.
pub proof fn collision_is_symmetric(a: LayoutItem, b: LayoutItem)
    ensures
        collision(a, b) == collision(b, a),
{
}

/// An item never collides with itself, nor with any item that shares its id.
pub proof fn same_id_never_collides(a: LayoutItem, b: LayoutItem)
    requires
        a.id@ == b.id@,
    ensures
        !collision(a, b),
{
}

} // verus!
