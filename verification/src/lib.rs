//! A headless, deterministic engine for draggable and resizable grid layouts:
//! compaction, collision handling, interaction updates, validation and
//! responsive helpers.

pub mod collision;
pub mod compact;
pub mod engine;
pub mod events;
pub mod grid;
pub mod ids;
pub mod interaction;
pub mod item;
pub mod order;
pub mod responsive;
pub mod rise;
pub mod settle;
pub mod snapshot;
pub mod validate;

pub use collision::{CollisionResolver, CollisionStrategy, NoopCollisionResolver, PushDownResolver};
pub use compact::{CompactionType, Compactor, FreePlacementCompactor, RisingTideCompactor};
pub use engine::{
    LayoutEngine, apply_aspect_and_clamp, fit_and_compact, fit_to_columns, keyboard_cell_nudge,
    layout_engine,
};
pub use events::{InteractionPhase, LayoutEvent, PointerEvent, lifecycle_phase};
pub use grid::GridEngine;
pub use interaction::{InteractionSession, InteractionType};
pub use item::{
    AspectRatio, LayoutItem, ResizeHandle, ResizeHandles, aspect_prefers_width, collides,
    resize_handle_aria_label, resize_handle_style,
};
pub use responsive::{
    BreakpointSpec, responsive_breakpoint_index, scale_layout_cols, select_breakpoint,
};
pub use snapshot::LayoutSnapshot;
pub use validate::{LayoutIssue, repair_layout, validate_layout};
