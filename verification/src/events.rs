//! Structured layout lifecycle events (RGL-style callbacks).

use vstd::prelude::*;
use crate::collision::CollisionStrategy;
use crate::compact::CompactionType;
use crate::interaction::InteractionType;
use crate::item::LayoutItem;

verus! {

/// Phase of a drag or resize interaction.
#[derive(Debug, Clone, Copy, PartialEq, Eq, Structural)]
pub enum InteractionPhase {
    Start,
    Update,
    Stop,
    Cancel,
}

/// Emitted by hosts for undo stacks, analytics, and custom constraints.
#[derive(Debug, PartialEq)]
pub enum LayoutEvent {
    Interaction {
        phase: InteractionPhase,
        id: String,
        interaction: InteractionType,
        /// Snapshot of the full layout after applying this step (when applicable).
        layout: Vec<LayoutItem>,
        compaction: CompactionType,
        collision: CollisionStrategy,
    },
    /// Column count or compaction changed outside an interaction (e.g. responsive).
    ConfigChanged { cols: i32, compaction: CompactionType },
}

/// A pointer event a grid host receives.
#[derive(Debug, Clone, Copy, PartialEq, Eq, Structural)]
pub enum PointerEvent {
    /// A press on an item or a resize handle, which starts an interaction.
    Down,
    /// A move of the pointer.
    Move,
    /// The release of the pointer.
    Up,
    /// The pointer left the grid.
    Leave,
    /// The platform cancelled the pointer.
    Cancel,
}

/// The lifecycle phase a pointer event reports and whether an interaction is
/// active after it: a press starts one (`Start`); with one active, a move
/// reports `Update` when updates are wanted, a release reports `Stop`, and a
/// leave or cancel reports `Cancel`, the last three ending it. Without an
/// active interaction nothing but a press reports a phase.
pub open spec fn lifecycle_step(active: bool, event: PointerEvent, emit_updates: bool) -> (
    Option<InteractionPhase>,
    bool,
) {
    match event {
        PointerEvent::Down => (Some(InteractionPhase::Start), true),
        PointerEvent::Move => (
            if active && emit_updates {
                Some(InteractionPhase::Update)
            } else {
                None
            },
            active,
        ),
        PointerEvent::Up => (
            if active {
                Some(InteractionPhase::Stop)
            } else {
                None
            },
            false,
        ),
        PointerEvent::Leave | PointerEvent::Cancel => (
            if active {
                Some(InteractionPhase::Cancel)
            } else {
                None
            },
            false,
        ),
    }
}

/// Decides, for a pointer event, which lifecycle phase to emit (if any) and
/// whether an interaction stays active, as [`lifecycle_step`] states.
pub fn lifecycle_phase(active: bool, event: PointerEvent, emit_updates: bool) -> (r: (
    Option<InteractionPhase>,
    bool,
))
    ensures
        r == lifecycle_step(active, event, emit_updates),
{
    match event {
        PointerEvent::Down => (Some(InteractionPhase::Start), true),
        PointerEvent::Move => {
            if active && emit_updates {
                (Some(InteractionPhase::Update), true)
            } else {
                (None, active)
            }
        },
        PointerEvent::Up => {
            if active {
                (Some(InteractionPhase::Stop), false)
            } else {
                (None, false)
            }
        },
        PointerEvent::Leave | PointerEvent::Cancel => {
            if active {
                (Some(InteractionPhase::Cancel), false)
            } else {
                (None, false)
            }
        },
    }
}

} // verus!
