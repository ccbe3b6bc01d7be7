//! A self-contained grid engine for hosts that talk in names and cell deltas
//! (such as JavaScript front ends): it owns the layout, the column count, the
//! compaction strategy, and at most one active interaction.

use vstd::prelude::*;
use crate::collision::CollisionStrategy;
use crate::compact::{CompactionType, Compactor};
use crate::ids::{index_of_id, position_of_id, str_eq};
use crate::interaction::{InteractionSession, InteractionType};
use crate::item::{LayoutItem, ResizeHandle};

verus! {

/// The compaction named `name`: free placement for `"FreePlacement"`, gravity
/// for any other name.
pub open spec fn compaction_named(name: Seq<char>) -> CompactionType {
    if name == "FreePlacement"@ {
        CompactionType::FreePlacement
    } else {
        CompactionType::Gravity
    }
}

/// The interaction named `name`: resize for `"Resize"`, drag for any other name.
pub open spec fn interaction_named(name: Seq<char>) -> InteractionType {
    if name == "Resize"@ {
        InteractionType::Resize
    } else {
        InteractionType::Drag
    }
}

/// The handle named `name` (its variant name); the bottom-right corner for an
/// unknown name.
pub open spec fn handle_named(name: Seq<char>) -> ResizeHandle {
    if name == "East"@ {
        ResizeHandle::East
    } else if name == "West"@ {
        ResizeHandle::West
    } else if name == "North"@ {
        ResizeHandle::North
    } else if name == "South"@ {
        ResizeHandle::South
    } else if name == "NorthEast"@ {
        ResizeHandle::NorthEast
    } else if name == "NorthWest"@ {
        ResizeHandle::NorthWest
    } else if name == "SouthEast"@ {
        ResizeHandle::SouthEast
    } else if name == "SouthWest"@ {
        ResizeHandle::SouthWest
    } else {
        ResizeHandle::SouthEast
    }
}

pub fn compaction_from_name(name: &str) -> (c: CompactionType)
    ensures
        c == compaction_named(name@),
{
    if str_eq(name, "FreePlacement") {
        CompactionType::FreePlacement
    } else {
        CompactionType::Gravity
    }
}

pub fn interaction_from_name(name: &str) -> (t: InteractionType)
    ensures
        t == interaction_named(name@),
{
    if str_eq(name, "Resize") {
        InteractionType::Resize
    } else {
        InteractionType::Drag
    }
}

pub fn handle_from_name(name: &str) -> (h: ResizeHandle)
    ensures
        h == handle_named(name@),
{
    if str_eq(name, "East") {
        ResizeHandle::East
    } else if str_eq(name, "West") {
        ResizeHandle::West
    } else if str_eq(name, "North") {
        ResizeHandle::North
    } else if str_eq(name, "South") {
        ResizeHandle::South
    } else if str_eq(name, "NorthEast") {
        ResizeHandle::NorthEast
    } else if str_eq(name, "NorthWest") {
        ResizeHandle::NorthWest
    } else if str_eq(name, "SouthEast") {
        ResizeHandle::SouthEast
    } else if str_eq(name, "SouthWest") {
        ResizeHandle::SouthWest
    } else {
        ResizeHandle::SouthEast
    }
}

/// A copy of `layout`, item by item.
pub fn copy_layout(layout: &Vec<LayoutItem>) -> (r: Vec<LayoutItem>)
    ensures
        r@ == layout@,
{
    let mut r: Vec<LayoutItem> = Vec::new();
    let mut i: usize = 0;
    while i < layout.len()
        invariant
            i <= layout@.len(),
            r@ == layout@.take(i as int),
        decreases layout@.len() - i,
    {
        r.push(layout[i].clone());
        i = i + 1;
        assert(r@ =~= layout@.take(i as int));
    }
    assert(layout@.take(layout@.len() as int) =~= layout@);
    r
}

/// A grid engine with its own layout and at most one active interaction.
pub struct GridEngine {
    pub layout: Vec<LayoutItem>,
    pub cols: i32,
    pub compaction: CompactionType,
    pub session: Option<InteractionSession>,
}

impl GridEngine {
    /// An empty engine on `cols` columns with the compaction named `compaction_name`.
    pub fn new(cols: i32, compaction_name: &str) -> (e: Self)
        ensures
            e.layout@ == Seq::<LayoutItem>::empty(),
            e.cols == cols,
            e.compaction == compaction_named(compaction_name@),
            e.session is None,
    {
        GridEngine {
            layout: Vec::new(),
            cols,
            compaction: compaction_from_name(compaction_name),
            session: None,
        }
    }

    /// Replaces the layout with `items`, compacted.
    pub fn set_layout(&mut self, items: Vec<LayoutItem>)
        requires
            old(self).compaction.accepts(items@, old(self).cols as int),
        ensures
            final(self).layout@ == old(self).compaction.compaction(items@, old(self).cols as int),
            final(self).cols == old(self).cols,
            final(self).compaction == old(self).compaction,
            final(self).session == old(self).session,
    {
        self.layout = items;
        self.compaction.compact(&mut self.layout, self.cols);
    }

    /// Starts an interaction on the item `id`, recording its current rectangle;
    /// nothing happens when there is no such item.
    pub fn start_interaction(&mut self, id: &str, interaction_type: &str, handle: &str)
        ensures
            final(self).layout == old(self).layout,
            final(self).cols == old(self).cols,
            final(self).compaction == old(self).compaction,
            index_of_id(old(self).layout@, id@) < 0 ==> final(self).session == old(self).session,
            index_of_id(old(self).layout@, id@) >= 0 ==> {
                let it = old(self).layout@[index_of_id(old(self).layout@, id@)];
                &&& final(self).session matches Some(s)
                &&& s.id@ == id@
                &&& s.interaction_type == interaction_named(interaction_type@)
                &&& s.start_rect == (it.x, it.y, it.w, it.h)
                &&& s.handle == handle_named(handle@)
                &&& s.compaction == old(self).compaction
                &&& s.collision == CollisionStrategy::PushDown
            },
    {
        proof {
            crate::ids::index_of_id_meaning(self.layout@, id@);
        }
        if let Some(i) = position_of_id(&self.layout, id) {
            let it = &self.layout[i];
            let session = InteractionSession {
                id: it.id.clone(),
                interaction_type: interaction_from_name(interaction_type),
                start_rect: (it.x, it.y, it.w, it.h),
                handle: handle_from_name(handle),
                compaction: self.compaction,
                collision: CollisionStrategy::PushDown,
            };
            self.session = Some(session);
        }
    }

    /// The layout the active interaction would give for a displacement of
    /// `grid_delta` cells, without changing the engine; the current layout when
    /// no interaction is active.
    pub fn preview(&self, grid_delta: (i32, i32)) -> (r: Vec<LayoutItem>)
        requires
            self.session matches Some(s) ==> s.update_accepts(
                self.layout@,
                self.cols,
                grid_delta.0 as int,
                grid_delta.1 as int,
            ),
        ensures
            match self.session {
                Some(s) => r@ == s.updated(
                    self.layout@,
                    self.cols,
                    grid_delta.0 as int,
                    grid_delta.1 as int,
                ),
                None => r@ == self.layout@,
            },
    {
        let mut virtual_layout = copy_layout(&self.layout);
        if let Some(s) = &self.session {
            s.update(grid_delta, &mut virtual_layout, self.cols);
        }
        virtual_layout
    }

    /// Ends the active interaction, applying a final displacement of
    /// `grid_delta` cells; nothing happens when no interaction is active.
    pub fn end_interaction(&mut self, grid_delta: (i32, i32))
        requires
            old(self).session matches Some(s) ==> s.update_accepts(
                old(self).layout@,
                old(self).cols,
                grid_delta.0 as int,
                grid_delta.1 as int,
            ),
        ensures
            final(self).session is None,
            final(self).cols == old(self).cols,
            final(self).compaction == old(self).compaction,
            match old(self).session {
                Some(s) => final(self).layout@ == s.updated(
                    old(self).layout@,
                    old(self).cols,
                    grid_delta.0 as int,
                    grid_delta.1 as int,
                ),
                None => final(self).layout@ == old(self).layout@,
            },
    {
        let taken = self.session.take();
        if let Some(s) = taken {
            s.update(grid_delta, &mut self.layout, self.cols);
        }
    }
    /// [`Self::preview`] after testing that the update finishes (see
    /// [`InteractionSession::update_checks`]): `None` when the test fails; the
    /// current layout when no interaction is active.
    pub fn try_preview(&self, grid_delta: (i32, i32)) -> (r: Option<Vec<LayoutItem>>)
        ensures
            match self.session {
                Some(s) => match r {
                    Some(v) => s.update_checks(
                        self.layout@,
                        self.cols,
                        grid_delta.0 as int,
                        grid_delta.1 as int,
                    ) && v@ == s.updated(self.layout@, self.cols, grid_delta.0 as int, grid_delta.1 as int),
                    None => !s.update_checks(
                        self.layout@,
                        self.cols,
                        grid_delta.0 as int,
                        grid_delta.1 as int,
                    ),
                },
                None => r matches Some(v) && v@ == self.layout@,
            },
    {
        let mut virtual_layout = copy_layout(&self.layout);
        if let Some(s) = &self.session {
            if !s.try_update(grid_delta, &mut virtual_layout, self.cols) {
                return None;
            }
        }
        Some(virtual_layout)
    }

    /// [`Self::end_interaction`] after testing that the update finishes (see
    /// [`InteractionSession::update_checks`]): when the test fails the engine is
    /// left as it is and `false` returned.
    pub fn try_end_interaction(&mut self, grid_delta: (i32, i32)) -> (ok: bool)
        ensures
            final(self).cols == old(self).cols,
            final(self).compaction == old(self).compaction,
            match old(self).session {
                Some(s) => {
                    &&& ok == s.update_checks(
                        old(self).layout@,
                        old(self).cols,
                        grid_delta.0 as int,
                        grid_delta.1 as int,
                    )
                    &&& ok ==> final(self).session is None && final(self).layout@ == s.updated(
                        old(self).layout@,
                        old(self).cols,
                        grid_delta.0 as int,
                        grid_delta.1 as int,
                    )
                    &&& !ok ==> final(self).session == old(self).session && final(self).layout@
                        == old(self).layout@
                },
                None => ok && final(self).session is None && final(self).layout@ == old(self).layout@,
            },
    {
        let mut updated = copy_layout(&self.layout);
        if let Some(s) = &self.session {
            if !s.try_update(grid_delta, &mut updated, self.cols) {
                return false;
            }
        }
        self.layout = updated;
        self.session = None;
        true
    }
}

} // verus!
