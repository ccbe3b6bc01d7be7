//! The saved form of a layout.

use vstd::prelude::*;
use crate::item::LayoutItem;

verus! {

/// A layout as it is saved: a format version, the items and the column count.
#[derive(Debug)]
pub struct LayoutSnapshot {
    pub version: u32,
    pub items: Vec<LayoutItem>,
    pub cols: i32,
}

impl LayoutSnapshot {
    /// The snapshot to save for `items` on `cols` columns, in the current format
    /// (version 1).
    pub fn current(items: Vec<LayoutItem>, cols: i32) -> (s: Self)
        ensures
            s.version == 1,
            s.items@ == items@,
            s.cols == cols,
    {
        LayoutSnapshot { version: 1, items, cols }
    }
}

} // verus!
