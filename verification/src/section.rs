//! What the layout needs to know about a section.

use vstd::prelude::*;
use crate::at::At;

verus! {

/// What the layout needs to know about a section: its label, how many tiles,
/// and where its box sits in the bento.
#[derive(Debug, Clone, PartialEq)]
pub struct SectionShape {
    pub title: String,
    pub count: usize,
    /// Where the box sits. `None` stacks it under whatever came before.
    pub at: Option<At>,
    /// Tile columns inside this box. 0 fits as many as its rectangle takes.
    pub columns: usize,
    /// Where the box sits in the centre block, left to right, for a box held in
    /// the middle of the panel instead of taking a place in the tree.
    pub center: Option<usize>,
}

impl SectionShape {
    /// Whether the section takes a place in the tree: it holds something, and
    /// the centre block has not claimed it.
    pub open spec fn in_tree(&self) -> bool {
        self.count > 0 && self.center is None
    }
}

} // verus!
