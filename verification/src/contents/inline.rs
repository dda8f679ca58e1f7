//! A single-item container that shows the contents of the container it holds.

use vstd::prelude::*;

use crate::contents::expanding::ExpandingContents;

verus! {

/// A container for a single item (or "slot") that, when it holds another container, shows that
/// container's contents inline.
#[derive(Clone, Copy, Debug, PartialEq, Eq, Structural)]
pub struct InlineContents(pub ExpandingContents);

impl InlineContents {
    /// Inline contents around `contents`.
    pub fn new(contents: ExpandingContents) -> (r: Self)
        ensures
            r.0 == contents,
    {
        InlineContents(contents)
    }
}

} // verus!
