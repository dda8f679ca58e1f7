//! Single-item containers that take an item of any size up to a maximum.

use vstd::prelude::*;

use crate::contents::ItemFlags;
use crate::vec2::Size;

verus! {

/// An expanding container fits only one item, but it can be any size up to a maximum size: an
/// equipment slot where only one item can go and the size varies.
#[derive(Clone, Copy, Debug, PartialEq, Eq, Structural)]
pub struct ExpandingContents {
    pub max_size: Size,
    pub flags: ItemFlags,
}

impl ExpandingContents {
    /// An expanding container taking items up to `max_size`, of every category.
    pub fn new(max_size: Size) -> (r: Self)
        ensures
            r.max_size == max_size,
            r.flags.0 == u32::MAX,
    {
        ExpandingContents { max_size, flags: ItemFlags::all() }
    }

    /// The container taking only the categories in `flags`.
    pub fn with_flags(self, flags: ItemFlags) -> (r: Self)
        ensures
            r.max_size == self.max_size,
            r.flags == flags,
    {
        let mut s = self;
        s.flags = flags;
        s
    }

    /// An expanding container has a single slot.
    pub fn len(&self) -> (r: usize)
        ensures
            r == 1,
    {
        1
    }

    /// Whether the container takes items of `item_flags`.
    pub fn accepts(&self, item_flags: ItemFlags) -> (r: bool)
        ensures
            r == self.flags.contains_spec(item_flags),
    {
        self.flags.contains(item_flags)
    }

    /// Whether an item of `size` fits in slot `slot`: the container is not already `filled` by
    /// another item (an item being turned in place does not count, `from_here`), and the item is
    /// no larger than the maximum size.
    pub fn fits(&self, filled: bool, from_here: bool, size: Size, slot: usize) -> (r: bool)
        requires
            slot == 0,
        ensures
            r == (!(filled && !from_here) && size.x <= self.max_size.x && size.y <= self.max_size.y),
    {
        let filled = !from_here && filled;
        !filled && size.all_le(&self.max_size)
    }
}

} // verus!
