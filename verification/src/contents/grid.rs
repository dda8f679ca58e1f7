//! A container section holding items in a 2D grid.

use vstd::prelude::*;

use crate::contents::Slot;
use crate::item::Item;
use crate::shape::{Shape, ShapeView};
use crate::shape_laws::law_unpaint_undoes_paint;
use crate::vec2::{Size, UVec2};

verus! {

/// Contains items in a 2D grid.
#[derive(Clone, Debug)]
pub struct GridContents {
    /// If true, this grid only holds one item, but the size of that item can be any up to the
    /// maximum size.
    pub expands: bool,
    /// If true, show inline contents for the contained item.
    pub inline: bool,
    pub header: Option<String>,
    /// The dimensions of the container and which of its slots are filled.
    pub shape: Shape,
}

impl Default for GridContents {
    /// An empty two-by-two grid.
    fn default() -> (r: GridContents)
        ensures
            !r.expands,
            !r.inline,
            r.header is None,
            r.shape@.wf(),
            r.shape@.width == 2,
            r.shape@.height == 2,
            r.shape@.cells == Seq::new(4, |i: int| false),
    {
        GridContents {
            expands: false,
            inline: false,
            header: None,
            shape: Shape::new(UVec2::new(2, 2), false),
        }
    }
}

/// The cell of `shape` at which `slot` lies.
pub open spec fn slot_index(shape: ShapeView, slot: Slot) -> int {
    slot.0.x + slot.0.y * shape.width
}

impl GridContents {
    /// An empty grid of `size`.
    pub fn new(size: Size) -> (r: GridContents)
        requires
            size.x > 0,
            size.y > 0,
            size.x * size.y <= u32::MAX,
        ensures
            !r.expands,
            !r.inline,
            r.header is None,
            r.shape@.wf(),
            r.shape@.width == size.x,
            r.shape@.height == size.y,
            r.shape@.cells == Seq::new((size.x * size.y) as nat, |i: int| false),
    {
        GridContents { expands: false, inline: false, header: None, shape: Shape::new(size, false) }
    }

    /// The grid with `expands` set.
    pub fn with_expands(self, expands: bool) -> (r: Self)
        ensures
            r.expands == expands,
            r.inline == self.inline,
            r.header == self.header,
            r.shape == self.shape,
    {
        let mut s = self;
        s.expands = expands;
        s
    }

    /// The grid with `inline` set.
    pub fn with_inline(self, inline: bool) -> (r: Self)
        ensures
            r.expands == self.expands,
            r.inline == inline,
            r.header == self.header,
            r.shape == self.shape,
    {
        let mut s = self;
        s.inline = inline;
        s
    }

    /// The grid with a header.
    pub fn with_header(self, header: String) -> (r: Self)
        ensures
            r.expands == self.expands,
            r.inline == self.inline,
            r.header == Some(header),
            r.shape == self.shape,
    {
        let mut s = self;
        s.header = Some(header);
        s
    }

    /// The number of slots an item may be placed at: one when the grid expands, else its area.
    pub open spec fn slot_count(&self) -> int {
        if self.expands {
            1
        } else {
            self.shape@.cells.len() as int
        }
    }

    /// The number of slots an item may be placed at: one when the grid expands, else its area.
    pub fn slots(&self) -> (r: usize)
        requires
            self.shape@.wf(),
        ensures
            r == self.slot_count(),
    {
        if self.expands {
            1
        } else {
            self.shape.area()
        }
    }

    /// What placing an item of `item` at `slot` asks of this grid: the slot's cell is a `u32`
    /// and one of the grid's slots, and placing the item there is defined.
    pub open spec fn placeable(&self, slot: Slot, item: ShapeView) -> bool {
        &&& slot_index(self.shape@, slot) <= u32::MAX
        &&& slot_index(self.shape@, slot) < self.slot_count()
        &&& self.shape@.overlay_defined(item, slot_index(self.shape@, slot))
    }

    /// Paint `item`'s shape into the grid at `slot`.
    pub fn insert(&mut self, slot: Slot, item: &Item)
        requires
            old(self).shape@.wf(),
            item.shape@.wf(),
            old(self).placeable(slot, item.shape@),
        ensures
            final(self).shape@.wf(),
            final(self).shape@ == old(self).shape@.painted(item.shape@, slot_index(old(self).shape@, slot)),
            final(self).expands == old(self).expands,
            final(self).inline == old(self).inline,
            final(self).header == old(self).header,
    {
        let index = self.shape.index(slot.0);
        self.shape.paint(&item.shape, index);
    }

    /// Erase `item`'s shape from the grid at `slot`.
    pub fn remove(&mut self, slot: Slot, item: &Item)
        requires
            old(self).shape@.wf(),
            item.shape@.wf(),
            old(self).placeable(slot, item.shape@),
        ensures
            final(self).shape@.wf(),
            final(self).shape@ == old(self).shape@.unpainted(item.shape@, slot_index(old(self).shape@, slot)),
            final(self).expands == old(self).expands,
            final(self).inline == old(self).inline,
            final(self).header == old(self).header,
    {
        let index = self.shape.index(slot.0);
        self.shape.unpaint(&item.shape, index);
    }
}

/// Removing an item just inserted at a slot where it fit gives back the grid as it was: the
/// grid after the insert still lets the item be placed at that slot (same cell, same number of
/// slots), and erasing it there restores the shape from before the insert.
pub proof fn law_remove_undoes_insert(g: GridContents, slot: Slot, item: ShapeView)
    requires
        g.shape@.wf(),
        item.wf(),
        g.placeable(slot, item),
        g.shape@.fits(item, slot_index(g.shape@, slot)),
    ensures
        ({
            let i = slot_index(g.shape@, slot);
            let p = g.shape@.painted(item, i);
            &&& p.wf()
            &&& slot_index(p, slot) == i
            &&& p.cells.len() == g.shape@.cells.len()
            &&& p.overlay_defined(item, i)
            &&& p.unpainted(item, slot_index(p, slot)) == g.shape@
        }),
{
    law_unpaint_undoes_paint(g.shape@, item, slot_index(g.shape@, slot));
}

} // verus!
