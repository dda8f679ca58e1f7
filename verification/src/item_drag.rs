//! The decisions taken when an item is picked up and dragged over a section.

use vstd::prelude::*;

use crate::contents::grid::{slot_index, GridContents};
use crate::contents::{Accepts, DragRotation, DragShape, DragSlot, Flags, Slot};
use crate::item::{rotated_by, Item, ItemRotation};
use crate::shape::ShapeView;
use crate::vec2::UVec2;

verus! {

/// What picking up `item` (turned by `rotation`, at `slot` of `contents`) leaves on the section
/// and the item: the section's shape with the item erased, searched while the item is dragged
/// within the section, and the rotation the dragged item starts with.
pub fn on_item_drag_start(contents: &GridContents, item: &Item, rotation: ItemRotation, slot: Slot) -> (r:
    (DragShape, DragRotation))
    requires
        contents.shape@.wf(),
        item.shape@.wf(),
        rotation != ItemRotation::R0 ==> item.shape@.height > 0,
        slot_index(contents.shape@, slot) <= u32::MAX,
        contents.shape@.overlay_defined(
            rotated_by(item.shape@, rotation),
            slot_index(contents.shape@, slot),
        ),
    ensures
        r.0.0@ == contents.shape@.unpainted(
            rotated_by(item.shape@, rotation),
            slot_index(contents.shape@, slot),
        ),
        r.1.0 == rotation,
{
    let item = item.duplicate().with_rotation(rotation);
    let mut shape = contents.shape.duplicate();
    let index = shape.index(slot.0);
    shape.unpaint(&item.shape, index);
    (DragShape(shape), DragRotation(rotation))
}

/// The shape a dragged item is fitted against in a section: the drag shape while there is one.
pub open spec fn drag_search_shape(section: GridContents, drag_shape: Option<&DragShape>) -> ShapeView {
    match drag_shape {
        Some(d) => d.0@,
        None => section.shape@,
    }
}

/// The slot to show under a dragged item hovering over slot `slot` of `section`: `slot` when
/// the item, turned by its drag rotation (else its own rotation), fits there.
pub fn on_item_drag_over(
    section: &GridContents,
    drag_shape: Option<&DragShape>,
    item: &Item,
    rotation: ItemRotation,
    drag_rotation: Option<&DragRotation>,
    slot: UVec2,
) -> (r: DragSlot)
    requires
        item.shape@.wf(),
        match drag_rotation {
            Some(d) => d.0,
            None => rotation,
        } != ItemRotation::R0 ==> item.shape@.height > 0,
        ({
            let m = drag_search_shape(*section, drag_shape);
            let turned = rotated_by(
                item.shape@,
                match drag_rotation {
                    Some(d) => d.0,
                    None => rotation,
                },
            );
            &&& m.wf()
            &&& slot.x + slot.y * m.width <= u32::MAX
            &&& turned.width <= m.width && turned.height <= m.height ==> m.overlay_defined(
                turned,
                slot.x + slot.y * m.width,
            )
        }),
    ensures
        ({
            let m = drag_search_shape(*section, drag_shape);
            let turned = rotated_by(
                item.shape@,
                match drag_rotation {
                    Some(d) => d.0,
                    None => rotation,
                },
            );
            r == DragSlot(
                if m.fits(turned, slot.x + slot.y * m.width) {
                    Some(Slot(slot))
                } else {
                    None
                },
            )
        }),
{
    let turn = match drag_rotation {
        Some(d) => d.0,
        None => rotation,
    };
    let item = item.duplicate().with_rotation(turn);
    let shape = match drag_shape {
        Some(d) => &d.0,
        None => &section.shape,
    };
    let index = shape.index(slot);
    if shape.fits(&item.shape, index) {
        DragSlot(Some(Slot(slot)))
    } else {
        DragSlot(None)
    }
}

/// What a dragged item entering a target does.
#[derive(Clone, Copy, Debug, PartialEq, Eq, Structural)]
pub enum DragEnter {
    /// The target is another item: the event goes no further (items lie over their section).
    Item,
    /// The target is a section that accepts the item: it gets an empty drag slot, and the event
    /// goes no further.
    Section,
    /// Neither: the event goes on to the target's parents.
    Pass,
}

/// What a dragged item with `item_flags` entering a target does: the target is an item when
/// `target_is_item`, else a section with `section_flags` when it has them.
pub fn on_item_drag_enter<T: Accepts>(
    target_is_item: bool,
    section_flags: Option<&Flags<T>>,
    item_flags: &Flags<T>,
) -> (r: DragEnter)
    ensures
        r == if target_is_item {
            DragEnter::Item
        } else {
            match section_flags {
                Some(f) => if f.0.accepts_spec(&item_flags.0) {
                    DragEnter::Section
                } else {
                    DragEnter::Pass
                },
                None => DragEnter::Pass,
            }
        },
{
    if target_is_item {
        DragEnter::Item
    } else {
        match section_flags {
            Some(f) => if f.accepts(item_flags) {
                DragEnter::Section
            } else {
                DragEnter::Pass
            },
            None => DragEnter::Pass,
        }
    }
}

} // verus!
