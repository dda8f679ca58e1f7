//! What happens to items in containers, as reported to observers.

use vstd::prelude::*;

use crate::contents::{Entity, Slot};

verus! {

/// Item `item` inserted into container `entity` at `slot`.
#[derive(Clone, Copy, Debug, PartialEq, Eq, Structural)]
pub struct ItemInsert {
    pub entity: Entity,
    pub slot: Slot,
    pub item: Entity,
}

/// Item `item` removed from container `entity` at `slot`.
#[derive(Clone, Copy, Debug, PartialEq, Eq, Structural)]
pub struct ItemRemove {
    pub entity: Entity,
    pub slot: Slot,
    pub item: Entity,
}

/// Item `item` moved within container `entity` from `old_slot` to `new_slot`.
#[derive(Clone, Copy, Debug, PartialEq, Eq, Structural)]
pub struct ItemMove {
    pub entity: Entity,
    pub old_slot: Slot,
    pub new_slot: Slot,
    pub item: Entity,
}

/// Item `item` started dragging from the target container at `slot`.
#[derive(Clone, Copy, Debug, PartialEq, Eq, Structural)]
pub struct ItemDragStart {
    pub slot: usize,
    pub item: Entity,
}

/// Item `item` drag ended at the target container at `slot`. No event is fired if the drag is
/// not released over a target item or container.
#[derive(Clone, Copy, Debug, PartialEq, Eq, Structural)]
pub struct ItemDragEnd {
    pub slot: usize,
    pub item: Entity,
}

/// Item `item` dragged over the target container at `slot`.
#[derive(Clone, Copy, Debug, PartialEq, Eq, Structural)]
pub struct ItemDragOver {
    /// If we are dragging over an item that's a container, and it accepts the dragged item, then
    /// the target and slot will be accurate even if the contents are not visible. If the
    /// container does not accept the dragged item the target and slot will be of the occupied
    /// item.
    pub slot: usize,
    pub item: Entity,
}

/// What moving an item asks of the world once the sections are updated: re-parent the item,
/// and report what happened.
#[derive(Clone, Copy, Debug, PartialEq, Eq, Structural)]
pub enum ContentsAction {
    /// Make `child` a child of `parent` (leaving its previous parent).
    AddChild { parent: Entity, child: Entity },
    Move(ItemMove),
    Remove(ItemRemove),
    Insert(ItemInsert),
}

} // verus!
