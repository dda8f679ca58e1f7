//! Dragging items between containers: the dragged item, what a frame reports about a move, and
//! the decisions taken when the pointer is released.

use vstd::prelude::*;

use crate::contents::Entity;
use crate::item::{Item, ItemRotation};
use crate::shape::Shape;

verus! {

/// An item being dragged.
#[derive(Debug)]
pub struct DragItem {
    pub id: Entity,
    /// A copy of the item, so it can be turned while dragged without affecting the item in its
    /// container.
    pub item: Item,
    /// The rotation of the dragged copy.
    pub rotation: ItemRotation,
    /// The container the item came from, its slot there, and the container's shape with the
    /// dragged item erased, for fit checks when it is dropped back into the same container.
    pub source: Option<(Entity, usize, Shape)>,
    /// The slot inside the item where the drag started.
    pub offset: usize,
}

/// What a frame reports: the item newly picked up, and the container slot under the pointer.
#[derive(Debug)]
pub struct MoveData {
    pub drag: Option<DragItem>,
    pub target: Option<(Entity, usize)>,
}

impl Default for MoveData {
    /// Nothing picked up, no target.
    fn default() -> (r: MoveData)
        ensures
            r.drag is None,
            r.target is None,
    {
        MoveData { drag: None, target: None }
    }
}

impl MoveData {
    /// Combine the reports of two containers, the first one's winning where both have one.
    pub fn merge(self, other: Self) -> (r: Self)
        ensures
            r.drag == if self.drag is Some {
                self.drag
            } else {
                other.drag
            },
            r.target == if self.target is Some {
                self.target
            } else {
                other.target
            },
    {
        let drag = match self.drag {
            Some(d) => Some(d),
            None => other.drag,
        };
        let target = match self.target {
            Some(t) => Some(t),
            None => other.target,
        };
        MoveData { drag, target }
    }
}

/// A dragged item whose shape can be turned.
pub open spec fn turnable(d: DragItem) -> bool {
    d.item.shape@.wf() && d.item.shape@.height > 0
}

/// The drag state after a frame's report: the newly picked-up item if there is one.
pub open spec fn picked_up(drag_item: Option<DragItem>, data: MoveData) -> Option<DragItem> {
    match data.drag {
        Some(d) => Some(d),
        None => drag_item,
    }
}

/// `f` is `h`, turned a quarter when `rotate` is set.
pub open spec fn turned(f: DragItem, h: DragItem, rotate: bool) -> bool {
    &&& f.id == h.id
    &&& f.source == h.source
    &&& f.offset == h.offset
    &&& f.rotation == if rotate {
        h.rotation.next()
    } else {
        h.rotation
    }
    &&& f.item.shape@ == if rotate {
        h.item.shape@.rotated90()
    } else {
        h.item.shape@
    }
    &&& f.item.shape@.wf()
    &&& rotate ==> turnable(f)
}

/// The space in which items are dragged between containers.
pub struct ContainerSpace;

impl ContainerSpace {
    /// One frame of dragging. A newly picked-up item becomes the dragged item; when `rotate` is
    /// pressed the dragged item turns a quarter; when the pointer is `released` the drag ends,
    /// and if there is a target the move is returned, with the dragged item put back in it.
    pub fn show(drag_item: &mut Option<DragItem>, data: MoveData, rotate: bool, released: bool) -> (r:
        Option<MoveData>)
        requires
            !(data.drag is Some && *old(drag_item) is Some),
            picked_up(*old(drag_item), data) matches Some(d) ==> d.item.shape@.wf() && (rotate ==> turnable(d)),
        ensures
            ({
                let held = picked_up(*old(drag_item), data);
                if !released {
                    &&& r is None
                    &&& *final(drag_item) is Some <==> held is Some
                    &&& *final(drag_item) matches Some(f) ==> (held matches Some(h) && turned(f, h, rotate))
                } else {
                    &&& *final(drag_item) is None
                    &&& r is Some <==> (held is Some && data.target is Some)
                    &&& r matches Some(m) ==> m.target == data.target && (m.drag matches Some(f)
                        && held matches Some(h) && turned(f, h, rotate))
                }
            }),
    {
        let mut data = data;
        if let Some(drag) = data.drag.take() {
            *drag_item = Some(drag);
        }
        if rotate {
            if let Some(d) = drag_item {
                d.rotation = d.rotation.increment();
                d.item.shape = d.item.shape.rotate90();
            }
        }
        if !released {
            return None;
        }
        match drag_item.take() {
            Some(drag) => {
                if data.target.is_some() {
                    data.drag = Some(drag);
                    Some(data)
                } else {
                    None
                }
            },
            None => None,
        }
    }
}

/// The column and row of slot `slot` in a grid `width` slots wide.
pub fn slot_xy(slot: usize, width: usize) -> (r: (usize, usize))
    requires
        width > 0,
    ensures
        r == (slot % width, slot / width),
{
    (slot % width, slot / width)
}

/// The container a view of contents belongs to.
#[derive(Clone, Copy, Debug, PartialEq, Eq, Structural)]
pub struct Context {
    container_id: Entity,
}

impl Context {
    /// The container.
    pub closed spec fn container_id_spec(&self) -> Entity {
        self.container_id
    }
}

impl vstd::std_specs::convert::FromSpecImpl<Entity> for Context {
    open spec fn obeys_from_spec() -> bool {
        true
    }

    closed spec fn from_spec(v: Entity) -> Context {
        Context { container_id: v }
    }
}

impl From<Entity> for Context {
    /// The context of the container `container_id`.
    fn from(container_id: Entity) -> (r: Context)
        ensures
            r.container_id_spec() == container_id,
    {
        Context { container_id }
    }
}

} // verus!
