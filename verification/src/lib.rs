use vstd::prelude::*;

pub mod contents;
pub mod drag;
pub mod events;
pub mod grid_math;
pub mod item;
pub mod item_drag;
pub mod occupancy;
pub mod shape;
pub mod shape_laws;
pub mod vec2;
pub mod view;

pub use vec2::{Size, UVec2};
pub use contents::expanding::ExpandingContents;
pub use contents::header::HeaderContents;
pub use contents::inline::InlineContents;
pub use contents::placement::place_items;
pub use contents::section::{split_lengths, SectionContents, SectionLayout};
pub use contents::storage::{ContentsStorage, Section};
pub use contents::{
    Accepts, DragRotation, DragShape, DragSlot, Entity, Flags, GridContents, ItemFlags, Options,
    Slot,
};
pub use drag::{slot_xy, ContainerSpace, Context, DragItem, MoveData};
pub use events::{
    ContentsAction, ItemDragEnd, ItemDragOver, ItemDragStart, ItemInsert, ItemMove, ItemRemove,
};
pub use item::{Item, ItemRotation};
pub use item_drag::{on_item_drag_enter, on_item_drag_over, on_item_drag_start, DragEnter};
pub use shape::{Shape, ShapeView};
pub use view::{item_moved, ViewAction};
