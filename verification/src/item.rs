//! Items and their rotation.

use vstd::prelude::*;

use crate::shape::{Shape, ShapeView};
use crate::shape_laws::{
    law_rotate90_after_rotate180, law_rotate90_after_rotate270, law_rotate90_twice,
};
use crate::vec2::UVec2;

verus! {

/// Clockwise rotation of an item, in quarter turns.
#[derive(Clone, Copy, Debug, Default, PartialEq, Eq, Structural)]
pub enum ItemRotation {
    #[default]
    R0,
    R90,
    R180,
    R270,
}

impl ItemRotation {
    /// The rotation a quarter turn further clockwise.
    pub open spec fn next(self) -> ItemRotation {
        match self {
            ItemRotation::R0 => ItemRotation::R90,
            ItemRotation::R90 => ItemRotation::R180,
            ItemRotation::R180 => ItemRotation::R270,
            ItemRotation::R270 => ItemRotation::R0,
        }
    }

    /// The rotation a quarter turn further clockwise.
    pub fn increment(&self) -> (r: Self)
        ensures
            r == self.next(),
    {
        match self {
            ItemRotation::R0 => ItemRotation::R90,
            ItemRotation::R90 => ItemRotation::R180,
            ItemRotation::R180 => ItemRotation::R270,
            _ => ItemRotation::R0,
        }
    }
}

/// `m` turned clockwise by `rotation`.
pub open spec fn rotated_by(m: ShapeView, rotation: ItemRotation) -> ShapeView {
    match rotation {
        ItemRotation::R0 => m,
        ItemRotation::R90 => m.rotated90(),
        ItemRotation::R180 => m.rotated180(),
        ItemRotation::R270 => m.rotated270(),
    }
}

/// Four increments bring a rotation back to where it started.
pub proof fn law_increment_four_times(r: ItemRotation)
    ensures
        r.next().next().next().next() == r,
{
}

/// Turning a shape by the next rotation is turning it by the current one and then a quarter
/// more: an item's shape stays its stored shape turned by its rotation as it is turned.
pub proof fn law_rotated_by_next(m: ShapeView, r: ItemRotation)
    requires
        m.wf(),
        m.height > 0,
    ensures
        rotated_by(m, r.next()) == rotated_by(m, r).rotated90(),
{
    match r {
        ItemRotation::R0 => {},
        ItemRotation::R90 => {
            law_rotate90_twice(m);
        },
        ItemRotation::R180 => {
            law_rotate90_after_rotate180(m);
        },
        ItemRotation::R270 => {
            law_rotate90_after_rotate270(m);
        },
    }
}

/// An item.
#[derive(Clone, Debug)]
pub struct Item {
    /// The item's footprint (the filled slots, when it is not rectangular).
    pub shape: Shape,
}

impl Default for Item {
    /// A one-slot item.
    fn default() -> (r: Item)
        ensures
            r.shape@.wf(),
            r.shape@.width == 1,
            r.shape@.height == 1,
            r.shape@.cells == seq![true],
    {
        let shape = Shape::new(UVec2::new(1, 1), true);
        assert(shape@.cells =~= seq![true]);
        Item { shape }
    }
}

impl Item {
    /// The item with `rotation` applied to its shape.
    pub fn with_rotation(self, rotation: ItemRotation) -> (r: Self)
        requires
            self.shape@.wf(),
            rotation != ItemRotation::R0 ==> self.shape@.height > 0,
        ensures
            r.shape@.wf(),
            r.shape@ == rotated_by(self.shape@, rotation),
    {
        let mut s = self;
        match rotation {
            ItemRotation::R0 => {},
            ItemRotation::R90 => {
                s.shape = s.shape.rotate90();
            },
            ItemRotation::R180 => {
                s.shape = s.shape.rotate180();
            },
            ItemRotation::R270 => {
                s.shape = s.shape.rotate270();
            },
        }
        s
    }

    /// A copy of the item.
    pub fn duplicate(&self) -> (r: Item)
        ensures
            r.shape@ == self.shape@,
    {
        Item { shape: self.shape.duplicate() }
    }
}

} // verus!
