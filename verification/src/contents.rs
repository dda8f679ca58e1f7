//! Container contents: slots, compatibility flags, and the drag state kept on sections.

use vstd::prelude::*;

use crate::item::ItemRotation;
use crate::shape::Shape;
use crate::vec2::UVec2;

pub mod expanding;
pub mod grid;
pub mod header;
pub mod inline;
pub mod placement;
pub mod reach;
pub mod section;
pub mod storage;

pub use grid::GridContents;

verus! {

/// An entity of the world the containers live in, by its id.
#[derive(Clone, Copy, Debug, PartialEq, Eq, Structural)]
pub struct Entity(pub u64);

/// The slot an item occupies in its parent container.
#[derive(Clone, Copy, Debug, PartialEq, Eq, Structural)]
pub struct Slot(pub UVec2);

impl Slot {
    /// The shape index of this slot in a shape `width` slots wide.
    pub fn index(&self, width: usize) -> (r: usize)
        requires
            self.0.x + self.0.y * width <= usize::MAX,
        ensures
            r == self.0.x + self.0.y * width,
    {
        proof {
            vstd::arithmetic::mul::lemma_mul_nonnegative(self.0.y as int, width as int);
        }
        self.0.x as usize + self.0.y as usize * width
    }
}

/// Compatibility between containers and items: whether a container with `self` accepts an item
/// with `other`.
pub trait Accepts: Copy {
    /// Whether `self` accepts `other`.
    spec fn accepts_spec(&self, other: &Self) -> bool;

    /// Whether `self` accepts `other`.
    fn accepts(&self, other: &Self) -> (r: bool)
        ensures
            r == self.accepts_spec(other);
}

/// A set of up to 32 item categories, one per bit.
#[derive(Clone, Copy, Debug, PartialEq, Eq, Structural)]
pub struct ItemFlags(pub u32);

impl ItemFlags {
    /// Every category.
    pub fn all() -> (r: ItemFlags)
        ensures
            r.0 == u32::MAX,
    {
        ItemFlags(0xffff_ffffu32)
    }

    /// No category.
    pub fn empty() -> (r: ItemFlags)
        ensures
            r.0 == 0,
    {
        ItemFlags(0)
    }

    /// Every category of `other` is in `self`.
    pub open spec fn contains_spec(&self, other: ItemFlags) -> bool {
        self.0 & other.0 == other.0
    }

    /// Every category of `other` is in `self`.
    pub fn contains(&self, other: ItemFlags) -> (r: bool)
        ensures
            r == self.contains_spec(other),
    {
        self.0 & other.0 == other.0
    }
}

/// Bit `i` of `x` is set.
pub open spec fn has_bit(x: u32, i: u32) -> bool {
    x & (1u32 << i) != 0
}

/// Container flags `a` accept item flags `b`, and `a` contains `b`, exactly when every category
/// (bit) set in `b` is set in `a` too.
pub proof fn law_accepts_every_bit(a: ItemFlags, b: ItemFlags)
    ensures
        a.contains_spec(b) <==> forall|i: u32| i < 32 ==> #[trigger] has_bit(b.0, i) ==> has_bit(a.0, i),
        a.accepts_spec(&b) <==> forall|i: u32| i < 32 ==> #[trigger] has_bit(b.0, i) ==> has_bit(a.0, i),
{
    if a.contains_spec(b) {
        assert forall|i: u32| i < 32 && #[trigger] has_bit(b.0, i) implies has_bit(a.0, i) by {
            let x = a.0;
            let y = b.0;
            assert((x & (1u32 << i)) != 0) by (bit_vector)
                requires
                    x & y == y,
                    (y & (1u32 << i)) != 0,
                    i < 32,
            ;
        }
    }
    if forall|i: u32| i < 32 ==> #[trigger] has_bit(b.0, i) ==> has_bit(a.0, i) {
        assert(has_bit(b.0, 0u32) ==> has_bit(a.0, 0u32));
        assert(has_bit(b.0, 1u32) ==> has_bit(a.0, 1u32));
        assert(has_bit(b.0, 2u32) ==> has_bit(a.0, 2u32));
        assert(has_bit(b.0, 3u32) ==> has_bit(a.0, 3u32));
        assert(has_bit(b.0, 4u32) ==> has_bit(a.0, 4u32));
        assert(has_bit(b.0, 5u32) ==> has_bit(a.0, 5u32));
        assert(has_bit(b.0, 6u32) ==> has_bit(a.0, 6u32));
        assert(has_bit(b.0, 7u32) ==> has_bit(a.0, 7u32));
        assert(has_bit(b.0, 8u32) ==> has_bit(a.0, 8u32));
        assert(has_bit(b.0, 9u32) ==> has_bit(a.0, 9u32));
        assert(has_bit(b.0, 10u32) ==> has_bit(a.0, 10u32));
        assert(has_bit(b.0, 11u32) ==> has_bit(a.0, 11u32));
        assert(has_bit(b.0, 12u32) ==> has_bit(a.0, 12u32));
        assert(has_bit(b.0, 13u32) ==> has_bit(a.0, 13u32));
        assert(has_bit(b.0, 14u32) ==> has_bit(a.0, 14u32));
        assert(has_bit(b.0, 15u32) ==> has_bit(a.0, 15u32));
        assert(has_bit(b.0, 16u32) ==> has_bit(a.0, 16u32));
        assert(has_bit(b.0, 17u32) ==> has_bit(a.0, 17u32));
        assert(has_bit(b.0, 18u32) ==> has_bit(a.0, 18u32));
        assert(has_bit(b.0, 19u32) ==> has_bit(a.0, 19u32));
        assert(has_bit(b.0, 20u32) ==> has_bit(a.0, 20u32));
        assert(has_bit(b.0, 21u32) ==> has_bit(a.0, 21u32));
        assert(has_bit(b.0, 22u32) ==> has_bit(a.0, 22u32));
        assert(has_bit(b.0, 23u32) ==> has_bit(a.0, 23u32));
        assert(has_bit(b.0, 24u32) ==> has_bit(a.0, 24u32));
        assert(has_bit(b.0, 25u32) ==> has_bit(a.0, 25u32));
        assert(has_bit(b.0, 26u32) ==> has_bit(a.0, 26u32));
        assert(has_bit(b.0, 27u32) ==> has_bit(a.0, 27u32));
        assert(has_bit(b.0, 28u32) ==> has_bit(a.0, 28u32));
        assert(has_bit(b.0, 29u32) ==> has_bit(a.0, 29u32));
        assert(has_bit(b.0, 30u32) ==> has_bit(a.0, 30u32));
        assert(has_bit(b.0, 31u32) ==> has_bit(a.0, 31u32));
        let a = a.0;
        let b = b.0;
        assert(a & b == b) by (bit_vector)
            requires
            (b & (1u32 << 0u32)) != 0 ==> (a & (1u32 << 0u32)) != 0,
            (b & (1u32 << 1u32)) != 0 ==> (a & (1u32 << 1u32)) != 0,
            (b & (1u32 << 2u32)) != 0 ==> (a & (1u32 << 2u32)) != 0,
            (b & (1u32 << 3u32)) != 0 ==> (a & (1u32 << 3u32)) != 0,
            (b & (1u32 << 4u32)) != 0 ==> (a & (1u32 << 4u32)) != 0,
            (b & (1u32 << 5u32)) != 0 ==> (a & (1u32 << 5u32)) != 0,
            (b & (1u32 << 6u32)) != 0 ==> (a & (1u32 << 6u32)) != 0,
            (b & (1u32 << 7u32)) != 0 ==> (a & (1u32 << 7u32)) != 0,
            (b & (1u32 << 8u32)) != 0 ==> (a & (1u32 << 8u32)) != 0,
            (b & (1u32 << 9u32)) != 0 ==> (a & (1u32 << 9u32)) != 0,
            (b & (1u32 << 10u32)) != 0 ==> (a & (1u32 << 10u32)) != 0,
            (b & (1u32 << 11u32)) != 0 ==> (a & (1u32 << 11u32)) != 0,
            (b & (1u32 << 12u32)) != 0 ==> (a & (1u32 << 12u32)) != 0,
            (b & (1u32 << 13u32)) != 0 ==> (a & (1u32 << 13u32)) != 0,
            (b & (1u32 << 14u32)) != 0 ==> (a & (1u32 << 14u32)) != 0,
            (b & (1u32 << 15u32)) != 0 ==> (a & (1u32 << 15u32)) != 0,
            (b & (1u32 << 16u32)) != 0 ==> (a & (1u32 << 16u32)) != 0,
            (b & (1u32 << 17u32)) != 0 ==> (a & (1u32 << 17u32)) != 0,
            (b & (1u32 << 18u32)) != 0 ==> (a & (1u32 << 18u32)) != 0,
            (b & (1u32 << 19u32)) != 0 ==> (a & (1u32 << 19u32)) != 0,
            (b & (1u32 << 20u32)) != 0 ==> (a & (1u32 << 20u32)) != 0,
            (b & (1u32 << 21u32)) != 0 ==> (a & (1u32 << 21u32)) != 0,
            (b & (1u32 << 22u32)) != 0 ==> (a & (1u32 << 22u32)) != 0,
            (b & (1u32 << 23u32)) != 0 ==> (a & (1u32 << 23u32)) != 0,
            (b & (1u32 << 24u32)) != 0 ==> (a & (1u32 << 24u32)) != 0,
            (b & (1u32 << 25u32)) != 0 ==> (a & (1u32 << 25u32)) != 0,
            (b & (1u32 << 26u32)) != 0 ==> (a & (1u32 << 26u32)) != 0,
            (b & (1u32 << 27u32)) != 0 ==> (a & (1u32 << 27u32)) != 0,
            (b & (1u32 << 28u32)) != 0 ==> (a & (1u32 << 28u32)) != 0,
            (b & (1u32 << 29u32)) != 0 ==> (a & (1u32 << 29u32)) != 0,
            (b & (1u32 << 30u32)) != 0 ==> (a & (1u32 << 30u32)) != 0,
            (b & (1u32 << 31u32)) != 0 ==> (a & (1u32 << 31u32)) != 0,
        ;
    }
}

impl Default for ItemFlags {
    /// Every category: by default a container takes any item.
    fn default() -> (r: ItemFlags)
        ensures
            r.0 == u32::MAX,
    {
        ItemFlags::all()
    }
}

impl Accepts for ItemFlags {
    open spec fn accepts_spec(&self, other: &Self) -> bool {
        self.contains_spec(*other)
    }

    fn accepts(&self, other: &Self) -> (r: bool) {
        self.contains(*other)
    }
}

/// Flags used to decide compatibility between containers and items.
#[derive(Clone, Copy, Debug, Default)]
pub struct Flags<T>(pub T);

impl<T: Accepts> Flags<T> {
    /// Whether these (container) flags accept `flags` (of an item).
    pub fn accepts(&self, flags: &Flags<T>) -> (r: bool)
        ensures
            r == self.0.accepts_spec(&flags.0),
    {
        self.0.accepts(&flags.0)
    }
}

/// Options of the container system (none so far).
#[derive(Clone, Debug, Default)]
pub struct Options {}

/// The shape of a section with the dragged item lifted out, kept while an item is dragged
/// within it.
#[derive(Debug)]
pub struct DragShape(pub Shape);

/// The rotation of an item while it is dragged.
#[derive(Debug)]
pub struct DragRotation(pub ItemRotation);

/// The slot of a section under a dragged item, where the item fits there.
#[derive(Debug, PartialEq, Eq, Structural)]
pub struct DragSlot(pub Option<Slot>);

} // verus!
