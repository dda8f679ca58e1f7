use vstd::prelude::*;

verus! {

/// A two-dimensional vector of unsigned 32-bit coordinates: a slot position or a grid size.
#[derive(Clone, Copy, Debug, PartialEq, Eq, Structural)]
pub struct UVec2 {
    pub x: u32,
    pub y: u32,
}

/// The dimensions (width, height) of a shape.
pub type Size = UVec2;

impl UVec2 {
    pub fn new(x: u32, y: u32) -> (r: Self)
        ensures
            r.x == x,
            r.y == y,
    {
        UVec2 { x, y }
    }

    /// Both components of `self` are at most those of `other`.
    pub fn all_le(&self, other: &UVec2) -> (r: bool)
        ensures
            r == (self.x <= other.x && self.y <= other.y),
    {
        self.x <= other.x && self.y <= other.y
    }

    /// The product of the two components.
    pub fn element_product(&self) -> (r: u64)
        ensures
            r == self.x * self.y,
    {
        proof {
            vstd::arithmetic::mul::lemma_mul_upper_bound(self.x as int, u32::MAX as int, self.y as int, u32::MAX as int);
        }
        (self.x as u64) * (self.y as u64)
    }
}

} // verus!
