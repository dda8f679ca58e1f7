//! Rectangular grids of filled and empty slots: the footprint of an item, and the occupancy of a
//! container.

use vstd::prelude::*;

use crate::grid_math::{lemma_coords_of_index, lemma_index_of_coords, lemma_mul_le};
use crate::vec2::{Size, UVec2};

verus! {

/// The mathematical content of a [`Shape`]: its width and height in slots, and one flag per
/// slot in row-major order (slot `(x, y)` is cell `y * width + x`).
pub struct ShapeView {
    pub width: nat,
    pub height: nat,
    pub cells: Seq<bool>,
}

impl ShapeView {
    /// A shape is at least one slot wide, has exactly `width * height` cells, and every cell
    /// index fits in 32 bits (all slot arithmetic is done on `u32`).
    pub open spec fn wf(self) -> bool {
        &&& self.width > 0
        &&& self.cells.len() == self.width * self.height
        &&& self.width * self.height <= u32::MAX
    }

    /// The flag of the slot in column `x`, row `y`.
    pub open spec fn at(self, x: int, y: int) -> bool {
        self.cells[y * self.width + x]
    }

    /// Column of cell `index`.
    pub open spec fn col(self, index: int) -> int {
        index % (self.width as int)
    }

    /// Row of cell `index`.
    pub open spec fn row(self, index: int) -> int {
        index / (self.width as int)
    }

    /// Same width and height.
    pub open spec fn same_size(self, other: ShapeView) -> bool {
        self.width == other.width && self.height == other.height
    }

    /// `other`, placed with its top-left slot on cell `index`, lies inside `self`.
    pub open spec fn overlay_in_bounds(self, other: ShapeView, index: int) -> bool {
        &&& self.col(index) + other.width <= self.width
        &&& self.row(index) + other.height <= self.height
    }

    /// The inputs on which placing `other` at `index` is defined: the cell exists, the far corner
    /// of `other` is a `u32` coordinate, and when `other` has no row and lies inside `self`, it
    /// is exactly as wide as `self` and placed below the first row (its last covered cell, one
    /// row up, is then just before `index`; otherwise that cell lies above the grid or after
    /// `index`).
    pub open spec fn overlay_defined(self, other: ShapeView, index: int) -> bool {
        &&& 0 <= index < self.cells.len()
        &&& other.height == 0 && self.overlay_in_bounds(other, index) ==> self.row(index) >= 1
            && other.width == self.width
        &&& self.col(index) + other.width <= u32::MAX
        &&& self.row(index) + other.height <= u32::MAX
    }

    /// Slot `(x, y)` of `self` lies under `other` placed at `index`.
    pub open spec fn covered(self, other: ShapeView, index: int, x: int, y: int) -> bool {
        &&& self.col(index) <= x < self.col(index) + other.width
        &&& self.row(index) <= y < self.row(index) + other.height
    }

    /// The flag of `other` (placed at `index`) lying over slot `(x, y)` of `self`.
    pub open spec fn under(self, other: ShapeView, index: int, x: int, y: int) -> bool {
        other.at(x - self.col(index), y - self.row(index))
    }

    /// Combine every slot covered by `other` (placed at `index`) with the slot of `other` over it
    /// by `op`; leave the rest alone. When `other` does not lie inside `self`, nothing changes.
    pub open spec fn overlaid(
        self,
        other: ShapeView,
        index: int,
        op: spec_fn(bool, bool) -> bool,
    ) -> ShapeView {
        if self.overlay_in_bounds(other, index) {
            ShapeView {
                width: self.width,
                height: self.height,
                cells: Seq::new(
                    self.cells.len(),
                    |i: int|
                        if self.covered(other, index, self.col(i), self.row(i)) {
                            op(self.cells[i], self.under(other, index, self.col(i), self.row(i)))
                        } else {
                            self.cells[i]
                        },
                ),
            }
        } else {
            self
        }
    }

    /// `self` with `other` painted in at `index`: covered slots become filled where `other` is.
    pub open spec fn painted(self, other: ShapeView, index: int) -> ShapeView {
        self.overlaid(other, index, |a: bool, b: bool| a || b)
    }

    /// `self` with `other` erased at `index`: covered slots become empty where `other` is filled.
    pub open spec fn unpainted(self, other: ShapeView, index: int) -> ShapeView {
        self.overlaid(other, index, |a: bool, b: bool| a && !b)
    }

    /// `other` fits at `index`: it is no larger than `self`, lies inside it when placed at
    /// `index`, and no filled slot of `other` lands on a filled slot of `self`.
    pub open spec fn fits(self, other: ShapeView, index: int) -> bool {
        &&& other.width <= self.width
        &&& other.height <= self.height
        &&& self.overlay_in_bounds(other, index)
        &&& forall|dx: int, dy: int|
            0 <= dx < other.width && 0 <= dy < other.height ==> !(#[trigger] other.at(dx, dy)
                && self.at(self.col(index) + dx, self.row(index) + dy))
    }

    /// The shape turned a quarter clockwise: width and height swap, and slot `(x, y)` of the
    /// result is slot `(y, height - 1 - x)` of `self`.
    pub open spec fn rotated90(self) -> ShapeView {
        ShapeView {
            width: self.height,
            height: self.width,
            cells: Seq::new(
                self.cells.len(),
                |i: int| self.at(i / (self.height as int), self.height - 1 - i % (self.height as int)),
            ),
        }
    }

    /// The shape turned half a turn: slot `(x, y)` of the result is slot
    /// `(width - 1 - x, height - 1 - y)` of `self`.
    pub open spec fn rotated180(self) -> ShapeView {
        ShapeView {
            width: self.width,
            height: self.height,
            cells: Seq::new(
                self.cells.len(),
                |i: int| self.at(self.width - 1 - self.col(i), self.height - 1 - self.row(i)),
            ),
        }
    }

    /// The shape turned three quarters clockwise: width and height swap, and slot `(x, y)` of
    /// the result is slot `(width - 1 - y, x)` of `self`.
    pub open spec fn rotated270(self) -> ShapeView {
        ShapeView {
            width: self.height,
            height: self.width,
            cells: Seq::new(
                self.cells.len(),
                |i: int| self.at(self.width - 1 - i / (self.height as int), i % (self.height as int)),
            ),
        }
    }

    /// Every slot flipped.
    pub open spec fn inverted(self) -> ShapeView {
        ShapeView {
            width: self.width,
            height: self.height,
            cells: Seq::new(self.cells.len(), |i: int| !self.cells[i]),
        }
    }
}

/// Cell `i` of a well-formed shape is the slot at `(col(i), row(i))`.
pub proof fn lemma_cell_at(m: ShapeView, i: int)
    requires
        m.wf(),
        0 <= i < m.cells.len(),
    ensures
        0 <= m.col(i) < m.width,
        0 <= m.row(i) < m.height,
        m.row(i) * m.width + m.col(i) == i,
        m.at(m.col(i), m.row(i)) == m.cells[i],
{
    lemma_coords_of_index(m.width as int, m.height as int, i);
}

/// Slot `(x, y)` of a well-formed shape is cell `y * width + x`, whose column and row are `x`
/// and `y`.
pub proof fn lemma_at_cell(m: ShapeView, x: int, y: int)
    requires
        m.wf(),
        0 <= x < m.width,
        0 <= y < m.height,
    ensures
        0 <= y * m.width + x < m.cells.len(),
        m.col(y * m.width + x) == x,
        m.row(y * m.width + x) == y,
{
    lemma_index_of_coords(m.width as int, m.height as int, x, y);
}

/// Two well-formed shapes of the same size that agree on every slot are equal.
pub proof fn lemma_ext_at(a: ShapeView, b: ShapeView)
    requires
        a.wf(),
        b.wf(),
        a.same_size(b),
        forall|x: int, y: int| 0 <= x < a.width && 0 <= y < a.height ==> #[trigger] a.at(x, y) == b.at(x, y),
    ensures
        a == b,
{
    assert forall|i: int| 0 <= i < a.cells.len() implies a.cells[i] == b.cells[i] by {
        lemma_cell_at(a, i);
        assert(a.at(a.col(i), a.row(i)) == b.at(a.col(i), a.row(i)));
    }
    assert(a.cells =~= b.cells);
}

/// `result` is `old` with `f` applied to every slot covered by `other` placed at `index`, as
/// the first argument, with the slot of `other` over it as the second; the other slots are kept.
/// When `other` does not lie inside `old`, `result` is `old`.
pub open spec fn overlay_applied<F: Fn(bool, bool) -> bool>(
    old: ShapeView,
    result: ShapeView,
    other: ShapeView,
    index: int,
    f: F,
) -> bool {
    &&& result.same_size(old)
    &&& result.cells.len() == old.cells.len()
    &&& if old.overlay_in_bounds(other, index) {
        forall|i: int|
            0 <= i < old.cells.len() ==> if old.covered(other, index, old.col(i), old.row(i)) {
                f.ensures(
                    (old.cells[i], old.under(other, index, old.col(i), old.row(i))),
                    #[trigger] result.cells[i],
                )
            } else {
                result.cells[i] == old.cells[i]
            }
    } else {
        result == old
    }
}

/// Cell `i` of `m` has been visited by a row-by-row walk over the slots covered by `other`
/// (placed at `index`) that has finished `dy` rows and `dx` slots of the next.
spec fn overlay_visited(m: ShapeView, other: ShapeView, index: int, i: int, dy: int, dx: int) -> bool {
    &&& m.covered(other, index, m.col(i), m.row(i))
    &&& (m.row(i) - m.row(index) < dy || (m.row(i) - m.row(index) == dy && m.col(i) - m.col(index) < dx))
}


/// The text of one row: `'\u{25A0}'` for a filled slot, `'\u{25A1}'` for an empty one.
pub open spec fn row_text(m: ShapeView, y: int) -> Seq<char> {
    Seq::new(m.width, |x: int| if m.at(x, y) { '\u{25A0}' } else { '\u{25A1}' })
}

/// The text of the first `rows` rows, each followed by a newline.
pub open spec fn rows_text(m: ShapeView, rows: nat) -> Seq<char>
    decreases rows,
{
    if rows == 0 {
        Seq::empty()
    } else {
        rows_text(m, (rows - 1) as nat) + row_text(m, rows - 1) + seq!['\n']
    }
}

/// A grid of slots, each filled or empty: an item's footprint or a container's occupancy.
#[derive(Clone, Debug, PartialEq, Eq)]
pub struct Shape {
    pub(crate) size: Size,
    pub(crate) fill: Vec<bool>,
}

impl View for Shape {
    type V = ShapeView;

    closed spec fn view(&self) -> ShapeView {
        ShapeView { width: self.size.x as nat, height: self.size.y as nat, cells: self.fill@ }
    }
}

impl Shape {
    /// A `size.x` by `size.y` shape with every slot set to `fill`.
    pub fn new(size: Size, fill: bool) -> (r: Shape)
        requires
            size.x > 0,
            size.y > 0,
            size.x * size.y <= u32::MAX,
        ensures
            r@.width == size.x,
            r@.height == size.y,
            r@.cells == Seq::new((size.x * size.y) as nat, |i: int| fill),
            r@.wf(),
    {
        let n: usize = (size.x as usize) * (size.y as usize);
        let mut cells: Vec<bool> = Vec::new();
        let mut i: usize = 0;
        while i < n
            invariant
                i <= n,
                cells@ == Seq::new(i as nat, |j: int| fill),
            decreases n - i,
        {
            cells.push(fill);
            i = i + 1;
            assert(cells@ =~= Seq::new(i as nat, |j: int| fill));
        }
        Shape { size, fill: cells }
    }

    /// A shape `width` slots wide whose slots are `fill`, row after row.
    pub fn from_width_slice(width: usize, fill: Vec<bool>) -> (r: Shape)
        requires
            width > 0,
            width <= u32::MAX,
            fill.len() % width == 0,
            fill.len() <= u32::MAX,
        ensures
            r@.width == width,
            r@.height == fill.len() / width,
            r@.cells == fill@,
            r@.wf(),
    {
        let height: usize = fill.len() / width;
        proof {
            vstd::arithmetic::div_mod::lemma_fundamental_div_mod(fill.len() as int, width as int);
            vstd::arithmetic::div_mod::lemma_div_is_ordered_by_denominator(fill.len() as int, 1, width as int);
            assert(height * width == width * height) by (nonlinear_arith);
        }
        Shape { size: UVec2::new(width as u32, height as u32), fill }
    }

    /// A shape `width` slots wide whose slot `i` is filled where `ones[i] == 1`.
    pub fn from_ones(width: usize, ones: Vec<u8>) -> (r: Shape)
        requires
            width > 0,
            width <= u32::MAX,
            ones.len() % width == 0,
            ones.len() <= u32::MAX,
        ensures
            r@.width == width,
            r@.height == ones.len() / width,
            r@.cells == Seq::new(ones.len() as nat, |i: int| ones[i] == 1),
            r@.wf(),
    {
        let mut fill: Vec<bool> = Vec::new();
        let mut i: usize = 0;
        while i < ones.len()
            invariant
                i <= ones.len(),
                fill@ == Seq::new(i as nat, |j: int| ones[j] == 1),
            decreases ones.len() - i,
        {
            fill.push(ones[i] == 1);
            i = i + 1;
            assert(fill@ =~= Seq::new(i as nat, |j: int| ones[j] == 1));
        }
        Shape::from_width_slice(width, fill)
    }

    /// Width in slots.
    pub fn width(&self) -> (r: usize)
        ensures
            r == self@.width,
    {
        self.size.x as usize
    }

    /// Height in slots.
    pub fn height(&self) -> (r: usize)
        ensures
            r == self@.height,
    {
        self.size.y as usize
    }

    /// Width and height.
    pub fn size(&self) -> (r: Size)
        ensures
            r.x == self@.width,
            r.y == self@.height,
    {
        self.size
    }

    /// The number of slots, filled or not.
    pub fn area(&self) -> (r: usize)
        requires
            self@.wf(),
        ensures
            r == self@.width * self@.height,
            r == self@.cells.len(),
    {
        self.size.element_product() as usize
    }

    /// Width equals height.
    pub fn is_square(&self) -> (r: bool)
        ensures
            r == (self@.width == self@.height),
    {
        self.size.x == self.size.y
    }

    /// `pt` lies within the shape's extent, its far edges included.
    pub fn contains(&self, pt: UVec2) -> (r: bool)
        ensures
            r == (pt.x <= self@.width && pt.y <= self@.height),
    {
        pt.x <= self.size.x && pt.y <= self.size.y
    }

    /// The cell index of the slot at `slot`: `slot.x + slot.y * width`.
    pub fn index(&self, slot: UVec2) -> (r: usize)
        requires
            slot.x + slot.y * self@.width <= u32::MAX,
        ensures
            r == slot.x + slot.y * self@.width,
    {
        (slot.x + slot.y * self.size.x) as usize
    }

    /// The cells covered by `other` placed at `index`, as the inclusive range from the first to
    /// the last; `None` when `other` does not lie inside `self` there.
    fn overlay_range(&self, other: &Shape, index: usize) -> (r: Option<(usize, usize)>)
        requires
            self@.wf(),
            other@.wf(),
            self@.overlay_defined(other@, index as int),
        ensures
            r is Some <==> self@.overlay_in_bounds(other@, index as int),
            r matches Some((first, last)) ==> first == index && last == (self@.row(index as int)
                + other@.height - 1) * self@.width + self@.col(index as int) + other@.width - 1,
    {
        let p1 = self.slot(index);
        let p2 = UVec2::new(p1.x + other.size.x, p1.y + other.size.y);
        if self.contains(p1) && self.contains(p2) {
            let last_slot = UVec2::new(p2.x - 1, p2.y - 1);
            proof {
                lemma_index_of_coords(
                    self@.width as int,
                    self@.height as int,
                    last_slot.x as int,
                    last_slot.y as int,
                );
                assert(last_slot.x + last_slot.y * self@.width == last_slot.y * self@.width + last_slot.x);
            }
            Some((index, self.index(last_slot)))
        } else {
            None
        }
    }

    /// Apply `f` to every slot covered by `other` placed at `index`, passing the slot and the
    /// slot of `other` over it, and store what `f` returns. Nothing changes when `other` does not
    /// lie inside `self` at `index`.
    pub fn overlay_mut<F: Fn(bool, bool) -> bool>(&mut self, other: &Shape, index: usize, f: F)
        requires
            old(self)@.wf(),
            other@.wf(),
            old(self)@.overlay_defined(other@, index as int),
            forall|a: bool, b: bool| f.requires((a, b)),
        ensures
            final(self)@.wf(),
            overlay_applied(old(self)@, final(self)@, other@, index as int, f),
    {
        let ghost m = self@;
        let ghost o = other@;
        let ghost idx = index as int;
        if let Some(_range) = self.overlay_range(other, index) {
            let w = self.size.x as usize;
            let ow = other.size.x as usize;
            let oh = other.size.y as usize;
            let p1 = self.slot(index);
            let x1 = p1.x as usize;
            let y1 = p1.y as usize;
            let mut dy: usize = 0;
            while dy < oh
                invariant
                    self.size == old(self).size,
                    self@.wf(),
                    m == old(self)@,
                    o == other@,
                    idx == index,
                    o.wf(),
                    m.wf(),
                    m.overlay_in_bounds(o, idx),
                    forall|a: bool, b: bool| f.requires((a, b)),
                    w == m.width,
                    ow == o.width,
                    oh == o.height,
                    x1 == m.col(idx),
                    y1 == m.row(idx),
                    0 <= idx < m.cells.len(),
                    dy <= oh,
                    self.fill@.len() == m.cells.len(),
                    forall|i: int|
                        0 <= i < m.cells.len() ==> if overlay_visited(m, o, idx, i, dy as int, 0) {
                            f.ensures(
                                (m.cells[i], m.under(o, idx, m.col(i), m.row(i))),
                                #[trigger] self.fill@[i],
                            )
                        } else {
                            self.fill@[i] == m.cells[i]
                        },
                decreases oh - dy,
            {
                let mut dx: usize = 0;
                while dx < ow
                    invariant
                        self.size == old(self).size,
                        self@.wf(),
                        m == old(self)@,
                        o == other@,
                        idx == index,
                        o.wf(),
                        m.wf(),
                        m.overlay_in_bounds(o, idx),
                        forall|a: bool, b: bool| f.requires((a, b)),
                        w == m.width,
                        ow == o.width,
                        oh == o.height,
                        x1 == m.col(idx),
                        y1 == m.row(idx),
                        0 <= idx < m.cells.len(),
                        dy < oh,
                        dx <= ow,
                        self.fill@.len() == m.cells.len(),
                        forall|i: int|
                            0 <= i < m.cells.len() ==> if overlay_visited(m, o, idx, i, dy as int, dx as int) {
                                f.ensures(
                                    (m.cells[i], m.under(o, idx, m.col(i), m.row(i))),
                                    #[trigger] self.fill@[i],
                                )
                            } else {
                                self.fill@[i] == m.cells[i]
                            },
                    decreases ow - dx,
                {
                    proof {
                        lemma_at_cell(m, (x1 + dx) as int, (y1 + dy) as int);
                        lemma_index_of_coords(ow as int, oh as int, dx as int, dy as int);
                    }
                    let j: usize = (y1 + dy) * w + x1 + dx;
                    let k: usize = dy * ow + dx;
                    let a = self.fill[j];
                    let b = other.fill[k];
                    let v = f(a, b);
                    let ghost before = self.fill@;
                    self.fill.set(j, v);
                    proof {
                        assert(m.under(o, idx, m.col(j as int), m.row(j as int)) == b);
                        assert forall|i: int| 0 <= i < m.cells.len() implies if overlay_visited(
                            m,
                            o,
                            idx,
                            i,
                            dy as int,
                            dx + 1,
                        ) {
                            f.ensures(
                                (m.cells[i], m.under(o, idx, m.col(i), m.row(i))),
                                #[trigger] self.fill@[i],
                            )
                        } else {
                            self.fill@[i] == m.cells[i]
                        } by {
                            lemma_cell_at(m, i);
                            if i != j {
                                assert(self.fill@[i] == before[i]);
                                if m.row(i) == y1 + dy && m.col(i) == x1 + dx {
                                    assert(i == j);
                                }
                            }
                        }
                    }
                    dx = dx + 1;
                }
                dy = dy + 1;
            }
            proof {
                assert forall|i: int| 0 <= i < m.cells.len() implies #[trigger] overlay_visited(
                    m,
                    o,
                    idx,
                    i,
                    oh as int,
                    0,
                ) == m.covered(o, idx, m.col(i), m.row(i)) by {}
            }
        }
    }

    /// Fill the slots of `self` under the filled slots of `other` placed at `index`. Nothing
    /// changes when `other` does not lie inside `self` there.
    pub fn paint(&mut self, other: &Shape, index: usize)
        requires
            old(self)@.wf(),
            other@.wf(),
            old(self)@.overlay_defined(other@, index as int),
        ensures
            final(self)@.wf(),
            final(self)@ == old(self)@.painted(other@, index as int),
    {
        let ghost m = self@;
        self.overlay_mut(other, index, |a: bool, b: bool| -> (r: bool)
            ensures
                r == (a || b),
            { a || b });
        proof {
            if m.overlay_in_bounds(other@, index as int) {
                assert(self@.cells =~= m.painted(other@, index as int).cells);
            }
        }
    }

    /// Empty the slots of `self` under the filled slots of `other` placed at `index`. Nothing
    /// changes when `other` does not lie inside `self` there.
    pub fn unpaint(&mut self, other: &Shape, index: usize)
        requires
            old(self)@.wf(),
            other@.wf(),
            old(self)@.overlay_defined(other@, index as int),
        ensures
            final(self)@.wf(),
            final(self)@ == old(self)@.unpainted(other@, index as int),
    {
        let ghost m = self@;
        self.overlay_mut(other, index, |a: bool, b: bool| -> (r: bool)
            ensures
                r == (a && !b),
            { a && !b });
        proof {
            if m.overlay_in_bounds(other@, index as int) {
                assert(self@.cells =~= m.unpainted(other@, index as int).cells);
            }
        }
    }

    /// Whether `other` can be placed at `index`: it is no larger than `self`, lies inside it
    /// there, and none of its filled slots lands on a filled slot of `self`.
    pub fn fits(&self, other: &Shape, index: usize) -> (r: bool)
        requires
            self@.wf(),
            other@.wf(),
            other@.width <= self@.width && other@.height <= self@.height ==> self@.overlay_defined(
                other@,
                index as int,
            ),
        ensures
            r == self@.fits(other@, index as int),
    {
        if !other.size.all_le(&self.size) {
            return false;
        }
        let ghost m = self@;
        let ghost o = other@;
        let ghost idx = index as int;
        if let Some(_range) = self.overlay_range(other, index) {
            let w = self.size.x as usize;
            let ow = other.size.x as usize;
            let oh = other.size.y as usize;
            let p1 = self.slot(index);
            let x1 = p1.x as usize;
            let y1 = p1.y as usize;
            let mut dy: usize = 0;
            while dy < oh
                invariant
                    m == self@,
                    o == other@,
                    idx == index,
                    o.wf(),
                    m.wf(),
                    m.overlay_in_bounds(o, idx),
                    w == m.width,
                    ow == o.width,
                    oh == o.height,
                    x1 == m.col(idx),
                    y1 == m.row(idx),
                    dy <= oh,
                    forall|ddx: int, ddy: int|
                        0 <= ddx < ow && 0 <= ddy < dy ==> !(#[trigger] o.at(ddx, ddy) && m.at(
                            x1 + ddx,
                            y1 + ddy,
                        )),
                decreases oh - dy,
            {
                let mut dx: usize = 0;
                while dx < ow
                    invariant
                        m == self@,
                        o == other@,
                        idx == index,
                        o.wf(),
                        m.wf(),
                        m.overlay_in_bounds(o, idx),
                        w == m.width,
                        ow == o.width,
                        oh == o.height,
                        x1 == m.col(idx),
                        y1 == m.row(idx),
                        dy < oh,
                        dx <= ow,
                        forall|ddx: int, ddy: int|
                            (0 <= ddx < ow && 0 <= ddy < dy) || (0 <= ddx < dx && ddy == dy) ==> !(
                            #[trigger] o.at(ddx, ddy) && m.at(x1 + ddx, y1 + ddy)),
                    decreases ow - dx,
                {
                    proof {
                        lemma_at_cell(m, (x1 + dx) as int, (y1 + dy) as int);
                        lemma_index_of_coords(ow as int, oh as int, dx as int, dy as int);
                    }
                    let j: usize = (y1 + dy) * w + x1 + dx;
                    let k: usize = dy * ow + dx;
                    if self.fill[j] && other.fill[k] {
                        assert(o.at(dx as int, dy as int) && m.at(x1 + dx, y1 + dy));
                        return false;
                    }
                    dx = dx + 1;
                }
                dy = dy + 1;
            }
            true
        } else {
            false
        }
    }

    /// The shape turned a quarter clockwise.
    pub fn rotate90(&self) -> (r: Shape)
        requires
            self@.wf(),
            self@.height > 0,
        ensures
            r@.wf(),
            r@ == self@.rotated90(),
    {
        let ghost m = self@;
        let w = self.size.x;
        let h = self.size.y;
        proof {
            assert(h * w == w * h) by (nonlinear_arith);
        }
        let mut dest = Shape::new(UVec2::new(h, w), false);
        proof {
            assert forall|i: int| 0 <= i < m.cells.len() implies #[trigger] dest@.cells[i] == if (h - 1 - i % (h as int)) < 0 { m.at(i / (h as int), h - 1 - i % (h as int)) } else { false } by {
                lemma_cell_at(dest@, i);
            }
        }
        let mut y: u32 = 0;
        while y < h
            invariant
                m == self@,
                m.wf(),
                w == m.width,
                h == m.height,
                h > 0,
                h * w == w * h,
                dest@.wf(),
                dest@.width == h,
                dest@.height == w,
                y <= h,
                forall|i: int| 0 <= i < m.cells.len() ==> #[trigger] dest@.cells[i] == if (h - 1 - i % (h as int)) < y { m.at(i / (h as int), h - 1 - i % (h as int)) } else { false },
            decreases h - y,
        {
            proof {
                assert forall|i: int| 0 <= i < m.cells.len() implies #[trigger] dest@.cells[i] == if (h - 1 - i % (h as int)) < y || ((h - 1 - i % (h as int)) == y && (i / (h as int)) < 0) { m.at(i / (h as int), h - 1 - i % (h as int)) } else { false } by {
                    lemma_cell_at(dest@, i);
                }
            }
            let mut x: u32 = 0;
            while x < w
                invariant
                    m == self@,
                    m.wf(),
                    w == m.width,
                    h == m.height,
                    h * w == w * h,
                    dest@.wf(),
                    dest@.width == h,
                    dest@.height == w,
                    y < h,
                    x <= w,
                    forall|i: int| 0 <= i < m.cells.len() ==> #[trigger] dest@.cells[i] == if (h - 1 - i % (h as int)) < y || ((h - 1 - i % (h as int)) == y && (i / (h as int)) < x) { m.at(i / (h as int), h - 1 - i % (h as int)) } else { false },
                decreases w - x,
            {
                proof {
                    lemma_at_cell(m, x as int, y as int);
                    lemma_at_cell(dest@, (h - y - 1) as int, x as int);
                    assert(x + y * w == y * w + x);
                }
                let b = self.fill[self.index(UVec2::new(x, y))];
                let slot: u32 = h - y - 1 + x * h;
                let ghost before = dest@.cells;
                dest.fill.set(slot as usize, b);
                proof {
                    assert forall|i: int| 0 <= i < m.cells.len() implies #[trigger] dest@.cells[i] == if (h - 1 - i % (h as int)) < y || ((h - 1 - i % (h as int)) == y && (i / (h as int)) < x + 1) { m.at(i / (h as int), h - 1 - i % (h as int)) } else { false } by {
                        lemma_cell_at(dest@, i);
                        if i != slot {
                            assert(dest@.cells[i] == before[i]);
                        }
                    }
                }
                x = x + 1;
            }
            proof {
                assert forall|i: int| 0 <= i < m.cells.len() implies #[trigger] dest@.cells[i] == if (h - 1 - i % (h as int)) < y + 1 { m.at(i / (h as int), h - 1 - i % (h as int)) } else { false } by {
                    lemma_cell_at(dest@, i);
                }
            }
            y = y + 1;
        }
        proof {
            assert forall|i: int| 0 <= i < m.cells.len() implies #[trigger] dest@.cells[i] == m.rotated90().cells[i] by {
                lemma_cell_at(dest@, i);
            }
            assert(dest@.cells =~= m.rotated90().cells);
        }
        dest
    }

    /// The shape turned half a turn.
    pub fn rotate180(&self) -> (r: Shape)
        requires
            self@.wf(),
            self@.height > 0,
        ensures
            r@.wf(),
            r@ == self@.rotated180(),
    {
        let ghost m = self@;
        let w = self.size.x;
        let h = self.size.y;
        proof {
            assert(h * w == w * h) by (nonlinear_arith);
        }
        let mut dest = Shape::new(UVec2::new(w, h), false);
        proof {
            assert forall|i: int| 0 <= i < m.cells.len() implies #[trigger] dest@.cells[i] == if (h - 1 - i / (w as int)) < 0 { m.at(w - 1 - i % (w as int), h - 1 - i / (w as int)) } else { false } by {
                lemma_cell_at(dest@, i);
            }
        }
        let mut y: u32 = 0;
        while y < h
            invariant
                m == self@,
                m.wf(),
                w == m.width,
                h == m.height,
                h > 0,
                h * w == w * h,
                dest@.wf(),
                dest@.width == w,
                dest@.height == h,
                y <= h,
                forall|i: int| 0 <= i < m.cells.len() ==> #[trigger] dest@.cells[i] == if (h - 1 - i / (w as int)) < y { m.at(w - 1 - i % (w as int), h - 1 - i / (w as int)) } else { false },
            decreases h - y,
        {
            proof {
                assert forall|i: int| 0 <= i < m.cells.len() implies #[trigger] dest@.cells[i] == if (h - 1 - i / (w as int)) < y || ((h - 1 - i / (w as int)) == y && (w - 1 - i % (w as int)) < 0) { m.at(w - 1 - i % (w as int), h - 1 - i / (w as int)) } else { false } by {
                    lemma_cell_at(dest@, i);
                }
            }
            let mut x: u32 = 0;
            while x < w
                invariant
                    m == self@,
                    m.wf(),
                    w == m.width,
                    h == m.height,
                    h * w == w * h,
                    dest@.wf(),
                    dest@.width == w,
                    dest@.height == h,
                    y < h,
                    x <= w,
                    forall|i: int| 0 <= i < m.cells.len() ==> #[trigger] dest@.cells[i] == if (h - 1 - i / (w as int)) < y || ((h - 1 - i / (w as int)) == y && (w - 1 - i % (w as int)) < x) { m.at(w - 1 - i % (w as int), h - 1 - i / (w as int)) } else { false },
                decreases w - x,
            {
                proof {
                    lemma_at_cell(m, x as int, y as int);
                    lemma_at_cell(dest@, (w - x - 1) as int, (h - y - 1) as int);
                    assert(x + y * w == y * w + x);
                }
                let b = self.fill[self.index(UVec2::new(x, y))];
                let slot: u32 = w - x - 1 + (h - y - 1) * w;
                let ghost before = dest@.cells;
                dest.fill.set(slot as usize, b);
                proof {
                    assert forall|i: int| 0 <= i < m.cells.len() implies #[trigger] dest@.cells[i] == if (h - 1 - i / (w as int)) < y || ((h - 1 - i / (w as int)) == y && (w - 1 - i % (w as int)) < x + 1) { m.at(w - 1 - i % (w as int), h - 1 - i / (w as int)) } else { false } by {
                        lemma_cell_at(dest@, i);
                        if i != slot {
                            assert(dest@.cells[i] == before[i]);
                        }
                    }
                }
                x = x + 1;
            }
            proof {
                assert forall|i: int| 0 <= i < m.cells.len() implies #[trigger] dest@.cells[i] == if (h - 1 - i / (w as int)) < y + 1 { m.at(w - 1 - i % (w as int), h - 1 - i / (w as int)) } else { false } by {
                    lemma_cell_at(dest@, i);
                }
            }
            y = y + 1;
        }
        proof {
            assert forall|i: int| 0 <= i < m.cells.len() implies #[trigger] dest@.cells[i] == m.rotated180().cells[i] by {
                lemma_cell_at(dest@, i);
            }
            assert(dest@.cells =~= m.rotated180().cells);
        }
        dest
    }

    /// The shape turned three quarters clockwise.
    pub fn rotate270(&self) -> (r: Shape)
        requires
            self@.wf(),
            self@.height > 0,
        ensures
            r@.wf(),
            r@ == self@.rotated270(),
    {
        let ghost m = self@;
        let w = self.size.x;
        let h = self.size.y;
        proof {
            assert(h * w == w * h) by (nonlinear_arith);
        }
        let mut dest = Shape::new(UVec2::new(h, w), false);
        proof {
            assert forall|i: int| 0 <= i < m.cells.len() implies #[trigger] dest@.cells[i] == if (i % (h as int)) < 0 { m.at(w - 1 - i / (h as int), i % (h as int)) } else { false } by {
                lemma_cell_at(dest@, i);
            }
        }
        let mut y: u32 = 0;
        while y < h
            invariant
                m == self@,
                m.wf(),
                w == m.width,
                h == m.height,
                h > 0,
                h * w == w * h,
                dest@.wf(),
                dest@.width == h,
                dest@.height == w,
                y <= h,
                forall|i: int| 0 <= i < m.cells.len() ==> #[trigger] dest@.cells[i] == if (i % (h as int)) < y { m.at(w - 1 - i / (h as int), i % (h as int)) } else { false },
            decreases h - y,
        {
            proof {
                assert forall|i: int| 0 <= i < m.cells.len() implies #[trigger] dest@.cells[i] == if (i % (h as int)) < y || ((i % (h as int)) == y && (w - 1 - i / (h as int)) < 0) { m.at(w - 1 - i / (h as int), i % (h as int)) } else { false } by {
                    lemma_cell_at(dest@, i);
                }
            }
            let mut x: u32 = 0;
            while x < w
                invariant
                    m == self@,
                    m.wf(),
                    w == m.width,
                    h == m.height,
                    h * w == w * h,
                    dest@.wf(),
                    dest@.width == h,
                    dest@.height == w,
                    y < h,
                    x <= w,
                    forall|i: int| 0 <= i < m.cells.len() ==> #[trigger] dest@.cells[i] == if (i % (h as int)) < y || ((i % (h as int)) == y && (w - 1 - i / (h as int)) < x) { m.at(w - 1 - i / (h as int), i % (h as int)) } else { false },
                decreases w - x,
            {
                proof {
                    lemma_at_cell(m, x as int, y as int);
                    lemma_at_cell(dest@, y as int, (w - x - 1) as int);
                    assert(x + y * w == y * w + x);
                }
                let b = self.fill[self.index(UVec2::new(x, y))];
                let slot: u32 = y + (w - x - 1) * h;
                let ghost before = dest@.cells;
                dest.fill.set(slot as usize, b);
                proof {
                    assert forall|i: int| 0 <= i < m.cells.len() implies #[trigger] dest@.cells[i] == if (i % (h as int)) < y || ((i % (h as int)) == y && (w - 1 - i / (h as int)) < x + 1) { m.at(w - 1 - i / (h as int), i % (h as int)) } else { false } by {
                        lemma_cell_at(dest@, i);
                        if i != slot {
                            assert(dest@.cells[i] == before[i]);
                        }
                    }
                }
                x = x + 1;
            }
            proof {
                assert forall|i: int| 0 <= i < m.cells.len() implies #[trigger] dest@.cells[i] == if (i % (h as int)) < y + 1 { m.at(w - 1 - i / (h as int), i % (h as int)) } else { false } by {
                    lemma_cell_at(dest@, i);
                }
            }
            y = y + 1;
        }
        proof {
            assert forall|i: int| 0 <= i < m.cells.len() implies #[trigger] dest@.cells[i] == m.rotated270().cells[i] by {
                lemma_cell_at(dest@, i);
            }
            assert(dest@.cells =~= m.rotated270().cells);
        }
        dest
    }

    /// A copy of this shape.
    pub fn duplicate(&self) -> (r: Shape)
        ensures
            r@ == self@,
    {
        let mut fill: Vec<bool> = Vec::new();
        let mut i: usize = 0;
        while i < self.fill.len()
            invariant
                i <= self.fill.len(),
                fill@ == self.fill@.subrange(0, i as int),
            decreases self.fill.len() - i,
        {
            fill.push(self.fill[i]);
            i = i + 1;
            assert(fill@ =~= self.fill@.subrange(0, i as int));
        }
        assert(fill@ =~= self.fill@);
        Shape { size: self.size, fill }
    }

    /// The indices of the filled slots, in increasing order.
    pub fn slots(&self) -> (r: Vec<usize>)
        ensures
            forall|k: int| 0 <= k < r.len() ==> #[trigger] r[k] < self@.cells.len() && self@.cells[r[k] as int],
            forall|k: int, l: int| 0 <= k < l < r.len() ==> #[trigger] r[k] < #[trigger] r[l],
            forall|i: int| 0 <= i < self@.cells.len() && #[trigger] self@.cells[i] ==> r@.contains(i as usize),
    {
        let mut r: Vec<usize> = Vec::new();
        let mut i: usize = 0;
        while i < self.fill.len()
            invariant
                i <= self.fill.len(),
                forall|k: int| 0 <= k < r.len() ==> #[trigger] r[k] < i && self.fill@[r[k] as int],
                forall|k: int, l: int| 0 <= k < l < r.len() ==> #[trigger] r[k] < #[trigger] r[l],
                forall|j: int| 0 <= j < i && #[trigger] self.fill@[j] ==> r@.contains(j as usize),
            decreases self.fill.len() - i,
        {
            if self.fill[i] {
                let ghost before = r@;
                r.push(i);
                proof {
                    assert forall|j: int| 0 <= j < i + 1 && #[trigger] self.fill@[j] implies r@.contains(j as usize) by {
                        if j < i {
                            let k = choose|k: int| 0 <= k < before.len() && before[k] == j as usize;
                            assert(r@[k] == j as usize);
                        } else {
                            assert(r@[before.len() as int] == j as usize);
                        }
                    }
                }
            }
            i = i + 1;
        }
        r
    }

    /// The rows of the shape, top to bottom.
    pub fn rows(&self) -> (r: Vec<Vec<bool>>)
        requires
            self@.wf(),
        ensures
            r.len() == self@.height,
            forall|y: int|
                0 <= y < r.len() ==> #[trigger] r[y]@ == self@.cells.subrange(
                    y * self@.width,
                    y * self@.width + self@.width,
                ),
    {
        let ghost m = self@;
        let w = self.size.x as usize;
        let h = self.size.y as usize;
        let mut r: Vec<Vec<bool>> = Vec::new();
        let mut y: usize = 0;
        while y < h
            invariant
                m == self@,
                m.wf(),
                w == m.width,
                h == m.height,
                y <= h,
                r.len() == y,
                forall|k: int| 0 <= k < r.len() ==> #[trigger] r[k]@ == m.cells.subrange(k * w, k * w + w),
            decreases h - y,
        {
            proof {
                lemma_mul_le(y as int, w as int, (h - 1) as int, w as int);
                assert((h - 1) * w + w == w * h) by (nonlinear_arith);
            }
            let start: usize = y * w;
            let mut row: Vec<bool> = Vec::new();
            let mut x: usize = 0;
            while x < w
                invariant
                    m == self@,
                    m.wf(),
                    start + w <= m.cells.len(),
                    x <= w,
                    row@ == m.cells.subrange(start as int, start + x),
                decreases w - x,
            {
                row.push(self.fill[start + x]);
                x = x + 1;
                assert(row@ =~= m.cells.subrange(start as int, start + x));
            }
            r.push(row);
            y = y + 1;
        }
        r
    }

    /// The shape drawn as text, one line per row: `'\u{25A0}'` for a filled slot and
    /// `'\u{25A1}'` for an empty one, each row ended by a newline.
    pub fn text(&self) -> (r: Vec<char>)
        requires
            self@.wf(),
        ensures
            r@ == rows_text(self@, self@.height),
    {
        let ghost m = self@;
        let w = self.size.x as usize;
        let h = self.size.y as usize;
        let mut r: Vec<char> = Vec::new();
        let mut y: usize = 0;
        while y < h
            invariant
                m == self@,
                m.wf(),
                w == m.width,
                h == m.height,
                y <= h,
                r@ == rows_text(m, y as nat),
            decreases h - y,
        {
            let ghost prefix = r@;
            let mut x: usize = 0;
            while x < w
                invariant
                    m == self@,
                    m.wf(),
                    w == m.width,
                    h == m.height,
                    y < h,
                    x <= w,
                    r@ == prefix + row_text(m, y as int).subrange(0, x as int),
                decreases w - x,
            {
                proof {
                    lemma_at_cell(m, x as int, y as int);
                }
                let c = if self.fill[y * w + x] { '\u{25A0}' } else { '\u{25A1}' };
                r.push(c);
                x = x + 1;
                assert(r@ =~= prefix + row_text(m, y as int).subrange(0, x as int));
            }
            r.push('\n');
            assert(row_text(m, y as int).subrange(0, w as int) =~= row_text(m, y as int));
            assert(r@ =~= rows_text(m, (y + 1) as nat));
            y = y + 1;
        }
        r
    }

    /// The shape drawn as text (see [`Shape::text`]).
    pub fn to_string(&self) -> (r: String)
        requires
            self@.wf(),
        ensures
            r@ == rows_text(self@, self@.height),
    {
        string_from_chars(self.text())
    }

    /// The slot at cell `index`: its column and row.
    pub fn slot(&self, index: usize) -> (r: UVec2)
        requires
            self@.wf(),
            index < self@.cells.len(),
        ensures
            r.x == self@.col(index as int),
            r.y == self@.row(index as int),
            r.x < self@.width,
            r.y < self@.height,
            r.x + r.y * self@.width == index,
    {
        proof {
            lemma_cell_at(self@, index as int);
        }
        let index = index as u32;
        let w = self.size.x;
        UVec2::new(index % w, index / w)
    }
}

/// Collects `chars` into a `String` with `String::from_iter`, which std documents as pushing each
/// character in order; the contract claims the string's characters are exactly `chars`.
#[verifier::external_body]
fn string_from_chars(chars: Vec<char>) -> (r: String)
    ensures
        r@ == chars@,
{
    String::from_iter(chars)
}

impl Default for Shape {
    /// A single filled slot.
    fn default() -> (r: Shape)
        ensures
            r@.wf(),
            r@.width == 1,
            r@.height == 1,
            r@.cells == seq![true],
    {
        let mut fill: Vec<bool> = Vec::new();
        fill.push(true);
        Shape { size: UVec2::new(1, 1), fill }
    }
}

impl vstd::std_specs::ops::NotSpecImpl for Shape {
    /// The generic operator contract is not used: `not` states its result over the view instead.
    open spec fn obeys_not_spec() -> bool {
        false
    }

    open spec fn not_req(self) -> bool {
        true
    }

    open spec fn not_spec(self) -> Shape {
        self
    }
}

impl core::ops::Not for Shape {
    type Output = Shape;

    /// Every slot flipped.
    fn not(self) -> (r: Shape)
        ensures
            r@ == self@.inverted(),
    {
        let mut s = self;
        let ghost m = s@;
        let mut i: usize = 0;
        while i < s.fill.len()
            invariant
                s.size == self.size,
                m == self@,
                s.fill.len() == m.cells.len(),
                i <= s.fill.len(),
                forall|j: int| 0 <= j < i ==> #[trigger] s.fill@[j] == !m.cells[j],
                forall|j: int| i <= j < s.fill.len() ==> #[trigger] s.fill@[j] == m.cells[j],
            decreases s.fill.len() - i,
        {
            let v = !s.fill[i];
            s.fill.set(i, v);
            i = i + 1;
        }
        assert(s@.cells =~= m.inverted().cells);
        s
    }
}

} // verus!
