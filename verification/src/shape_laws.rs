//! What holds of shapes across operations: painting and erasing, fitting, and turning.

use vstd::prelude::*;

use crate::grid_math::lemma_index_of_coords;
use crate::shape::{lemma_at_cell, lemma_cell_at, lemma_ext_at, ShapeView};

verus! {

/// Erasing a shape that was just painted where it fit gives back the shape painted on; the
/// painted shape keeps the size, so the erase is asked on the same inputs as the paint.
pub proof fn law_unpaint_undoes_paint(m: ShapeView, other: ShapeView, index: int)
    requires
        m.wf(),
        other.wf(),
        m.fits(other, index),
    ensures
        m.painted(other, index).wf(),
        m.painted(other, index).same_size(m),
        m.overlay_defined(other, index) ==> m.painted(other, index).overlay_defined(other, index),
        m.painted(other, index).unpainted(other, index) == m,
{
    let p = m.painted(other, index);
    let q = p.unpainted(other, index);
    assert forall|i: int| 0 <= i < m.cells.len() implies q.cells[i] == m.cells[i] by {
        lemma_cell_at(m, i);
        if m.covered(other, index, m.col(i), m.row(i)) {
            let dx = m.col(i) - m.col(index);
            let dy = m.row(i) - m.row(index);
            assert(!(other.at(dx, dy) && m.at(m.col(index) + dx, m.row(index) + dy)));
        }
    }
    assert(q.cells =~= m.cells);
}

/// Erasing the same shape twice at the same place erases no more than once.
pub proof fn law_unpaint_idempotent(m: ShapeView, other: ShapeView, index: int)
    requires
        m.wf(),
    ensures
        m.unpainted(other, index).unpainted(other, index) == m.unpainted(other, index),
{
    let u = m.unpainted(other, index);
    assert(u.unpainted(other, index).cells =~= u.cells);
}

/// Painting the same shape twice at the same place paints no more than once.
pub proof fn law_paint_idempotent(m: ShapeView, other: ShapeView, index: int)
    requires
        m.wf(),
    ensures
        m.painted(other, index).painted(other, index) == m.painted(other, index),
{
    let u = m.painted(other, index);
    assert(u.painted(other, index).cells =~= u.cells);
}

/// Once a shape has been painted where it fit, every slot it fills is filled in the result.
pub proof fn law_painted_slots_filled(m: ShapeView, other: ShapeView, index: int, dx: int, dy: int)
    requires
        m.wf(),
        other.wf(),
        m.overlay_in_bounds(other, index),
        0 <= index < m.cells.len(),
        0 <= dx < other.width,
        0 <= dy < other.height,
        other.at(dx, dy),
    ensures
        m.painted(other, index).at(m.col(index) + dx, m.row(index) + dy),
{
    lemma_cell_at(m, index);
    let x = m.col(index) + dx;
    let y = m.row(index) + dy;
    lemma_at_cell(m, x, y);
}

/// A shape with at least one filled slot no longer fits where it has just been painted.
pub proof fn law_painted_does_not_fit(m: ShapeView, other: ShapeView, index: int, dx: int, dy: int)
    requires
        m.wf(),
        other.wf(),
        m.overlay_in_bounds(other, index),
        0 <= index < m.cells.len(),
        0 <= dx < other.width,
        0 <= dy < other.height,
        other.at(dx, dy),
    ensures
        !m.painted(other, index).fits(other, index),
{
    law_painted_slots_filled(m, other, index, dx, dy);
}

/// Once a shape has been erased from a place inside a container no smaller than it, it fits
/// there: an item lifted out of its slot can always be put back.
pub proof fn law_fits_after_unpaint(m: ShapeView, other: ShapeView, index: int)
    requires
        m.wf(),
        other.wf(),
        0 <= index < m.cells.len(),
        other.width <= m.width,
        other.height <= m.height,
        m.overlay_in_bounds(other, index),
    ensures
        m.unpainted(other, index).fits(other, index),
{
    let u = m.unpainted(other, index);
    lemma_cell_at(m, index);
    assert forall|dx: int, dy: int|
        0 <= dx < other.width && 0 <= dy < other.height implies !(#[trigger] other.at(dx, dy) && u.at(
        u.col(index) + dx,
        u.row(index) + dy,
    )) by {
        lemma_at_cell(m, m.col(index) + dx, m.row(index) + dy);
    }
}

/// Painting a shape back where it has just been erased from, when all its filled slots were
/// filled there, gives back the shape erased from: an item dropped where it was picked up leaves
/// its container as it was.
pub proof fn law_repaint_after_unpaint(m: ShapeView, other: ShapeView, index: int)
    requires
        m.wf(),
        other.wf(),
        0 <= index < m.cells.len(),
        m.overlay_in_bounds(other, index),
        forall|dx: int, dy: int|
            0 <= dx < other.width && 0 <= dy < other.height && #[trigger] other.at(dx, dy) ==> m.at(
                m.col(index) + dx,
                m.row(index) + dy,
            ),
    ensures
        m.unpainted(other, index).painted(other, index) == m,
{
    let q = m.unpainted(other, index).painted(other, index);
    assert forall|i: int| 0 <= i < m.cells.len() implies q.cells[i] == m.cells[i] by {
        lemma_cell_at(m, i);
        if m.covered(other, index, m.col(i), m.row(i)) {
            let dx = m.col(i) - m.col(index);
            let dy = m.row(i) - m.row(index);
            if other.at(dx, dy) {
                assert(m.at(m.col(index) + dx, m.row(index) + dy));
            }
        }
    }
    assert(q.cells =~= m.cells);
}

/// Slot `(x, y)` of a shape turned a quarter is slot `(y, height - 1 - x)` of the unturned shape.
pub proof fn lemma_rotated90_at(m: ShapeView, x: int, y: int)
    requires
        m.wf(),
        m.height > 0,
        0 <= x < m.height,
        0 <= y < m.width,
    ensures
        m.rotated90().wf(),
        m.rotated90().at(x, y) == m.at(y, m.height - 1 - x),
{
    assert(m.height * m.width == m.width * m.height) by (nonlinear_arith);
    lemma_index_of_coords(m.height as int, m.width as int, x, y);
}

/// Slot `(x, y)` of a shape turned half a turn is slot `(width - 1 - x, height - 1 - y)` of the
/// unturned shape.
pub proof fn lemma_rotated180_at(m: ShapeView, x: int, y: int)
    requires
        m.wf(),
        0 <= x < m.width,
        0 <= y < m.height,
    ensures
        m.rotated180().wf(),
        m.rotated180().at(x, y) == m.at(m.width - 1 - x, m.height - 1 - y),
{
    lemma_at_cell(m, x, y);
}

/// Slot `(x, y)` of a shape turned three quarters is slot `(width - 1 - y, x)` of the unturned shape.
pub proof fn lemma_rotated270_at(m: ShapeView, x: int, y: int)
    requires
        m.wf(),
        m.height > 0,
        0 <= x < m.height,
        0 <= y < m.width,
    ensures
        m.rotated270().wf(),
        m.rotated270().at(x, y) == m.at(m.width - 1 - y, x),
{
    assert(m.height * m.width == m.width * m.height) by (nonlinear_arith);
    lemma_index_of_coords(m.height as int, m.width as int, x, y);
}

/// Two quarter turns make a half turn.
pub proof fn law_rotate90_twice(m: ShapeView)
    requires
        m.wf(),
        m.height > 0,
    ensures
        m.rotated90().rotated90() == m.rotated180(),
{
    let r1 = m.rotated90();
    let r2 = r1.rotated90();
    assert(m.height * m.width == m.width * m.height) by (nonlinear_arith);
    assert forall|x: int, y: int| 0 <= x < r2.width && 0 <= y < r2.height implies #[trigger] r2.at(x, y)
        == m.rotated180().at(x, y) by {
        lemma_rotated90_at(r1, x, y);
        lemma_rotated90_at(m, y, m.width - 1 - x);
        lemma_rotated180_at(m, x, y);
    }
    lemma_rotated90_at(m, 0, 0);
    lemma_rotated90_at(r1, 0, 0);
    lemma_rotated180_at(m, 0, 0);
    lemma_ext_at(r2, m.rotated180());
}

/// A quarter turn after a half turn makes three quarters.
pub proof fn law_rotate90_after_rotate180(m: ShapeView)
    requires
        m.wf(),
        m.height > 0,
    ensures
        m.rotated180().rotated90() == m.rotated270(),
{
    let r1 = m.rotated180();
    let r2 = r1.rotated90();
    assert(m.height * m.width == m.width * m.height) by (nonlinear_arith);
    assert forall|x: int, y: int| 0 <= x < r2.width && 0 <= y < r2.height implies #[trigger] r2.at(x, y)
        == m.rotated270().at(x, y) by {
        lemma_rotated90_at(r1, x, y);
        lemma_rotated180_at(m, y, m.height - 1 - x);
        lemma_rotated270_at(m, x, y);
    }
    lemma_rotated180_at(m, 0, 0);
    lemma_rotated90_at(r1, 0, 0);
    lemma_rotated270_at(m, 0, 0);
    lemma_ext_at(r2, m.rotated270());
}

/// A quarter turn after three quarters brings a shape back to where it started.
pub proof fn law_rotate90_after_rotate270(m: ShapeView)
    requires
        m.wf(),
        m.height > 0,
    ensures
        m.rotated270().rotated90() == m,
{
    let r1 = m.rotated270();
    let r2 = r1.rotated90();
    assert(m.height * m.width == m.width * m.height) by (nonlinear_arith);
    assert forall|x: int, y: int| 0 <= x < r2.width && 0 <= y < r2.height implies #[trigger] r2.at(x, y)
        == m.at(x, y) by {
        lemma_rotated90_at(r1, x, y);
        lemma_rotated270_at(m, y, r1.height - 1 - x);
    }
    lemma_rotated270_at(m, 0, 0);
    lemma_rotated90_at(r1, 0, 0);
    lemma_ext_at(r2, m);
}

/// Four quarter turns bring a shape back to where it started.
pub proof fn law_rotate90_four_times(m: ShapeView)
    requires
        m.wf(),
        m.height > 0,
    ensures
        m.rotated90().rotated90().rotated90().rotated90() == m,
{
    law_rotate90_twice(m);
    lemma_rotated180_at(m, 0, 0);
    law_rotate90_after_rotate180(m);
    lemma_rotated270_at(m, 0, 0);
    law_rotate90_after_rotate270(m);
}

/// Flipping every slot twice gives back the shape.
pub proof fn law_invert_twice(m: ShapeView)
    ensures
        m.inverted().inverted() == m,
{
    assert(m.inverted().inverted().cells =~= m.cells);
}

} // verus!
