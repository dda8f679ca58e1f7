//! A container's shape as the union of the items placed in it: placing items one after the
//! other where each fits, and taking one of them out again, leaves the shape the others make.

use vstd::prelude::*;

use crate::shape::{lemma_at_cell, lemma_cell_at, ShapeView};

verus! {

/// Cell `i` of a grid `m` lies under a filled slot of `item` placed at `index`, inside `m`.
pub open spec fn footprint(m: ShapeView, item: ShapeView, index: int, i: int) -> bool {
    &&& m.overlay_in_bounds(item, index)
    &&& m.covered(item, index, m.col(i), m.row(i))
    &&& m.under(item, index, m.col(i), m.row(i))
}

/// `m` with the items `placements` (each a shape and the cell of its top-left slot) painted in,
/// one after the other.
pub open spec fn painted_all(m: ShapeView, placements: Seq<(ShapeView, int)>) -> ShapeView
    decreases placements.len(),
{
    if placements.len() == 0 {
        m
    } else {
        let last = placements.last();
        painted_all(m, placements.drop_last()).painted(last.0, last.1)
    }
}

/// Each item fits where it is placed, in `m` with the items before it painted in.
pub open spec fn all_fit(m: ShapeView, placements: Seq<(ShapeView, int)>) -> bool {
    forall|k: int|
        0 <= k < placements.len() ==> painted_all(m, placements.take(k)).fits(
            #[trigger] placements[k].0,
            placements[k].1,
        )
}

/// Every placed item is a well-formed shape.
pub open spec fn items_wf(placements: Seq<(ShapeView, int)>) -> bool {
    forall|k: int| 0 <= k < placements.len() ==> (#[trigger] placements[k]).0.wf()
}

/// Some placed item covers cell `i` with a filled slot.
pub open spec fn placed_at(m: ShapeView, placements: Seq<(ShapeView, int)>, i: int) -> bool {
    exists|k: int| 0 <= k < placements.len() && #[trigger] footprint(m, placements[k].0, placements[k].1, i)
}

/// Painting one item fills exactly the cells of its footprint.
proof fn lemma_painted_cell(m: ShapeView, item: ShapeView, index: int, i: int)
    requires
        m.wf(),
        0 <= i < m.cells.len(),
    ensures
        m.painted(item, index).wf(),
        m.painted(item, index).same_size(m),
        m.painted(item, index).cells[i] == (m.cells[i] || footprint(m, item, index, i)),
{
}

/// Erasing one item empties exactly the cells of its footprint.
proof fn lemma_unpainted_cell(m: ShapeView, item: ShapeView, index: int, i: int)
    requires
        m.wf(),
        0 <= i < m.cells.len(),
    ensures
        m.unpainted(item, index).wf(),
        m.unpainted(item, index).same_size(m),
        m.unpainted(item, index).cells[i] == (m.cells[i] && !footprint(m, item, index, i)),
{
}

/// Painting items in keeps the grid's size, and fills a cell when it was filled or an item
/// covers it.
pub proof fn lemma_painted_all(m: ShapeView, placements: Seq<(ShapeView, int)>)
    requires
        m.wf(),
    ensures
        painted_all(m, placements).wf(),
        painted_all(m, placements).same_size(m),
        forall|i: int|
            0 <= i < m.cells.len() ==> #[trigger] painted_all(m, placements).cells[i] == (m.cells[i]
                || placed_at(m, placements, i)),
    decreases placements.len(),
{
    if placements.len() > 0 {
        let rest = placements.drop_last();
        let last = placements.last();
        lemma_painted_all(m, rest);
        let p = painted_all(m, rest);
        assert forall|i: int|
            0 <= i < m.cells.len() implies #[trigger] painted_all(m, placements).cells[i] == (m.cells[i]
            || placed_at(m, placements, i)) by {
            lemma_painted_cell(p, last.0, last.1, i);
            assert(footprint(p, last.0, last.1, i) == footprint(m, last.0, last.1, i));
            if placed_at(m, rest, i) {
                let k = choose|k: int| 0 <= k < rest.len() && #[trigger] footprint(m, rest[k].0, rest[k].1, i);
                assert(placements[k] == rest[k]);
            }
            if footprint(m, last.0, last.1, i) {
                assert(placements[placements.len() - 1] == last);
            }
            if placed_at(m, placements, i) {
                let k = choose|k: int|
                    0 <= k < placements.len() && #[trigger] footprint(m, placements[k].0, placements[k].1, i);
                if k < placements.len() - 1 {
                    assert(rest[k] == placements[k]);
                }
            }
        }
    }
}

/// Where an item fits, the cells of its footprint are empty.
proof fn lemma_fits_footprint_empty(m: ShapeView, item: ShapeView, index: int, i: int)
    requires
        m.wf(),
        item.wf(),
        0 <= i < m.cells.len(),
        m.fits(item, index),
        footprint(m, item, index, i),
    ensures
        !m.cells[i],
{
    lemma_cell_at(m, i);
    let dx = m.col(i) - m.col(index);
    let dy = m.row(i) - m.row(index);
    assert(!(item.at(dx, dy) && m.at(m.col(index) + dx, m.row(index) + dy)));
}

/// Footprints depend only on the grid's size.
proof fn lemma_footprint_same_size(a: ShapeView, b: ShapeView, item: ShapeView, index: int, i: int)
    requires
        a.same_size(b),
    ensures
        footprint(a, item, index, i) == footprint(b, item, index, i),
{
}

/// When the items fit one after the other, a cell under item `j` was empty to begin with and
/// lies under no other item.
pub proof fn lemma_footprints_disjoint(m: ShapeView, placements: Seq<(ShapeView, int)>, j: int, i: int)
    requires
        m.wf(),
        items_wf(placements),
        all_fit(m, placements),
        0 <= j < placements.len(),
        0 <= i < m.cells.len(),
        footprint(m, placements[j].0, placements[j].1, i),
    ensures
        !m.cells[i],
        forall|k: int| 0 <= k < placements.len() && k != j ==> !#[trigger] footprint(m, placements[k].0, placements[k].1, i),
{
    let pj = placements[j];
    let before_j = painted_all(m, placements.take(j));
    lemma_painted_all(m, placements.take(j));
    assert(painted_all(m, placements.take(j)).fits(placements[j].0, placements[j].1));
    lemma_footprint_same_size(before_j, m, pj.0, pj.1, i);
    lemma_fits_footprint_empty(before_j, pj.0, pj.1, i);
    assert forall|k: int| 0 <= k < placements.len() && k != j implies !#[trigger] footprint(
        m,
        placements[k].0,
        placements[k].1,
        i,
    ) by {
        let pk = placements[k];
        if k < j {
            if footprint(m, pk.0, pk.1, i) {
                assert(placements.take(j)[k] == pk);
                assert(placed_at(m, placements.take(j), i));
            }
        } else {
            if footprint(m, pk.0, pk.1, i) {
                let before_k = painted_all(m, placements.take(k));
                lemma_painted_all(m, placements.take(k));
                assert(placements.take(k)[j] == pj);
                assert(placed_at(m, placements.take(k), i));
                assert(before_k.fits(placements[k].0, placements[k].1));
                lemma_footprint_same_size(before_k, m, pk.0, pk.1, i);
                lemma_fits_footprint_empty(before_k, pk.0, pk.1, i);
            }
        }
    }
}

/// A container's shape is the union of the items placed in it: with items placed one after the
/// other where each fits, erasing item `j` gives the shape painted with the other items only.
pub proof fn law_unpaint_placed_item(m: ShapeView, placements: Seq<(ShapeView, int)>, j: int)
    requires
        m.wf(),
        items_wf(placements),
        all_fit(m, placements),
        0 <= j < placements.len(),
    ensures
        painted_all(m, placements).unpainted(placements[j].0, placements[j].1) == painted_all(
            m,
            placements.remove(j),
        ),
{
    let all = painted_all(m, placements);
    let rest = placements.remove(j);
    let pj = placements[j];
    lemma_painted_all(m, placements);
    lemma_painted_all(m, rest);
    let lhs = all.unpainted(pj.0, pj.1);
    let rhs = painted_all(m, rest);
    assert forall|i: int| 0 <= i < m.cells.len() implies lhs.cells[i] == rhs.cells[i] by {
        lemma_unpainted_cell(all, pj.0, pj.1, i);
        lemma_footprint_same_size(all, m, pj.0, pj.1, i);
        assert(rhs.cells[i] == (m.cells[i] || placed_at(m, rest, i)));
        assert(all.cells[i] == (m.cells[i] || placed_at(m, placements, i)));
        if footprint(m, pj.0, pj.1, i) {
            lemma_footprints_disjoint(m, placements, j, i);
            if placed_at(m, rest, i) {
                let k = choose|k: int| 0 <= k < rest.len() && #[trigger] footprint(m, rest[k].0, rest[k].1, i);
                if k < j {
                    assert(rest[k] == placements[k]);
                } else {
                    assert(rest[k] == placements[k + 1]);
                }
            }
        } else {
            if placed_at(m, placements, i) {
                let k = choose|k: int|
                    0 <= k < placements.len() && #[trigger] footprint(m, placements[k].0, placements[k].1, i);
                assert(k != j);
                if k < j {
                    assert(rest[k] == placements[k]);
                } else {
                    assert(rest[k - 1] == placements[k]);
                }
            }
            if placed_at(m, rest, i) {
                let k = choose|k: int| 0 <= k < rest.len() && #[trigger] footprint(m, rest[k].0, rest[k].1, i);
                if k < j {
                    assert(rest[k] == placements[k]);
                } else {
                    assert(rest[k] == placements[k + 1]);
                }
            }
        }
    }
    assert(lhs.cells =~= rhs.cells);
}

} // verus!
