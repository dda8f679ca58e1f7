//! Filling a new container with its starting items: each goes to the first slot where it fits
//! beside the ones placed before it.

use vstd::prelude::*;

use crate::contents::grid::GridContents;
use crate::contents::storage::{first_fit, first_fit_index, law_first_fit, searchable, slot_at};
use crate::contents::Slot;
use crate::item::Item;
use crate::occupancy::{all_fit, lemma_painted_all, painted_all};
use crate::shape::ShapeView;

verus! {

/// Where `items` go when placed one after the other in `m`, each at the first index below `n`
/// where it fits with the ones before it painted in (a shape and the index of its top-left
/// slot per item); `None` when one of them fits nowhere.
pub open spec fn placement(m: ShapeView, items: Seq<ShapeView>, n: nat) -> Option<
    Seq<(ShapeView, int)>,
>
    decreases items.len(),
{
    if items.len() == 0 {
        Some(Seq::empty())
    } else {
        match placement(m, items.drop_last(), n) {
            Some(ps) => match first_fit(painted_all(m, ps), items.last(), n) {
                Some(i) => Some(ps.push((items.last(), i as int))),
                None => None,
            },
            None => None,
        }
    }
}

/// The shapes of `items`.
pub open spec fn item_shapes(items: Seq<Item>) -> Seq<ShapeView> {
    items.map_values(|it: Item| it.shape@)
}

/// Once some items cannot all be placed, adding more after them changes nothing.
proof fn lemma_placement_none(m: ShapeView, items: Seq<ShapeView>, n: nat, k: int)
    requires
        0 <= k <= items.len(),
        placement(m, items.take(k), n) is None,
    ensures
        placement(m, items, n) is None,
    decreases items.len(),
{
    if k == items.len() {
        assert(items.take(k) =~= items);
    } else {
        assert(items.drop_last().take(k) =~= items.take(k));
        lemma_placement_none(m, items.drop_last(), n, k);
    }
}

/// A placement puts each item, in order, where it fits beside the ones placed before it, at the
/// first such index below `n`: no smaller index would have taken it.
pub proof fn law_placement_first_fit(m: ShapeView, items: Seq<ShapeView>, n: nat)
    requires
        placement(m, items, n) is Some,
    ensures
        ({
            let ps = placement(m, items, n)->0;
            &&& ps.len() == items.len()
            &&& all_fit(m, ps)
            &&& forall|k: int|
                0 <= k < ps.len() ==> {
                    &&& (#[trigger] ps[k]).0 == items[k]
                    &&& 0 <= ps[k].1 < n
                    &&& forall|j: int|
                        0 <= j < ps[k].1 ==> !painted_all(m, ps.take(k)).fits(items[k], j)
                }
        }),
    decreases items.len(),
{
    if items.len() > 0 {
        let rest = items.drop_last();
        law_placement_first_fit(m, rest, n);
        let qs = placement(m, rest, n)->0;
        let ps = placement(m, items, n)->0;
        law_first_fit(painted_all(m, qs), items.last(), n);
        assert(ps.take(qs.len() as int) =~= qs);
        assert forall|k: int| 0 <= k < ps.len() implies painted_all(m, ps.take(k)).fits(
            #[trigger] ps[k].0,
            ps[k].1,
        ) by {
            if k < qs.len() {
                assert(ps.take(k) =~= qs.take(k));
                assert(ps[k] == qs[k]);
            }
        }
        assert forall|k: int| 0 <= k < ps.len() implies {
            &&& (#[trigger] ps[k]).0 == items[k]
            &&& 0 <= ps[k].1 < n
            &&& forall|j: int| 0 <= j < ps[k].1 ==> !painted_all(m, ps.take(k)).fits(items[k], j)
        } by {
            if k < qs.len() {
                assert(ps.take(k) =~= qs.take(k));
                assert(ps[k] == qs[k]);
                assert(items[k] == rest[k]);
            }
        }
    }
}

/// Place `items` in `contents` one after the other, each at the first slot where it fits beside
/// the ones placed before it, and give their slots in order. When one of them fits nowhere,
/// nothing is placed and the result is `None`.
pub fn place_items(contents: &mut GridContents, items: &[Item]) -> (r: Option<Vec<Slot>>)
    requires
        old(contents).shape@.wf(),
        forall|k: int| 0 <= k < items@.len() ==> searchable(old(contents).shape@, #[trigger] items@[k].shape@),
    ensures
        final(contents).expands == old(contents).expands,
        final(contents).inline == old(contents).inline,
        final(contents).header == old(contents).header,
        match placement(old(contents).shape@, item_shapes(items@), old(contents).slot_count() as nat) {
            Some(ps) => {
                &&& r matches Some(slots)
                &&& slots@.len() == ps.len()
                &&& forall|k: int|
                    0 <= k < ps.len() ==> #[trigger] slots@[k] == slot_at(old(contents).shape@, ps[k].1)
                &&& final(contents).shape@ == painted_all(old(contents).shape@, ps)
            },
            None => r is None && final(contents).shape@ == old(contents).shape@,
        },
{
    let ghost m = contents.shape@;
    let ghost its = item_shapes(items@);
    let ghost n = contents.slot_count() as nat;
    let count = contents.slots();
    let mut shape = contents.shape.duplicate();
    let mut slots: Vec<Slot> = Vec::new();
    let ghost mut ps: Seq<(ShapeView, int)> = Seq::empty();
    let mut k: usize = 0;
    proof {
        assert(its.take(0) =~= Seq::<ShapeView>::empty());
    }
    while k < items.len()
        invariant
            m == contents.shape@,
            m.wf(),
            its == item_shapes(items@),
            n == contents.slot_count(),
            count == n,
            n <= m.cells.len() || n == 1,
            forall|j: int| 0 <= j < items@.len() ==> searchable(m, #[trigger] items@[j].shape@),
            k <= items.len(),
            placement(m, its.take(k as int), n) == Some(ps),
            shape@ == painted_all(m, ps),
            slots@.len() == k,
            ps.len() == k,
            forall|j: int| 0 <= j < k ==> #[trigger] slots@[j] == slot_at(m, ps[j].1),
        decreases items.len() - k,
    {
        proof {
            lemma_painted_all(m, ps);
            assert(searchable(m, items@[k as int].shape@));
            assert(its[k as int] == items@[k as int].shape@);
            assert(its.take(k + 1).drop_last() =~= its.take(k as int));
            assert(its.take(k + 1).last() == its[k as int]);
        }
        match first_fit_index(&shape, &items[k].shape, count) {
            Some(i) => {
                proof {
                    law_first_fit(shape@, items@[k as int].shape@, n);
                }
                let p = shape.slot(i);
                slots.push(Slot(p));
                shape.paint(&items[k].shape, i);
                proof {
                    let prev = ps;
                    ps = ps.push((its[k as int], i as int));
                    assert(ps.drop_last() =~= prev);
                    assert(slot_at(m, i as int) == Slot(p));
                }
            },
            None => {
                proof {
                    lemma_placement_none(m, its, n, k + 1);
                }
                return None;
            },
        }
        k = k + 1;
    }
    proof {
        assert(its.take(items@.len() as int) =~= its);
    }
    contents.shape = shape;
    Some(slots)
}

} // verus!
