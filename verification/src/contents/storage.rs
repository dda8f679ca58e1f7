//! The sections of the world's containers, and the moves of items between them.

use vstd::prelude::*;

use crate::contents::grid::{slot_index, GridContents};
use crate::contents::{Accepts, DragShape, Entity, Flags, Slot};
use crate::contents::{DragRotation, DragSlot};
use crate::events::{ContentsAction, ItemInsert, ItemMove, ItemRemove};
use crate::item::{rotated_by, Item, ItemRotation};
use crate::shape::{lemma_cell_at, Shape, ShapeView};
use crate::shape_laws::law_repaint_after_unpaint;
use crate::occupancy::{all_fit, items_wf, law_unpaint_placed_item, painted_all};
use crate::vec2::UVec2;

verus! {

/// The index of the first slot, below `n`, at which `item` fits in `m`.
pub open spec fn first_fit(m: ShapeView, item: ShapeView, n: nat) -> Option<nat>
    decreases n,
{
    if n == 0 {
        None
    } else {
        match first_fit(m, item, (n - 1) as nat) {
            Some(i) => Some(i),
            None => if m.fits(item, n - 1) {
                Some((n - 1) as nat)
            } else {
                None
            },
        }
    }
}

/// The index found by `first_fit` is below `n`, `item` fits there, and it fits at no smaller
/// index; when none is found, it fits nowhere below `n`.
pub proof fn law_first_fit(m: ShapeView, item: ShapeView, n: nat)
    ensures
        match first_fit(m, item, n) {
            Some(i) => i < n && m.fits(item, i as int) && forall|j: int|
                0 <= j < i ==> !#[trigger] m.fits(item, j),
            None => forall|j: int| 0 <= j < n ==> !#[trigger] m.fits(item, j),
        },
    decreases n,
{
    if n > 0 {
        law_first_fit(m, item, (n - 1) as nat);
    }
}

/// An item dropped back on its own slot in its own section, with its rotation unchanged,
/// leaves that section's grid as it was, when the item's filled slots were filled there.
pub proof fn law_drop_in_place<T: Accepts>(
    old: ContentsStorage<T>,
    new: ContentsStorage<T>,
    id: Entity,
    slot: Slot,
    new_slot: Slot,
    item: &Item,
    rotation: ItemRotation,
    new_rotation: ItemRotation,
    child_of: Entity,
    actions: Seq<ContentsAction>,
    k: int,
)
    requires
        ContentsStorage::<T>::drag_resolved(
            old,
            new,
            (child_of, slot),
            id,
            slot,
            new_slot,
            item,
            rotation,
            new_rotation,
            None,
            child_of,
            actions,
        ),
        !old.moves_into_itself(id, child_of),
        section_from(old.contents@, child_of, 0) == Some(k),
        ({
            let m = old.contents[k].contents.shape@;
            let o = rotated_by(item.shape@, rotation);
            let index = slot_index(m, slot);
            &&& m.wf()
            &&& o.wf()
            &&& 0 <= index < m.cells.len()
            &&& m.overlay_in_bounds(o, index)
            &&& forall|dx: int, dy: int|
                0 <= dx < o.width && 0 <= dy < o.height && #[trigger] o.at(dx, dy) ==> m.at(
                    m.col(index) + dx,
                    m.row(index) + dy,
                )
        }),
    ensures
        new.contents[k].contents.shape@ == old.contents[k].contents.shape@,
        new_slot == slot,
        new_rotation == rotation,
{
    let m = old.contents[k].contents.shape@;
    let o = rotated_by(item.shape@, rotation);
    law_repaint_after_unpaint(m, o, slot_index(m, slot));
}

/// Moving an item between two sections keeps each section's grid the union of the items placed
/// in it: when the source grid is the items `from_items` (one of them, `j`, the moved item at its
/// slot and rotation) placed where each fits, and the target grid is the items `to_items`, the
/// source becomes the other items and the target its items and the moved one.
pub proof fn law_move_keeps_occupancy<T: Accepts>(
    old: ContentsStorage<T>,
    new: ContentsStorage<T>,
    target: (Entity, Slot),
    id: Entity,
    slot: Slot,
    new_slot: Slot,
    item: &Item,
    rotation: ItemRotation,
    new_rotation: ItemRotation,
    drag_rotation: Option<&DragRotation>,
    child_of: Entity,
    actions: Seq<ContentsAction>,
    k1: int,
    k2: int,
    empty1: ShapeView,
    from_items: Seq<(ShapeView, int)>,
    j: int,
    empty2: ShapeView,
    to_items: Seq<(ShapeView, int)>,
)
    requires
        ContentsStorage::<T>::drag_resolved(
            old,
            new,
            target,
            id,
            slot,
            new_slot,
            item,
            rotation,
            new_rotation,
            drag_rotation,
            child_of,
            actions,
        ),
        !old.moves_into_itself(id, target.0),
        child_of != target.0,
        section_from(old.contents@, child_of, 0) == Some(k1),
        section_from(old.contents@, target.0, 0) == Some(k2),
        empty1.wf(),
        items_wf(from_items),
        all_fit(empty1, from_items),
        old.contents[k1].contents.shape@ == painted_all(empty1, from_items),
        0 <= j < from_items.len(),
        from_items[j] == (
            rotated_by(item.shape@, rotation),
            slot_index(old.contents[k1].contents.shape@, slot),
        ),
        old.contents[k2].contents.shape@ == painted_all(empty2, to_items),
    ensures
        new.contents[k1].contents.shape@ == painted_all(empty1, from_items.remove(j)),
        new.contents[k2].contents.shape@ == painted_all(
            empty2,
            to_items.push(
                (
                    rotated_by(item.shape@, new_rotation),
                    slot_index(old.contents[k2].contents.shape@, new_slot),
                ),
            ),
        ),
{
    lemma_section_from(old.contents@, child_of, 0);
    lemma_section_from(old.contents@, target.0, 0);
    law_unpaint_placed_item(empty1, from_items, j);
    let placed = to_items.push(
        (rotated_by(item.shape@, new_rotation), slot_index(old.contents[k2].contents.shape@, new_slot)),
    );
    assert(placed.drop_last() =~= to_items);
}

/// The slot at cell `i` of `m`.
pub open spec fn slot_at(m: ShapeView, i: int) -> Slot {
    Slot(UVec2 { x: m.col(i) as u32, y: m.row(i) as u32 })
}

/// What searching `m` for a place for `item` asks: both shapes are well formed, `item` has a
/// row, and the far corner of `item` placed anywhere in `m` is a `u32` coordinate.
pub open spec fn searchable(m: ShapeView, item: ShapeView) -> bool {
    &&& m.wf()
    &&& item.wf()
    &&& item.height > 0
    &&& m.width + item.width <= u32::MAX
    &&& m.height + item.height <= u32::MAX
}

/// A section of a container: a grid, the shape it is searched with while one of its own items
/// is dragged, and the flags it accepts.
pub struct Section<T> {
    pub id: Entity,
    pub contents: GridContents,
    pub drag_shape: Option<DragShape>,
    pub flags: Flags<T>,
}

impl<T> Section<T> {
    /// The shape an item is fitted against: the drag shape while there is one, else the grid's.
    pub open spec fn search_shape(&self) -> ShapeView {
        match self.drag_shape {
            Some(d) => d.0@,
            None => self.contents.shape@,
        }
    }

    /// The grid is well formed, and a drag shape has the grid's size.
    pub open spec fn wf(&self) -> bool {
        &&& self.contents.shape@.wf()
        &&& self.drag_shape matches Some(d) ==> d.0@.wf() && d.0@.same_size(self.contents.shape@)
    }
}

/// The sections of the world and its parent-child relation (each entry a parent and its
/// children, in order).
pub struct ContentsStorage<T> {
    pub contents: Vec<Section<T>>,
    pub children: Vec<(Entity, Vec<Entity>)>,
}

/// The children of `e`: those of the first entry from `i` on whose parent is `e`.
pub open spec fn children_from(ch: Seq<(Entity, Vec<Entity>)>, e: Entity, i: int) -> Option<
    Seq<Entity>,
>
    decreases ch.len() - i,
{
    if i < 0 || i >= ch.len() {
        None
    } else if ch[i].0 == e {
        Some(ch[i].1@)
    } else {
        children_from(ch, e, i + 1)
    }
}

/// The index of the first section from `i` on whose id is `e`.
pub open spec fn section_from<T>(secs: Seq<Section<T>>, e: Entity, i: int) -> Option<int>
    decreases secs.len() - i,
{
    if i < 0 || i >= secs.len() {
        None
    } else if secs[i].id == e {
        Some(i)
    } else {
        section_from(secs, e, i + 1)
    }
}

/// A found section index is in range and has the id searched for.
pub proof fn lemma_section_from<T>(secs: Seq<Section<T>>, e: Entity, i: int)
    requires
        0 <= i,
    ensures
        section_from(secs, e, i) matches Some(k) ==> i <= k < secs.len() && secs[k].id == e,
    decreases secs.len() - i,
{
    if 0 <= i < secs.len() && secs[i].id != e {
        lemma_section_from(secs, e, i + 1);
    }
}

/// The place a section with id `c` offers `item` (with `flags`): none when there is no such
/// section or it does not accept the flags.
pub open spec fn candidate<T: Accepts>(
    secs: Seq<Section<T>>,
    c: Entity,
    item: ShapeView,
    flags: Flags<T>,
) -> Option<(Entity, Slot)> {
    match section_from(secs, c, 0) {
        Some(k) => if secs[k].flags.0.accepts_spec(&flags.0) {
            match section_fit(secs[k], item) {
                Some(slot) => Some((c, slot)),
                None => None,
            }
        } else {
            None
        },
        None => None,
    }
}

/// The first place offered to `item` by the sections `kids[j..]`, in order.
pub open spec fn find_from<T: Accepts>(
    secs: Seq<Section<T>>,
    kids: Seq<Entity>,
    j: int,
    item: ShapeView,
    flags: Flags<T>,
) -> Option<(Entity, Slot)>
    decreases kids.len() - j,
{
    if j < 0 || j >= kids.len() {
        None
    } else {
        match candidate(secs, kids[j], item, flags) {
            Some(r) => Some(r),
            None => find_from(secs, kids, j + 1, item, flags),
        }
    }
}

/// The place found by searching `section` for `item`.
pub open spec fn section_fit<T>(section: Section<T>, item: ShapeView) -> Option<Slot> {
    fit_slot(section.search_shape(), item, section.contents.slot_count() as nat)
}

/// `b` is a child of `a`, or a descendant of one of its children within `depth - 1` more
/// generations, in the parent-child relation `ch`.
pub open spec fn descends(ch: Seq<(Entity, Vec<Entity>)>, a: Entity, b: Entity, depth: nat) -> bool
    decreases depth, 0int,
{
    if depth == 0 {
        false
    } else {
        match children_from(ch, a, 0) {
            Some(kids) => any_descends(ch, kids, 0, b, (depth - 1) as nat),
            None => false,
        }
    }
}

/// One of `kids[j..]` is `b`, or has `b` as a descendant within `depth` generations.
pub open spec fn any_descends(ch: Seq<(Entity, Vec<Entity>)>, kids: Seq<Entity>, j: int, b: Entity, depth: nat) -> bool
    decreases depth, kids.len() - j + 1,
{
    if j < 0 || j >= kids.len() {
        false
    } else {
        kids[j] == b || descends(ch, kids[j], b, depth) || any_descends(ch, kids, j + 1, b, depth)
    }
}

/// Searching more generations deep finds every descendant found before.
pub proof fn law_descends_deeper(ch: Seq<(Entity, Vec<Entity>)>, a: Entity, b: Entity, depth: nat)
    requires
        descends(ch, a, b, depth),
    ensures
        descends(ch, a, b, depth + 1),
    decreases depth, 0int,
{
    let kids = children_from(ch, a, 0)->0;
    lemma_any_descends_deeper(ch, kids, 0, b, (depth - 1) as nat);
}

/// One of `kids[j..]` found within `depth` generations is found within `depth + 1`.
proof fn lemma_any_descends_deeper(ch: Seq<(Entity, Vec<Entity>)>, kids: Seq<Entity>, j: int, b: Entity, depth: nat)
    requires
        any_descends(ch, kids, j, b, depth),
    ensures
        any_descends(ch, kids, j, b, depth + 1),
    decreases depth, kids.len() - j + 1,
{
    if kids[j] != b {
        if descends(ch, kids[j], b, depth) {
            law_descends_deeper(ch, kids[j], b, depth);
        } else {
            lemma_any_descends_deeper(ch, kids, j + 1, b, depth);
        }
    }
}

/// The entities among the first `j` of `kids` that are sections, in order.
pub open spec fn sections_among<T>(secs: Seq<Section<T>>, kids: Seq<Entity>, j: int) -> Seq<Entity>
    decreases j,
{
    if j <= 0 {
        Seq::empty()
    } else if section_from(secs, kids[j - 1], 0) is Some {
        sections_among(secs, kids, j - 1).push(kids[j - 1])
    } else {
        sections_among(secs, kids, j - 1)
    }
}

/// Some entity among the first `j` of `kids` is a section exactly when the sections among them
/// are not none.
proof fn lemma_sections_among_nonempty<T>(secs: Seq<Section<T>>, kids: Seq<Entity>, j: int)
    requires
        0 <= j <= kids.len(),
    ensures
        (sections_among(secs, kids, j).len() > 0) <==> (exists|l: int|
            0 <= l < j && (#[trigger] section_from(secs, kids[l], 0)) is Some),
    decreases j,
{
    if j > 0 {
        lemma_sections_among_nonempty(secs, kids, j - 1);
        if section_from(secs, kids[j - 1], 0) is Some {
            assert(sections_among(secs, kids, j).len() > 0);
        }
    }
}

/// An entity is a container exactly when opening it shows at least one section.
pub proof fn law_container_has_sections<T>(storage: ContentsStorage<T>, id: Entity)
    ensures
        (match children_from(storage.children@, id, 0) {
            Some(kids) => exists|j: int| 0 <= j < kids.len() && (#[trigger] section_from(storage.contents@, kids[j], 0)) is Some,
            None => false,
        }) <==> ((match children_from(storage.children@, id, 0) {
            Some(kids) => sections_among(storage.contents@, kids, kids.len() as int),
            None => Seq::empty(),
        }).len() > 0),
{
    if let Some(kids) = children_from(storage.children@, id, 0) {
        lemma_sections_among_nonempty(storage.contents@, kids, kids.len() as int);
    }
}

/// `item` fits at cell `i` of section `sec`: of its drag shape while one of its items is being
/// dragged (the grid with that item lifted out), else of its grid.
pub open spec fn fits_at<T>(sec: Section<T>, item: ShapeView, i: int) -> bool {
    match sec.drag_shape {
        Some(d) => d.0@.fits(item, i),
        None => sec.contents.shape@.fits(item, i),
    }
}

/// Entity `c` is a section that accepts `flags` and where `item` fits at one of its slots.
pub open spec fn has_room<T: Accepts>(secs: Seq<Section<T>>, c: Entity, item: ShapeView, flags: Flags<T>) -> bool {
    &&& section_from(secs, c, 0) matches Some(k)
    &&& secs[k].flags.0.accepts_spec(&flags.0)
    &&& exists|i: int| 0 <= i < secs[k].contents.slot_count() && #[trigger] fits_at(secs[k], item, i)
}

/// Entity `c` is a section that accepts `flags`, and `slot` is the first of its slots where
/// `item` fits.
pub open spec fn first_room<T: Accepts>(
    secs: Seq<Section<T>>,
    c: Entity,
    item: ShapeView,
    flags: Flags<T>,
    slot: Slot,
) -> bool {
    &&& section_from(secs, c, 0) matches Some(k)
    &&& secs[k].flags.0.accepts_spec(&flags.0)
    &&& exists|i: int|
        {
            &&& 0 <= i < secs[k].contents.slot_count()
            &&& #[trigger] fits_at(secs[k], item, i)
            &&& slot == match secs[k].drag_shape {
                Some(d) => slot_at(d.0@, i),
                None => slot_at(secs[k].contents.shape@, i),
            }
            &&& forall|i2: int| 0 <= i2 < i ==> !fits_at(secs[k], item, i2)
        }
}

/// Searching one child `c` finds the first slot with room there, or nothing when it has none.
proof fn lemma_candidate_room<T: Accepts>(secs: Seq<Section<T>>, c: Entity, item: ShapeView, flags: Flags<T>)
    ensures
        match candidate(secs, c, item, flags) {
            Some(r) => r.0 == c && first_room(secs, c, item, flags, r.1) && has_room(secs, c, item, flags),
            None => !has_room(secs, c, item, flags),
        },
{
    if let Some(k) = section_from(secs, c, 0) {
        let sec = secs[k];
        let m = sec.search_shape();
        let n = sec.contents.slot_count() as nat;
        law_first_fit(m, item, n);
        assert forall|i: int| #[trigger] fits_at(sec, item, i) == m.fits(item, i) by {}
        match first_fit(m, item, n) {
            Some(i) => {
                assert(fits_at(sec, item, i as int));
            },
            None => {},
        }
    }
}

/// Searching the children `kids[j..]` finds the first slot with room in the first of them that
/// has room, or nothing when none has.
proof fn lemma_find_from_room<T: Accepts>(
    secs: Seq<Section<T>>,
    kids: Seq<Entity>,
    j: int,
    item: ShapeView,
    flags: Flags<T>,
)
    requires
        0 <= j <= kids.len(),
    ensures
        match find_from(secs, kids, j, item, flags) {
            Some(r) => exists|l: int|
                j <= l < kids.len() && kids[l] == r.0 && #[trigger] first_room(secs, kids[l], item, flags, r.1)
                    && forall|l2: int| j <= l2 < l ==> !#[trigger] has_room(secs, kids[l2], item, flags),
            None => forall|l: int| j <= l < kids.len() ==> !#[trigger] has_room(secs, kids[l], item, flags),
        },
    decreases kids.len() - j,
{
    if j < kids.len() {
        lemma_candidate_room(secs, kids[j], item, flags);
        lemma_find_from_room(secs, kids, j + 1, item, flags);
        match candidate(secs, kids[j], item, flags) {
            Some(r) => {
                assert(first_room(secs, kids[j], item, flags, r.1));
            },
            None => {
                match find_from(secs, kids, j + 1, item, flags) {
                    Some(r) => {
                        let l = choose|l: int|
                            j + 1 <= l < kids.len() && kids[l] == r.0 && #[trigger] first_room(
                                secs,
                                kids[l],
                                item,
                                flags,
                                r.1,
                            ) && forall|l2: int| j + 1 <= l2 < l ==> !#[trigger] has_room(secs, kids[l2], item, flags);
                        assert(first_room(secs, kids[l], item, flags, r.1));
                    },
                    None => {},
                }
            },
        }
    }
}

/// Where an item dropped on container `target` goes (what `find_section_slot` returns): into the
/// first child of `target` that is a section accepting the item's flags and with room for it,
/// at the first of its slots where the item fits, searched in the section's drag shape while one
/// of its own items is being dragged (so the cells of that item count as free), else in its
/// grid; nowhere when no child section has room.
pub proof fn law_section_slot_for<T: Accepts>(s: ContentsStorage<T>, target: Entity, item: ShapeView, flags: Flags<T>)
    ensures
        match children_from(s.children@, target, 0) {
            None => s.section_slot_for(target, item, flags) is None,
            Some(kids) => match s.section_slot_for(target, item, flags) {
                Some(r) => exists|j: int|
                    0 <= j < kids.len() && kids[j] == r.0 && #[trigger] first_room(s.contents@, kids[j], item, flags, r.1)
                        && forall|l: int| 0 <= l < j ==> !#[trigger] has_room(s.contents@, kids[l], item, flags),
                None => forall|l: int| 0 <= l < kids.len() ==> !#[trigger] has_room(s.contents@, kids[l], item, flags),
            },
        },
{
    if let Some(kids) = children_from(s.children@, target, 0) {
        lemma_find_from_room(s.contents@, kids, 0, item, flags);
    }
}

/// The slot of the first cell, below `n`, at which `item` fits in `m`.
pub open spec fn fit_slot(m: ShapeView, item: ShapeView, n: nat) -> Option<Slot> {
    match first_fit(m, item, n) {
        Some(i) => Some(slot_at(m, i as int)),
        None => None,
    }
}

/// The shape an item is fitted against in `section`: `drag_shape` when there is one.
pub open spec fn search_shape_of(section: GridContents, drag_shape: Option<&DragShape>) -> ShapeView {
    match drag_shape {
        Some(d) => d.0@,
        None => section.shape@,
    }
}

/// `first_fit` stops at the first fitting index below `n`.
proof fn lemma_first_fit_step(m: ShapeView, item: ShapeView, n: nat)
    requires
        first_fit(m, item, n) is None,
    ensures
        first_fit(m, item, n + 1) == if m.fits(item, n as int) {
            Some(n)
        } else {
            None::<nat>
        },
{
}

/// Once a fitting index has been found below `n`, searching further finds the same one.
proof fn lemma_first_fit_stays(m: ShapeView, item: ShapeView, n: nat, k: nat)
    requires
        first_fit(m, item, n) is Some,
        n <= k,
    ensures
        first_fit(m, item, k) == first_fit(m, item, n),
    decreases k - n,
{
    if n < k {
        lemma_first_fit_stays(m, item, n, (k - 1) as nat);
    }
}

/// The first index below `n` at which `item` fits in `shape`, where `n` is at most the number
/// of cells of `shape`, or one.
pub fn first_fit_index(shape: &Shape, item: &Shape, n: usize) -> (r: Option<usize>)
    requires
        searchable(shape@, item@),
        n <= shape@.cells.len() || n == 1,
    ensures
        r == match first_fit(shape@, item@, n as nat) {
            Some(i) => Some(i as usize),
            None => None::<usize>,
        },
        r matches Some(i) ==> i < shape@.cells.len(),
{
    let ghost m = shape@;
    let ghost o = item@;
    let mut i: usize = 0;
    while i < n
        invariant
            m == shape@,
            o == item@,
            searchable(m, o),
            n <= m.cells.len() || n == 1,
            i <= n,
            first_fit(m, o, i as nat) is None,
        decreases n - i,
    {
        proof {
            lemma_first_fit_step(m, o, i as nat);
            if o.width <= m.width && o.height <= m.height {
                assert(m.cells.len() > 0) by (nonlinear_arith)
                    requires
                        m.cells.len() == m.width * m.height,
                        m.width > 0,
                        m.height >= o.height,
                        o.height > 0,
                ;
            }
            if i < m.cells.len() {
                lemma_cell_at(m, i as int);
            }
        }
        if shape.fits(item, i) {
            proof {
                lemma_first_fit_stays(m, o, (i + 1) as nat, n as nat);
                lemma_cell_at(m, i as int);
                if !(i < m.cells.len()) {
                    assert(m.row(i as int) + o.height <= m.height);
                }
            }
            return Some(i);
        }
        i = i + 1;
    }
    None
}

impl<T: Accepts> ContentsStorage<T> {
    /// Every section is well formed and can be searched for `item`.
    pub open spec fn searchable_for(&self, item: ShapeView) -> bool {
        forall|k: int|
            0 <= k < self.contents.len() ==> (#[trigger] self.contents[k]).wf() && searchable(
                self.contents[k].contents.shape@,
                item,
            )
    }

    /// The children of `e`.
    fn children_of(&self, e: Entity) -> (r: Option<&Vec<Entity>>)
        ensures
            match r {
                Some(v) => children_from(self.children@, e, 0) == Some(v@),
                None => children_from(self.children@, e, 0) is None,
            },
    {
        let mut i: usize = 0;
        while i < self.children.len()
            invariant
                i <= self.children.len(),
                children_from(self.children@, e, 0) == children_from(self.children@, e, i as int),
            decreases self.children.len() - i,
        {
            if self.children[i].0 == e {
                return Some(&self.children[i].1);
            }
            i = i + 1;
        }
        None
    }

    /// The index of the section with id `e`.
    fn section_index(&self, e: Entity) -> (r: Option<usize>)
        ensures
            match r {
                Some(k) => section_from(self.contents@, e, 0) == Some(k as int),
                None => section_from(self.contents@, e, 0) is None,
            },
    {
        let mut i: usize = 0;
        while i < self.contents.len()
            invariant
                i <= self.contents.len(),
                section_from(self.contents@, e, 0) == section_from(self.contents@, e, i as int),
            decreases self.contents.len() - i,
        {
            if self.contents[i].id == e {
                return Some(i);
            }
            i = i + 1;
        }
        None
    }

    /// Whether `id` has a section among its children.
    pub fn is_container(&self, id: Entity) -> (r: bool)
        ensures
            r == match children_from(self.children@, id, 0) {
                Some(kids) => exists|j: int|
                    0 <= j < kids.len() && (#[trigger] section_from(self.contents@, kids[j], 0)) is Some,
                None => false,
            },
    {
        match self.children_of(id) {
            Some(kids) => {
                let mut j: usize = 0;
                while j < kids.len()
                    invariant
                        j <= kids.len(),
                        children_from(self.children@, id, 0) == Some(kids@),
                        forall|l: int| 0 <= l < j ==> (#[trigger] section_from(self.contents@, kids@[l], 0)) is None,
                    decreases kids.len() - j,
                {
                    if self.section_index(kids[j]).is_some() {
                        assert(section_from(self.contents@, kids@[j as int], 0) is Some);
                        return true;
                    }
                    j = j + 1;
                }
                false
            },
            None => false,
        }
    }

    /// The sections among the children of `id`, in order: what opening container `id` shows.
    pub fn sections_of(&self, id: Entity) -> (r: Vec<Entity>)
        ensures
            r@ == match children_from(self.children@, id, 0) {
                Some(kids) => sections_among(self.contents@, kids, kids.len() as int),
                None => Seq::empty(),
            },
    {
        let mut r: Vec<Entity> = Vec::new();
        match self.children_of(id) {
            Some(kids) => {
                let mut j: usize = 0;
                while j < kids.len()
                    invariant
                        j <= kids.len(),
                        children_from(self.children@, id, 0) == Some(kids@),
                        r@ == sections_among(self.contents@, kids@, j as int),
                    decreases kids.len() - j,
                {
                    if self.section_index(kids[j]).is_some() {
                        r.push(kids[j]);
                    }
                    j = j + 1;
                }
            },
            None => {},
        }
        r
    }

    /// Whether `b` is a descendant of `a` within `depth` generations.
    fn descends_within(&self, a: Entity, b: Entity, depth: usize) -> (r: bool)
        ensures
            r == descends(self.children@, a, b, depth as nat),
        decreases depth,
    {
        if depth == 0 {
            return false;
        }
        match self.children_of(a) {
            Some(kids) => {
                let mut j: usize = 0;
                while j < kids.len()
                    invariant
                        j <= kids.len(),
                        depth > 0,
                        children_from(self.children@, a, 0) == Some(kids@),
                        any_descends(self.children@, kids@, 0, b, (depth - 1) as nat) == any_descends(
                            self.children@,
                            kids@,
                            j as int,
                            b,
                            (depth - 1) as nat,
                        ),
                    decreases kids.len() - j,
                {
                    if kids[j] == b || self.descends_within(kids[j], b, depth - 1) {
                        return true;
                    }
                    j = j + 1;
                }
                false
            },
            None => false,
        }
    }

    /// Whether `b` is among the descendants of `a`: its children, their children, and so on.
    /// The search goes as many generations deep as there are parents recorded, which reaches
    /// every descendant when no entity is its own descendant.
    pub fn contains(&self, a: Entity, b: Entity) -> (r: bool)
        ensures
            r == descends(self.children@, a, b, self.children.len() as nat),
    {
        self.descends_within(a, b, self.children.len())
    }

    /// Moving `id` into `target` would put it inside itself.
    pub open spec fn moves_into_itself(&self, id: Entity, target: Entity) -> bool {
        id == target || descends(self.children@, id, target, self.children.len() as nat)
    }

    /// Section `k` is `old`'s with only its grid's shape changed, to `shape`.
    pub open spec fn section_reshaped(new: Section<T>, old: Section<T>, shape: ShapeView) -> bool {
        &&& new.id == old.id
        &&& new.flags == old.flags
        &&& new.drag_shape == old.drag_shape
        &&& new.contents.expands == old.contents.expands
        &&& new.contents.inline == old.contents.inline
        &&& new.contents.header == old.contents.header
        &&& new.contents.shape@ == shape
    }

    /// What moving item `id` to `target` asks: the item's shape is well formed; an item moved
    /// within its own container has that container among the sections; and when both sections
    /// exist, their grids are well formed, the item has a row if it is turned, and the item,
    /// turned by its rotation before and after, can be placed at its old and its new slot. A
    /// missing section otherwise asks nothing: the move then has no effect.
    pub open spec fn drag_allowed(
        &self,
        target: (Entity, Slot),
        id: Entity,
        old_slot: Slot,
        item: &Item,
        old_rotation: ItemRotation,
        drag_rotation: Option<&DragRotation>,
        child_of: Entity,
    ) -> bool {
        &&& item.shape@.wf()
        &&& !self.moves_into_itself(id, target.0) ==> {
            let new_rotation = match drag_rotation {
                Some(r) => r.0,
                None => old_rotation,
            };
            let src = section_from(self.contents@, child_of, 0);
            let dst = section_from(self.contents@, target.0, 0);
            &&& child_of == target.0 ==> src is Some
            &&& (src is Some && dst is Some) ==> {
                let k1 = src->0;
                let k2 = dst->0;
                &&& old_rotation != ItemRotation::R0 ==> item.shape@.height > 0
                &&& new_rotation != ItemRotation::R0 ==> item.shape@.height > 0
                &&& self.contents[k1].contents.shape@.wf()
                &&& self.contents[k2].contents.shape@.wf()
                &&& self.contents[k1].contents.placeable(old_slot, rotated_by(item.shape@, old_rotation))
                &&& self.contents[k2].contents.placeable(target.1, rotated_by(item.shape@, new_rotation))
            }
        }
    }

    /// The effect of moving item `id` (a child of `child_of`, at `old_slot` with
    /// `old_rotation`) to `target`, from `old` to `new`, reported by `actions`: nothing changes
    /// when the item would go inside itself or a section is missing; otherwise the item is erased
    /// from its section and painted into the target's, takes the target slot and the drag
    /// rotation, and the actions re-parent it and report the move.
    pub open spec fn drag_resolved(
        old: Self,
        new: Self,
        target: (Entity, Slot),
        id: Entity,
        old_slot: Slot,
        new_slot: Slot,
        item: &Item,
        old_rotation: ItemRotation,
        new_rotation: ItemRotation,
        drag_rotation: Option<&DragRotation>,
        child_of: Entity,
        actions: Seq<ContentsAction>,
    ) -> bool {
        let src = section_from(old.contents@, child_of, 0);
        let dst = section_from(old.contents@, target.0, 0);
        &&& new.children == old.children
        &&& new.contents.len() == old.contents.len()
        &&& if !old.moves_into_itself(id, target.0) && src is Some && dst is Some {
            &&& new_slot == target.1
            &&& new_rotation == match drag_rotation {
                Some(r) => r.0,
                None => old_rotation,
            }
            &&& Self::sections_moved(
                old,
                new,
                src->0,
                dst->0,
                target.1,
                old_slot,
                rotated_by(item.shape@, old_rotation),
                rotated_by(item.shape@, new_rotation),
            )
            &&& actions == Self::move_actions(target, id, old_slot, child_of)
        } else {
            &&& new.contents@ == old.contents@
            &&& new_slot == old_slot
            &&& new_rotation == old_rotation
            &&& actions == Seq::<ContentsAction>::empty()
        }
    }

    /// Section `k1` has `from` erased at `old_slot`, and then section `k2` (which may be the
    /// same) has `to` painted at `new_slot`; the other sections are unchanged.
    pub open spec fn sections_moved(
        old: Self,
        new: Self,
        k1: int,
        k2: int,
        new_slot: Slot,
        old_slot: Slot,
        from: ShapeView,
        to: ShapeView,
    ) -> bool {
        let removed = old.contents[k1].contents.shape@.unpainted(
            from,
            slot_index(old.contents[k1].contents.shape@, old_slot),
        );
        &&& forall|j: int|
            0 <= j < old.contents.len() && j != k1 && j != k2 ==> new.contents[j] == old.contents[j]
        &&& if k1 == k2 {
            Self::section_reshaped(
                new.contents[k1],
                old.contents[k1],
                removed.painted(to, slot_index(removed, new_slot)),
            )
        } else {
            &&& Self::section_reshaped(new.contents[k1], old.contents[k1], removed)
            &&& Self::section_reshaped(
                new.contents[k2],
                old.contents[k2],
                old.contents[k2].contents.shape@.painted(
                    to,
                    slot_index(old.contents[k2].contents.shape@, new_slot),
                ),
            )
        }
    }

    /// The re-parenting and the events of a move of `id` from `child_of` at `old_slot` to
    /// `target`: a move within one container, or a removal and an insertion.
    pub open spec fn move_actions(target: (Entity, Slot), id: Entity, old_slot: Slot, child_of: Entity) -> Seq<
        ContentsAction,
    > {
        if child_of == target.0 {
            seq![
                ContentsAction::AddChild { parent: target.0, child: id },
                ContentsAction::Move(
                    ItemMove { entity: child_of, old_slot: old_slot, new_slot: target.1, item: id },
                ),
            ]
        } else {
            seq![
                ContentsAction::AddChild { parent: target.0, child: id },
                ContentsAction::Remove(ItemRemove { entity: child_of, slot: old_slot, item: id }),
                ContentsAction::Insert(ItemInsert { entity: target.0, slot: target.1, item: id }),
            ]
        }
    }

    /// The first place offered to `item` (with `flags`) by the sections among the children of
    /// `target`, in order.
    pub open spec fn section_slot_for(&self, target: Entity, item: ShapeView, flags: Flags<T>) -> Option<
        (Entity, Slot),
    > {
        match children_from(self.children@, target, 0) {
            Some(kids) => find_from(self.contents@, kids, 0, item, flags),
            None => None,
        }
    }

    /// Where an item dropped on `target` goes: the slot under it when `target` is a section it
    /// was dragged over (nowhere when it did not fit there), else the first place offered by the
    /// sections of `target`.
    pub open spec fn drop_target(
        &self,
        target: Entity,
        drag_slot: Option<&DragSlot>,
        item: ShapeView,
        flags: Flags<T>,
    ) -> Option<(Entity, Slot)> {
        match drag_slot {
            Some(d) => match d.0 {
                Some(slot) => Some((target, slot)),
                None => None,
            },
            None => self.section_slot_for(target, item, flags),
        }
    }

    /// Drop item `id` on `target`, which either is a section it was dragged over (with the slot
    /// under it in `drag_slot`) or holds sections: move it to the place `drop_target` picks, if
    /// any.
    pub fn on_item_drag_drop(
        &mut self,
        target: Entity,
        drag_slot: Option<&DragSlot>,
        id: Entity,
        slot: &mut Slot,
        item: &Item,
        rotation: &mut ItemRotation,
        drag_rotation: Option<&DragRotation>,
        child_of: Entity,
        flags: &Flags<T>,
    ) -> (actions: Vec<ContentsAction>)
        requires
            drag_slot is None ==> old(self).searchable_for(item.shape@),
            old(self).drop_target(target, drag_slot, item.shape@, *flags) matches Some(t)
                ==> old(self).drag_allowed(t, id, *old(slot), item, *old(rotation), drag_rotation, child_of),
        ensures
            match old(self).drop_target(target, drag_slot, item.shape@, *flags) {
                Some(t) => Self::drag_resolved(
                    *old(self),
                    *final(self),
                    t,
                    id,
                    *old(slot),
                    *final(slot),
                    item,
                    *old(rotation),
                    *final(rotation),
                    drag_rotation,
                    child_of,
                    actions@,
                ),
                None => {
                    &&& *final(self) == *old(self)
                    &&& *final(slot) == *old(slot)
                    &&& *final(rotation) == *old(rotation)
                    &&& actions@ == Seq::<ContentsAction>::empty()
                },
            },
    {
        let chosen = match drag_slot {
            Some(d) => match d.0 {
                Some(s) => Some((target, s)),
                None => None,
            },
            None => self.find_section_slot(target, item, flags),
        };
        match chosen {
            Some(t) => self.resolve_drag(t, id, slot, item, rotation, drag_rotation, child_of),
            None => Vec::new(),
        }
    }

    /// Move item `id` (a child of `child_of`, at `slot` with `rotation`) to slot `target.1` of
    /// section `target.0`: erase it from its section, take the drag rotation if there is one,
    /// paint it into the target section at the target slot, and return the re-parenting and the
    /// events to report. Nothing happens when the target is the item or inside it, or when a
    /// section is missing.
    pub fn resolve_drag(
        &mut self,
        target: (Entity, Slot),
        id: Entity,
        slot: &mut Slot,
        item: &Item,
        rotation: &mut ItemRotation,
        drag_rotation: Option<&DragRotation>,
        child_of: Entity,
    ) -> (actions: Vec<ContentsAction>)
        requires
            old(self).drag_allowed(target, id, *old(slot), item, *old(rotation), drag_rotation, child_of),
        ensures
            Self::drag_resolved(
                *old(self),
                *final(self),
                target,
                id,
                *old(slot),
                *final(slot),
                item,
                *old(rotation),
                *final(rotation),
                drag_rotation,
                child_of,
                actions@,
            ),
    {
        let (target_id, target_slot) = target;
        if id == target_id || self.contains(id, target_id) {
            return Vec::new();
        }
        let k1 = match self.section_index(child_of) {
            Some(k) => k,
            None => {
                return Vec::new();
            },
        };
        let k2 = match self.section_index(target_id) {
            Some(k) => k,
            None => {
                return Vec::new();
            },
        };
        proof {
            lemma_section_from(self.contents@, child_of, 0);
            lemma_section_from(self.contents@, target_id, 0);
        }
        let old_slot = *slot;
        let removed_item = item.duplicate().with_rotation(*rotation);
        self.contents[k1].contents.remove(old_slot, &removed_item);
        if let Some(r) = drag_rotation {
            *rotation = r.0;
        }
        *slot = target_slot;
        let inserted_item = item.duplicate().with_rotation(*rotation);
        self.contents[k2].contents.insert(target_slot, &inserted_item);
        let mut actions: Vec<ContentsAction> = Vec::new();
        actions.push(ContentsAction::AddChild { parent: target_id, child: id });
        if child_of == target_id {
            actions.push(ContentsAction::Move(ItemMove { entity: child_of, old_slot, new_slot: target_slot, item: id }));
        } else {
            actions.push(ContentsAction::Remove(ItemRemove { entity: child_of, slot: old_slot, item: id }));
            actions.push(ContentsAction::Insert(ItemInsert { entity: target_id, slot: target_slot, item: id }));
        }
        proof {
            let o = *old(self);
            assert(actions@ == Self::move_actions(target, id, old_slot, child_of));
            assert(k1 == k2 <==> child_of == target_id);
            assert(Self::sections_moved(o, *self, k1 as int, k2 as int, target_slot, old_slot, rotated_by(item.shape@, *old(rotation)), rotated_by(item.shape@, *rotation)));
        }
        actions
    }

    /// Search the sections among the children of `target` that accept `flags`, in order, for
    /// the first with a slot where `item` fits.
    pub fn find_section_slot(&self, target: Entity, item: &Item, flags: &Flags<T>) -> (r: Option<
        (Entity, Slot),
    >)
        requires
            self.searchable_for(item.shape@),
        ensures
            r == self.section_slot_for(target, item.shape@, *flags),
    {
        let kids = match self.children_of(target) {
            Some(kids) => kids,
            None => {
                return None;
            },
        };
        let mut j: usize = 0;
        while j < kids.len()
            invariant
                j <= kids.len(),
                self.searchable_for(item.shape@),
                children_from(self.children@, target, 0) == Some(kids@),
                find_from(self.contents@, kids@, 0, item.shape@, *flags) == find_from(
                    self.contents@,
                    kids@,
                    j as int,
                    item.shape@,
                    *flags,
                ),
            decreases kids.len() - j,
        {
            let c = kids[j];
            if let Some(k) = self.section_index(c) {
                proof {
                    lemma_section_from(self.contents@, c, 0);
                }
                let section = &self.contents[k];
                if section.flags.accepts(flags) {
                    if let Some(slot) = self.find_slot(&section.contents, section.drag_shape.as_ref(), item) {
                        return Some((c, slot));
                    }
                }
            }
            j = j + 1;
        }
        None
    }

    /// The first slot of `section` where `item` fits, searched in the drag shape while there is
    /// one.
    pub fn find_slot(&self, section: &GridContents, drag_shape: Option<&DragShape>, item: &Item) -> (r:
        Option<Slot>)
        requires
            searchable(section.shape@, item.shape@),
            drag_shape matches Some(d) ==> d.0@.wf() && d.0@.same_size(section.shape@),
        ensures
            r == fit_slot(search_shape_of(*section, drag_shape), item.shape@, section.slot_count() as nat),
    {
        let shape = match drag_shape {
            Some(d) => &d.0,
            None => &section.shape,
        };
        proof {
            law_first_fit(shape@, item.shape@, section.slot_count() as nat);
        }
        match first_fit_index(shape, &item.shape, section.slots()) {
            Some(i) => Some(Slot(shape.slot(i))),
            None => None,
        }
    }
}

} // verus!
