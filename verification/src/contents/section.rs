//! Sectioned containers: several grids shown as one container, whose slots are numbered one
//! section after the other.

use vstd::prelude::*;

use crate::contents::grid::GridContents;
use crate::contents::storage::{first_fit, law_first_fit, searchable};
use crate::item::Item;

verus! {

/// How the sections of a sectioned container are laid out.
#[derive(Clone, Copy, Debug, PartialEq, Eq, Structural)]
pub enum SectionLayout {
    /// A grid with this many columns.
    Grid(usize),
    Horizontal,
    Vertical,
}

/// A set of smaller containers displayed as one, like the pouches on a belt. Slots are numbered
/// through the sections in order: the first section's slots, then the second's, and so on.
pub struct SectionContents {
    pub layout: SectionLayout,
    pub sections: Vec<GridContents>,
}

/// The sum of the first `i` lengths.
pub open spec fn prefix_sum(lens: Seq<int>, i: int) -> int
    decreases i,
{
    if i <= 0 {
        0
    } else {
        prefix_sum(lens, i - 1) + lens[i - 1]
    }
}

/// Prefix sums of non-negative lengths do not decrease.
pub proof fn lemma_prefix_sum_mono(lens: Seq<int>, i: int, j: int)
    requires
        0 <= i <= j <= lens.len(),
        forall|k: int| 0 <= k < lens.len() ==> lens[k] >= 0,
    ensures
        prefix_sum(lens, i) <= prefix_sum(lens, j),
    decreases j - i,
{
    if i < j {
        lemma_prefix_sum_mono(lens, i, j - 1);
    }
}

/// The index of the first section, from `i` on, whose range ends after `slot`.
pub open spec fn section_of(lens: Seq<int>, slot: int, i: int) -> Option<int>
    decreases lens.len() - i,
{
    if i < 0 || i >= lens.len() {
        None
    } else if slot < prefix_sum(lens, i + 1) {
        Some(i)
    } else {
        section_of(lens, slot, i + 1)
    }
}

/// Container slot `slot` lies in the section `section_of` finds, at `slot - prefix_sum(lens, i)`
/// within it; slots past the last section are in none.
pub proof fn law_section_of_in_range(lens: Seq<int>, slot: int)
    requires
        forall|k: int| 0 <= k < lens.len() ==> lens[k] >= 0,
        slot >= 0,
    ensures
        match section_of(lens, slot, 0) {
            Some(i) => 0 <= i < lens.len() && prefix_sum(lens, i) <= slot < prefix_sum(lens, i + 1),
            None => slot >= prefix_sum(lens, lens.len() as int),
        },
{
    lemma_section_of_from(lens, slot, 0);
}

/// Searching from section `i` on, having passed every slot before `prefix_sum(lens, i)`.
proof fn lemma_section_of_from(lens: Seq<int>, slot: int, i: int)
    requires
        forall|k: int| 0 <= k < lens.len() ==> lens[k] >= 0,
        0 <= i <= lens.len(),
        slot >= prefix_sum(lens, i),
    ensures
        match section_of(lens, slot, i) {
            Some(j) => i <= j < lens.len() && prefix_sum(lens, j) <= slot < prefix_sum(lens, j + 1),
            None => slot >= prefix_sum(lens, lens.len() as int),
        },
    decreases lens.len() - i,
{
    if i < lens.len() && slot >= prefix_sum(lens, i + 1) {
        lemma_section_of_from(lens, slot, i + 1);
    }
}

/// Slot `t` of section `i` is container slot `prefix_sum(lens, i) + t`: numbering the slots
/// through the sections loses and repeats none.
pub proof fn law_section_of_slot_in_section(lens: Seq<int>, i: int, t: int)
    requires
        forall|k: int| 0 <= k < lens.len() ==> lens[k] >= 0,
        0 <= i < lens.len(),
        0 <= t < lens[i],
    ensures
        section_of(lens, prefix_sum(lens, i) + t, 0) == Some(i),
{
    let slot = prefix_sum(lens, i) + t;
    assert forall|j: int| 0 <= j < i implies slot >= #[trigger] prefix_sum(lens, j + 1) by {
        lemma_prefix_sum_mono(lens, j + 1, i);
    }
    lemma_prefix_sum_mono(lens, 0, i);
    lemma_section_of_skip(lens, slot, 0, i);
}

/// `section_of` passes over the sections before `i` whose ranges end at or before `slot`.
proof fn lemma_section_of_skip(lens: Seq<int>, slot: int, j: int, i: int)
    requires
        0 <= j <= i < lens.len(),
        forall|k: int| j <= k < i ==> slot >= #[trigger] prefix_sum(lens, k + 1),
        slot < prefix_sum(lens, i + 1),
    ensures
        section_of(lens, slot, j) == Some(i),
    decreases i - j,
{
    if j < i {
        lemma_section_of_skip(lens, slot, j + 1, i);
    }
}

/// The section of container slot `s`: the number of sections when there is none.
pub open spec fn sec_of(lens: Seq<int>, s: int) -> int {
    match section_of(lens, s, 0) {
        Some(i) => i,
        None => lens.len() as int,
    }
}

/// Slots before the end of section `k` are exactly those in section `k` or an earlier one.
proof fn lemma_before_end_iff(lens: Seq<int>, s: int, k: int)
    requires
        forall|j: int| 0 <= j < lens.len() ==> lens[j] >= 0,
        0 <= s < prefix_sum(lens, lens.len() as int),
        0 <= k < lens.len(),
    ensures
        s < prefix_sum(lens, k + 1) <==> sec_of(lens, s) <= k,
        0 <= sec_of(lens, s) < lens.len(),
{
    law_section_of_in_range(lens, s);
    let i = sec_of(lens, s);
    if i <= k {
        lemma_prefix_sum_mono(lens, i + 1, k + 1);
    } else {
        lemma_prefix_sum_mono(lens, k + 1, i);
    }
}

/// The first section, from `j` on, with a slot where `item` fits, and that slot numbered
/// through the container.
pub open spec fn first_section_fit(sections: Seq<GridContents>, lens: Seq<int>, item: crate::shape::ShapeView, j: int) -> Option<(usize, usize)>
    decreases sections.len() - j,
{
    if j < 0 || j >= sections.len() {
        None
    } else {
        match first_fit(sections[j].shape@, item, sections[j].slot_count() as nat) {
            Some(i) => Some((j as usize, (prefix_sum(lens, j) + i) as usize)),
            None => first_section_fit(sections, lens, item, j + 1),
        }
    }
}

/// The item counts of a split.
pub open spec fn counts(split: Seq<(usize, usize)>) -> Seq<int> {
    split.map_values(|c: (usize, usize)| c.1 as int)
}

/// Prefix sums up to `j` depend only on the first `j` lengths.
proof fn lemma_prefix_sum_prefix(a: Seq<int>, b: Seq<int>, j: int)
    requires
        0 <= j <= b.len(),
        b.len() <= a.len(),
        forall|k: int| 0 <= k < b.len() ==> a[k] == b[k],
    ensures
        prefix_sum(a, j) == prefix_sum(b, j),
    decreases j,
{
    if j > 0 {
        lemma_prefix_sum_prefix(a, b, j - 1);
    }
}

/// The container slot found for an item lies in the section it was found in: `section_slot`
/// gives that section back, with the slot within it.
pub proof fn law_found_slot_in_section(sections: Seq<GridContents>, lens: Seq<int>, item: crate::shape::ShapeView, j: int)
    requires
        lens == sections.map_values(|s: GridContents| s.slot_count()),
        prefix_sum(lens, lens.len() as int) <= usize::MAX,
        sections.len() <= usize::MAX,
        0 <= j,
        first_section_fit(sections, lens, item, j) is Some,
    ensures
        ({
            let (k, slot) = first_section_fit(sections, lens, item, j)->0;
            &&& j <= k < sections.len()
            &&& section_of(lens, slot as int, 0) == Some(k as int)
            &&& first_fit(sections[k as int].shape@, item, sections[k as int].slot_count() as nat) == Some(
                (slot - prefix_sum(lens, k as int)) as nat,
            )
        }),
    decreases sections.len() - j,
{
    match first_fit(sections[j].shape@, item, sections[j].slot_count() as nat) {
        Some(i) => {
            law_first_fit(sections[j].shape@, item, sections[j].slot_count() as nat);
            assert forall|k: int| 0 <= k < lens.len() implies lens[k] >= 0 by {
                assert(lens[k] == sections[k].slot_count());
            }
            law_section_of_slot_in_section(lens, j, i as int);
            lemma_prefix_sum_mono(lens, j + 1, lens.len() as int);
            lemma_prefix_sum_mono(lens, 0, j);
        },
        None => {
            law_found_slot_in_section(sections, lens, item, j + 1);
        },
    }
}

/// The pieces of `s` of the lengths `lens`, one after the other.
pub open spec fn split_spec<T>(s: Seq<T>, lens: Seq<int>) -> Seq<Seq<T>> {
    Seq::new(lens.len(), |k: int| s.subrange(prefix_sum(lens, k), prefix_sum(lens, k + 1)))
}

/// The pieces of `s` joined together.
pub open spec fn joined<T>(pieces: Seq<Seq<T>>) -> Seq<T>
    decreases pieces.len(),
{
    if pieces.len() == 0 {
        Seq::empty()
    } else {
        joined(pieces.drop_last()) + pieces.last()
    }
}

/// Splitting into pieces loses and repeats nothing: the pieces joined together are the part of
/// `s` they cover.
pub proof fn law_split_joined<T>(s: Seq<T>, lens: Seq<int>)
    requires
        forall|k: int| 0 <= k < lens.len() ==> lens[k] >= 0,
        prefix_sum(lens, lens.len() as int) <= s.len(),
    ensures
        joined(split_spec(s, lens)) == s.subrange(0, prefix_sum(lens, lens.len() as int)),
    decreases lens.len(),
{
    if lens.len() > 0 {
        let n = lens.len() as int;
        let shorter = lens.drop_last();
        assert forall|j: int| 0 <= j <= n - 1 implies #[trigger] prefix_sum(shorter, j) == prefix_sum(lens, j) by {
            lemma_prefix_sum_prefix(lens, shorter, j);
        }
        lemma_prefix_sum_mono(lens, n - 1, n);
        law_split_joined(s, shorter);
        assert(split_spec(s, lens).drop_last() =~= split_spec(s, shorter));
        lemma_prefix_sum_mono(lens, 0, n - 1);
        assert(s.subrange(0, prefix_sum(lens, n - 1)) + s.subrange(prefix_sum(lens, n - 1), prefix_sum(lens, n))
            =~= s.subrange(0, prefix_sum(lens, n)));
    }
}

/// Split `slice` into consecutive pieces of the lengths `lens`.
pub fn split_lengths<T: Copy>(slice: &[T], lens: &[usize]) -> (r: Vec<Vec<T>>)
    requires
        prefix_sum(lens@.map_values(|l: usize| l as int), lens.len() as int) <= slice.len(),
    ensures
        r.len() == lens.len(),
        forall|k: int|
            0 <= k < lens.len() ==> #[trigger] r[k]@ == split_spec(
                slice@,
                lens@.map_values(|l: usize| l as int),
            )[k],
{
    let ghost ls = lens@.map_values(|l: usize| l as int);
    let mut r: Vec<Vec<T>> = Vec::new();
    let mut start: usize = 0;
    let mut k: usize = 0;
    while k < lens.len()
        invariant
            ls == lens@.map_values(|l: usize| l as int),
            prefix_sum(ls, lens.len() as int) <= slice.len(),
            k <= lens.len(),
            start == prefix_sum(ls, k as int),
            r.len() == k,
            forall|j: int| 0 <= j < k ==> #[trigger] r[j]@ == split_spec(slice@, ls)[j],
        decreases lens.len() - k,
    {
        proof {
            lemma_prefix_sum_mono(ls, (k + 1) as int, lens.len() as int);
        }
        let end: usize = start + lens[k];
        let mut piece: Vec<T> = Vec::new();
        let mut i: usize = start;
        while i < end
            invariant
                start <= i <= end,
                end <= slice.len(),
                piece@ == slice@.subrange(start as int, i as int),
            decreases end - i,
        {
            piece.push(slice[i]);
            i = i + 1;
            assert(piece@ =~= slice@.subrange(start as int, i as int));
        }
        r.push(piece);
        start = end;
        k = k + 1;
    }
    r
}

impl SectionContents {
    /// A sectioned container.
    pub fn new(layout: SectionLayout, sections: Vec<GridContents>) -> (r: Self)
        ensures
            r.layout == layout,
            r.sections == sections,
    {
        SectionContents { layout, sections }
    }

    /// The number of slots of each section.
    pub open spec fn lens(&self) -> Seq<int> {
        self.sections@.map_values(|s: GridContents| s.slot_count())
    }

    /// Every section is well formed, and all slots can be numbered with a `usize`.
    pub open spec fn wf(&self) -> bool {
        &&& forall|k: int| 0 <= k < self.sections.len() ==> (#[trigger] self.sections[k]).shape@.wf()
        &&& prefix_sum(self.lens(), self.sections.len() as int) <= usize::MAX
    }

    /// No section has a negative number of slots.
    pub proof fn lemma_lens_nonneg(&self)
        ensures
            self.lens().len() == self.sections.len(),
            forall|k: int| 0 <= k < self.lens().len() ==> #[trigger] self.lens()[k] >= 0,
    {
        assert forall|k: int| 0 <= k < self.lens().len() implies #[trigger] self.lens()[k] >= 0 by {
            assert(self.lens()[k] == self.sections[k].slot_count());
        }
    }

    /// The total number of slots.
    pub fn len(&self) -> (r: usize)
        requires
            self.wf(),
        ensures
            r == prefix_sum(self.lens(), self.sections.len() as int),
    {
        let mut total: usize = 0;
        let mut k: usize = 0;
        while k < self.sections.len()
            invariant
                self.wf(),
                k <= self.sections.len(),
                total == prefix_sum(self.lens(), k as int),
            decreases self.sections.len() - k,
        {
            proof {
                lemma_prefix_sum_mono(self.lens(), (k + 1) as int, self.sections.len() as int);
            }
            total = total + self.sections[k].slots();
            k = k + 1;
        }
        total
    }

    /// The range of slots, `start .. end`, of each section.
    pub fn section_ranges(&self) -> (r: Vec<(usize, usize)>)
        requires
            self.wf(),
        ensures
            r.len() == self.sections.len(),
            forall|k: int|
                0 <= k < r.len() ==> #[trigger] r[k] == (
                    prefix_sum(self.lens(), k) as usize,
                    prefix_sum(self.lens(), k + 1) as usize,
                ),
    {
        let mut r: Vec<(usize, usize)> = Vec::new();
        let mut end: usize = 0;
        let mut k: usize = 0;
        while k < self.sections.len()
            invariant
                self.wf(),
                k <= self.sections.len(),
                end == prefix_sum(self.lens(), k as int),
                r.len() == k,
                forall|j: int|
                    0 <= j < k ==> #[trigger] r[j] == (
                        prefix_sum(self.lens(), j) as usize,
                        prefix_sum(self.lens(), j + 1) as usize,
                    ),
            decreases self.sections.len() - k,
        {
            proof {
                lemma_prefix_sum_mono(self.lens(), (k + 1) as int, self.sections.len() as int);
            }
            let start = end;
            end = end + self.sections[k].slots();
            r.push((start, end));
            k = k + 1;
        }
        r
    }

    /// The items' slots, less `offset`, are container slots, grouped section by section in
    /// order.
    pub open spec fn items_grouped<T>(&self, offset: int, items: Seq<(usize, T)>) -> bool {
        &&& forall|q: int| 0 <= q < items.len() ==> offset <= #[trigger] items[q].0 && items[q].0 - offset
            < prefix_sum(self.lens(), self.sections.len() as int)
        &&& forall|q: int, p: int|
            0 <= q < p < items.len() ==> sec_of(self.lens(), #[trigger] items[q].0 - offset) <= sec_of(
                self.lens(),
                #[trigger] items[p].0 - offset,
            )
    }

    /// Split `items` (sorted by slot, numbered from `offset`) by section: for each section, the
    /// first slot of its range and the number of items, taken in order, that lie in it.
    pub fn split_items<T>(&self, offset: usize, items: &[(usize, T)]) -> (r: Vec<(usize, usize)>)
        requires
            self.wf(),
            self.items_grouped(offset as int, items@),
        ensures
            r.len() == self.sections.len(),
            forall|k: int| 0 <= k < r.len() ==> #[trigger] r[k].0 == prefix_sum(self.lens(), k),
            prefix_sum(counts(r@), r.len() as int) == items.len(),
            forall|k: int, q: int|
                #![trigger prefix_sum(counts(r@), k), items@[q]]
                0 <= k < r.len() && prefix_sum(counts(r@), k) <= q
                    < prefix_sum(counts(r@), k + 1) ==> sec_of(
                    self.lens(),
                    items@[q].0 - offset,
                ) == k,
    {
        let ghost lens = self.lens();
        let ranges = self.section_ranges();
        let mut r: Vec<(usize, usize)> = Vec::new();
        let mut pos: usize = 0;
        let mut k: usize = 0;
        proof {
            self.lemma_lens_nonneg();
            lemma_prefix_sum_mono(lens, 0, self.sections.len() as int);
            assert forall|q: int| pos <= q < items.len() implies sec_of(lens, #[trigger] items@[q].0 - offset) >= 0 by {
                law_section_of_in_range(lens, items@[q].0 - offset);
            }
        }
        while k < ranges.len()
            invariant
                self.wf(),
                self.items_grouped(offset as int, items@),
                lens == self.lens(),
                ranges.len() == self.sections.len(),
                forall|j: int|
                    0 <= j < ranges.len() ==> #[trigger] ranges[j] == (
                        prefix_sum(lens, j) as usize,
                        prefix_sum(lens, j + 1) as usize,
                    ),
                k <= ranges.len(),
                r.len() == k,
                pos <= items.len(),
                pos == prefix_sum(counts(r@), k as int),
                forall|j: int| 0 <= j < k ==> #[trigger] r[j].0 == prefix_sum(lens, j),
                forall|j: int, q: int|
                    #![trigger prefix_sum(counts(r@), j), items@[q]]
                    0 <= j < k && prefix_sum(counts(r@), j) <= q
                        < prefix_sum(counts(r@), j + 1) ==> sec_of(
                        lens,
                        items@[q].0 - offset,
                    ) == j,
                forall|q: int| pos <= q < items.len() ==> sec_of(lens, #[trigger] items@[q].0 - offset) >= k,
            decreases ranges.len() - k,
        {
            proof {
                self.lemma_lens_nonneg();
                lemma_prefix_sum_mono(lens, (k + 1) as int, self.sections.len() as int);
                lemma_prefix_sum_mono(lens, 0, (k + 1) as int);
                lemma_prefix_sum_mono(lens, 0, k as int);
                lemma_prefix_sum_mono(lens, k as int, (k + 1) as int);
            }
            let (start, end) = ranges[k];
            let begin = pos;
            while pos < items.len() && items[pos].0 - offset < end
                invariant
                    self.items_grouped(offset as int, items@),
                    lens == self.lens(),
                    self.wf(),
                    k < ranges.len(),
                    ranges.len() == self.sections.len(),
                    end == prefix_sum(lens, k + 1),
                    begin <= pos <= items.len(),
                    forall|q: int| begin <= q < pos ==> sec_of(lens, #[trigger] items@[q].0 - offset) == k,
                    forall|q: int| pos <= q < items.len() ==> sec_of(lens, #[trigger] items@[q].0 - offset) >= k,
                decreases items.len() - pos,
            {
                proof {
                    self.lemma_lens_nonneg();
                    lemma_before_end_iff(lens, items@[pos as int].0 - offset, k as int);
                }
                pos = pos + 1;
            }
            proof {
                self.lemma_lens_nonneg();
                if pos < items.len() {
                    lemma_before_end_iff(lens, items@[pos as int].0 - offset, k as int);
                    assert forall|q: int| pos <= q < items.len() implies sec_of(lens, #[trigger] items@[q].0 - offset)
                        >= k + 1 by {
                        if q > pos {
                            assert(sec_of(lens, items@[pos as int].0 - offset) <= sec_of(lens, items@[q].0 - offset));
                        }
                    }
                }
            }
            let ghost old_r = r@;
            r.push((start, pos - begin));
            proof {
                let cs = counts(r@);
                let old_cs = counts(old_r);
                assert forall|j: int| 0 <= j <= k implies #[trigger] prefix_sum(cs, j) == prefix_sum(old_cs, j) by {
                    lemma_prefix_sum_prefix(cs, old_cs, j);
                }
                assert(cs[k as int] == pos - begin);
                assert(prefix_sum(cs, k as int) == prefix_sum(old_cs, k as int));
                assert(prefix_sum(cs, k + 1) == prefix_sum(cs, k as int) + cs[k as int]);
                assert(prefix_sum(cs, k + 1) == pos);
            }
            k = k + 1;
        }
        proof {
            self.lemma_lens_nonneg();
            if pos < items.len() {
                law_section_of_in_range(lens, items@[pos as int].0 - offset);
            }
        }
        r
    }

    /// The first section with a slot where `item` fits, and that slot numbered through the
    /// container.
    pub fn find_slot(&self, item: &Item) -> (r: Option<(usize, usize)>)
        requires
            self.wf(),
            forall|k: int| 0 <= k < self.sections.len() ==> searchable(#[trigger] self.sections[k].shape@, item.shape@),
        ensures
            r == first_section_fit(self.sections@, self.lens(), item.shape@, 0),
    {
        let ranges = self.section_ranges();
        let mut k: usize = 0;
        while k < self.sections.len()
            invariant
                self.wf(),
                forall|j: int| 0 <= j < self.sections.len() ==> searchable(#[trigger] self.sections[j].shape@, item.shape@),
                ranges.len() == self.sections.len(),
                forall|j: int|
                    0 <= j < ranges.len() ==> #[trigger] ranges[j] == (
                        prefix_sum(self.lens(), j) as usize,
                        prefix_sum(self.lens(), j + 1) as usize,
                    ),
                k <= self.sections.len(),
                first_section_fit(self.sections@, self.lens(), item.shape@, 0) == first_section_fit(
                    self.sections@,
                    self.lens(),
                    item.shape@,
                    k as int,
                ),
            decreases self.sections.len() - k,
        {
            proof {
                lemma_prefix_sum_mono(self.lens(), (k + 1) as int, self.sections.len() as int);
                lemma_prefix_sum_mono(self.lens(), 0, k as int);
            }
            let section = &self.sections[k];
            match crate::contents::storage::first_fit_index(&section.shape, &item.shape, section.slots()) {
                Some(i) => {
                    proof {
                        law_first_fit(section.shape@, item.shape@, section.slot_count() as nat);
                    }
                    let (start, _end) = ranges[k];
                    return Some((k, start + i));
                },
                None => {},
            }
            k = k + 1;
        }
        None
    }

    /// The section holding container slot `slot`, and the slot's number within that section.
    pub fn section_slot(&self, slot: usize) -> (r: Option<(usize, usize)>)
        requires
            self.wf(),
        ensures
            r == match section_of(self.lens(), slot as int, 0) {
                Some(i) => Some((i as usize, (slot - prefix_sum(self.lens(), i)) as usize)),
                None => None::<(usize, usize)>,
            },
    {
        let ranges = self.section_ranges();
        let mut k: usize = 0;
        while k < ranges.len()
            invariant
                self.wf(),
                ranges.len() == self.sections.len(),
                forall|j: int|
                    0 <= j < ranges.len() ==> #[trigger] ranges[j] == (
                        prefix_sum(self.lens(), j) as usize,
                        prefix_sum(self.lens(), j + 1) as usize,
                    ),
                k <= ranges.len(),
                section_of(self.lens(), slot as int, 0) == section_of(self.lens(), slot as int, k as int),
                slot >= prefix_sum(self.lens(), k as int),
            decreases ranges.len() - k,
        {
            proof {
                lemma_prefix_sum_mono(self.lens(), (k + 1) as int, self.sections.len() as int);
                lemma_prefix_sum_mono(self.lens(), k as int, (k + 1) as int);
                lemma_prefix_sum_mono(self.lens(), 0, k as int);
            }
            let (start, end) = ranges[k];
            if slot < end {
                return Some((k, slot - start));
            }
            k = k + 1;
        }
        None
    }
}

} // verus!
