#[test]
fn split_lengths() {
    let a = [1, 2, 3, 4, 5];
    let b: Vec<Vec<i32>> = runic::split_lengths(&a, &[2usize, 3]);
    assert_eq!(b, vec![vec![1, 2], vec![3, 4, 5]]);
}

use runic::{GridContents, Item, SectionContents, SectionLayout, Shape, Slot, UVec2};

fn sections() -> SectionContents {
    SectionContents::new(
        SectionLayout::Vertical,
        vec![
            GridContents::new(UVec2::new(2, 1)),
            GridContents::new(UVec2::new(1, 1)).with_expands(true),
            GridContents::new(UVec2::new(3, 1)),
        ],
    )
}

#[test]
fn section_numbering() {
    let s = sections();
    assert_eq!(s.len(), 6);
    assert_eq!(s.section_ranges(), vec![(0, 2), (2, 3), (3, 6)]);
    assert_eq!(s.section_slot(0), Some((0, 0)));
    assert_eq!(s.section_slot(1), Some((0, 1)));
    assert_eq!(s.section_slot(2), Some((1, 0)));
    assert_eq!(s.section_slot(5), Some((2, 2)));
    assert_eq!(s.section_slot(6), None);
}

#[test]
fn split_items_by_section() {
    let s = sections();
    let items = [(10usize, 'a'), (13, 'b'), (14, 'c'), (15, 'd')];
    assert_eq!(s.split_items(10, &items), vec![(0, 1), (2, 0), (3, 3)]);
    assert_eq!(s.split_items(0, &[] as &[(usize, char)]), vec![(0, 0), (2, 0), (3, 0)]);
    let counts: Vec<usize> = s.split_items(10, &items).iter().map(|c| c.1).collect();
    let pieces = runic::split_lengths(&items, &counts);
    assert_eq!(pieces, vec![vec![(10, 'a')], vec![], vec![(13, 'b'), (14, 'c'), (15, 'd')]]);
}

#[test]
fn find_slot_numbers_through_sections() {
    let mut s = sections();
    let two = Item { shape: Shape::from_ones(2, vec![1, 1]) };
    assert_eq!(s.find_slot(&two), Some((0, 0)));
    s.sections[0].insert(Slot(UVec2::new(0, 0)), &two);
    assert_eq!(s.find_slot(&two), Some((2, 3)));
    let four = Item { shape: Shape::from_ones(4, vec![1, 1, 1, 1]) };
    assert_eq!(s.find_slot(&four), None);
    assert_eq!(SectionLayout::Grid(2), SectionLayout::Grid(2));
    assert_eq!(s.layout, SectionLayout::Vertical);
}
