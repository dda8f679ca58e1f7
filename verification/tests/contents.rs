use runic::{item_moved, on_item_drag_enter, DragEnter, ViewAction};
use runic::{
    on_item_drag_over, on_item_drag_start, Accepts, ContentsAction, ContentsStorage, DragRotation,
    DragShape, DragSlot, Entity, Flags, GridContents, Item, ItemFlags, ItemInsert, ItemMove,
    ItemRemove, ItemRotation, Section, Shape, Slot, UVec2,
};

fn item(width: usize, ones: Vec<u8>) -> Item {
    Item { shape: Shape::from_ones(width, ones) }
}

fn section(id: u64, w: u32, h: u32, flags: u32) -> Section<ItemFlags> {
    Section {
        id: Entity(id),
        contents: GridContents::new(UVec2::new(w, h)),
        drag_shape: None,
        flags: Flags(ItemFlags(flags)),
    }
}

#[test]
fn slot_index() {
    assert_eq!(Slot(UVec2::new(2, 3)).index(5), 17);
    assert_eq!(Slot(UVec2::new(0, 0)).index(5), 0);
}

#[test]
fn flags_accept_subsets() {
    let all = ItemFlags::all();
    let potion = ItemFlags(0b100);
    let weapon_or_potion = ItemFlags(0b101);
    assert!(all.accepts(&potion));
    assert!(weapon_or_potion.accepts(&potion));
    assert!(!potion.accepts(&weapon_or_potion));
    assert!(Flags(potion).accepts(&Flags(ItemFlags::empty())));
    assert!(!Flags(ItemFlags::empty()).accepts(&Flags(potion)));
    assert_eq!(ItemFlags::default(), ItemFlags::all());
}

#[test]
fn grid_contents_builders() {
    let g = GridContents::new(UVec2::new(3, 2));
    assert_eq!(g.slots(), 6);
    assert!(!g.expands && !g.inline && g.header.is_none());
    let g = g.with_expands(true).with_inline(true).with_header("Pouch".to_string());
    assert_eq!(g.slots(), 1);
    assert!(g.expands && g.inline);
    assert_eq!(g.header.as_deref(), Some("Pouch"));
    let d = GridContents::default();
    assert_eq!(d.shape, Shape::new(UVec2::new(2, 2), false));
    assert_eq!(d.slots(), 4);
}

#[test]
fn grid_insert_then_remove() {
    let mut g = GridContents::new(UVec2::new(3, 3));
    let l = item(2, vec![1, 1, 1, 0]);
    g.insert(Slot(UVec2::new(1, 1)), &l);
    assert_eq!(g.shape, Shape::from_ones(3, vec![0, 0, 0, 0, 1, 1, 0, 1, 0]));
    g.remove(Slot(UVec2::new(1, 1)), &l);
    assert_eq!(g.shape, Shape::new(UVec2::new(3, 3), false));
}

#[test]
fn find_slot_takes_the_first_fit() {
    let storage: ContentsStorage<ItemFlags> = ContentsStorage { contents: vec![], children: vec![] };
    let mut g = GridContents::new(UVec2::new(3, 2));
    g.insert(Slot(UVec2::new(0, 0)), &item(1, vec![1, 1]));
    let big = item(2, vec![1, 1, 1, 1]);
    assert_eq!(storage.find_slot(&g, None, &big), Some(Slot(UVec2::new(1, 0))));
    let huge = item(3, vec![1, 1, 1, 1, 1, 1]);
    assert_eq!(storage.find_slot(&g, None, &huge), None);
    // While dragging, the drag shape (here: empty) is searched instead.
    let drag = DragShape(Shape::new(UVec2::new(3, 2), false));
    assert_eq!(storage.find_slot(&g, Some(&drag), &huge), Some(Slot(UVec2::new(0, 0))));
}

#[test]
fn find_section_slot_skips_sections_that_refuse() {
    let storage = ContentsStorage {
        contents: vec![section(10, 2, 2, 0b01), section(11, 1, 1, 0b10), section(12, 2, 2, 0b10)],
        children: vec![(Entity(1), vec![Entity(10), Entity(11), Entity(12)])],
    };
    let potion = Flags(ItemFlags(0b10));
    let small = item(1, vec![1]);
    assert_eq!(
        storage.find_section_slot(Entity(1), &small, &potion),
        Some((Entity(11), Slot(UVec2::new(0, 0))))
    );
    let big = item(2, vec![1, 1]);
    assert_eq!(
        storage.find_section_slot(Entity(1), &big, &potion),
        Some((Entity(12), Slot(UVec2::new(0, 0))))
    );
    assert_eq!(storage.find_section_slot(Entity(2), &small, &potion), None);
    assert!(storage.is_container(Entity(1)));
    assert!(!storage.is_container(Entity(10)));
}

#[test]
fn contains_follows_descendants() {
    let storage: ContentsStorage<ItemFlags> = ContentsStorage {
        contents: vec![],
        children: vec![
            (Entity(1), vec![Entity(2), Entity(3)]),
            (Entity(3), vec![Entity(4)]),
            (Entity(4), vec![Entity(5)]),
        ],
    };
    assert!(storage.contains(Entity(1), Entity(2)));
    assert!(storage.contains(Entity(1), Entity(5)));
    assert!(storage.contains(Entity(3), Entity(5)));
    assert!(!storage.contains(Entity(2), Entity(5)));
    assert!(!storage.contains(Entity(5), Entity(1)));
    assert!(!storage.contains(Entity(1), Entity(1)));
}

#[test]
fn resolve_drag_between_sections() {
    let mut storage = ContentsStorage {
        contents: vec![section(10, 2, 2, 1), section(11, 3, 1, 1)],
        children: vec![(Entity(1), vec![Entity(10), Entity(11)])],
    };
    let it = item(1, vec![1, 1]);
    storage.contents[0].contents.insert(Slot(UVec2::new(1, 0)), &it);
    let mut slot = Slot(UVec2::new(1, 0));
    let mut rotation = ItemRotation::R0;
    let turn = DragRotation(ItemRotation::R90);
    let actions = storage.resolve_drag(
        (Entity(11), Slot(UVec2::new(1, 0))),
        Entity(7),
        &mut slot,
        &it,
        &mut rotation,
        Some(&turn),
        Entity(10),
    );
    assert_eq!(storage.contents[0].contents.shape, Shape::new(UVec2::new(2, 2), false));
    assert_eq!(storage.contents[1].contents.shape, Shape::from_ones(3, vec![0, 1, 1]));
    assert_eq!(slot, Slot(UVec2::new(1, 0)));
    assert_eq!(rotation, ItemRotation::R90);
    assert_eq!(
        actions,
        vec![
            ContentsAction::AddChild { parent: Entity(11), child: Entity(7) },
            ContentsAction::Remove(ItemRemove {
                entity: Entity(10),
                slot: Slot(UVec2::new(1, 0)),
                item: Entity(7)
            }),
            ContentsAction::Insert(ItemInsert {
                entity: Entity(11),
                slot: Slot(UVec2::new(1, 0)),
                item: Entity(7)
            }),
        ]
    );
}

#[test]
fn resolve_drag_within_a_section() {
    let mut storage = ContentsStorage {
        contents: vec![section(10, 3, 1, 1)],
        children: vec![(Entity(1), vec![Entity(10)])],
    };
    let it = item(1, vec![1]);
    storage.contents[0].contents.insert(Slot(UVec2::new(0, 0)), &it);
    let mut slot = Slot(UVec2::new(0, 0));
    let mut rotation = ItemRotation::R0;
    let actions = storage.resolve_drag(
        (Entity(10), Slot(UVec2::new(2, 0))),
        Entity(7),
        &mut slot,
        &it,
        &mut rotation,
        None,
        Entity(10),
    );
    assert_eq!(storage.contents[0].contents.shape, Shape::from_ones(3, vec![0, 0, 1]));
    assert_eq!(slot, Slot(UVec2::new(2, 0)));
    assert_eq!(
        actions,
        vec![
            ContentsAction::AddChild { parent: Entity(10), child: Entity(7) },
            ContentsAction::Move(ItemMove {
                entity: Entity(10),
                old_slot: Slot(UVec2::new(0, 0)),
                new_slot: Slot(UVec2::new(2, 0)),
                item: Entity(7)
            }),
        ]
    );
}

#[test]
fn resolve_drag_refuses_moves_into_the_item_itself() {
    let mut storage = ContentsStorage {
        contents: vec![section(10, 2, 1, 1), section(20, 2, 1, 1)],
        children: vec![(Entity(1), vec![Entity(10)]), (Entity(7), vec![Entity(20)])],
    };
    let it = item(1, vec![1]);
    storage.contents[0].contents.insert(Slot(UVec2::new(0, 0)), &it);
    let mut slot = Slot(UVec2::new(0, 0));
    let mut rotation = ItemRotation::R0;
    // Section 20 belongs to item 7 itself.
    let actions = storage.resolve_drag(
        (Entity(20), Slot(UVec2::new(1, 0))),
        Entity(7),
        &mut slot,
        &it,
        &mut rotation,
        None,
        Entity(10),
    );
    assert!(actions.is_empty());
    assert_eq!(slot, Slot(UVec2::new(0, 0)));
    assert_eq!(storage.contents[0].contents.shape, Shape::from_ones(2, vec![1, 0]));
    // A missing target section is no move either.
    let actions = storage.resolve_drag(
        (Entity(99), Slot(UVec2::new(1, 0))),
        Entity(7),
        &mut slot,
        &it,
        &mut rotation,
        None,
        Entity(10),
    );
    assert!(actions.is_empty());
    assert_eq!(storage.contents[0].contents.shape, Shape::from_ones(2, vec![1, 0]));
}

#[test]
fn drop_on_item_finds_a_section() {
    let mut storage = ContentsStorage {
        contents: vec![section(10, 2, 1, 1), section(20, 2, 1, 1)],
        children: vec![(Entity(1), vec![Entity(10)]), (Entity(8), vec![Entity(20)])],
    };
    let it = item(1, vec![1]);
    storage.contents[0].contents.insert(Slot(UVec2::new(0, 0)), &it);
    let mut slot = Slot(UVec2::new(0, 0));
    let mut rotation = ItemRotation::R0;
    let flags = Flags(ItemFlags(1));
    let actions = storage.on_item_drag_drop(
        Entity(8),
        None,
        Entity(7),
        &mut slot,
        &it,
        &mut rotation,
        None,
        Entity(10),
        &flags,
    );
    assert_eq!(actions.len(), 3);
    assert_eq!(storage.contents[1].contents.shape, Shape::from_ones(2, vec![1, 0]));
    // A drag slot of `None` (the item did not fit) drops nowhere.
    let none = DragSlot(None);
    let actions = storage.on_item_drag_drop(
        Entity(10),
        Some(&none),
        Entity(7),
        &mut slot,
        &it,
        &mut rotation,
        None,
        Entity(20),
        &flags,
    );
    assert!(actions.is_empty());
}

#[test]
fn drag_start_and_over() {
    let mut g = GridContents::new(UVec2::new(3, 2));
    let it = item(2, vec![1, 1]);
    g.insert(Slot(UVec2::new(0, 0)), &it);
    g.insert(Slot(UVec2::new(1, 1)), &it);
    // Not rotated: the item itself does not fit on its own slot without the drag shape.
    let over = on_item_drag_over(&g, None, &it, ItemRotation::R0, None, UVec2::new(0, 0));
    assert_eq!(over, DragSlot(None));
    let (drag_shape, drag_rotation) = on_item_drag_start(&g, &it, ItemRotation::R0, Slot(UVec2::new(0, 0)));
    assert_eq!(drag_shape.0, Shape::from_ones(3, vec![0, 0, 0, 0, 1, 1]));
    assert_eq!(drag_rotation.0, ItemRotation::R0);
    let over = on_item_drag_over(&g, Some(&drag_shape), &it, ItemRotation::R0, None, UVec2::new(0, 0));
    assert_eq!(over, DragSlot(Some(Slot(UVec2::new(0, 0)))));
    // Turned upright, it fits in the right column.
    let up = DragRotation(ItemRotation::R90);
    let over = on_item_drag_over(&g, Some(&drag_shape), &it, ItemRotation::R0, Some(&up), UVec2::new(2, 0));
    assert_eq!(over, DragSlot(None));
    let over = on_item_drag_over(&g, Some(&drag_shape), &it, ItemRotation::R0, Some(&up), UVec2::new(0, 0));
    assert_eq!(over, DragSlot(Some(Slot(UVec2::new(0, 0)))));
}

#[test]
fn sections_of_lists_section_children() {
    let storage = ContentsStorage {
        contents: vec![section(10, 1, 1, 1), section(12, 1, 1, 1)],
        children: vec![(Entity(1), vec![Entity(10), Entity(11), Entity(12)]), (Entity(2), vec![Entity(11)])],
    };
    assert_eq!(storage.sections_of(Entity(1)), vec![Entity(10), Entity(12)]);
    assert_eq!(storage.sections_of(Entity(2)), vec![]);
    assert_eq!(storage.sections_of(Entity(3)), vec![]);
    assert!(storage.is_container(Entity(1)));
    assert!(!storage.is_container(Entity(2)));
}

#[test]
fn drag_enter_decisions() {
    let item_flags = Flags(ItemFlags(0b10));
    let takes = Flags(ItemFlags(0b11));
    let refuses = Flags(ItemFlags(0b01));
    assert_eq!(on_item_drag_enter(true, Some(&takes), &item_flags), DragEnter::Item);
    assert_eq!(on_item_drag_enter(false, Some(&takes), &item_flags), DragEnter::Section);
    assert_eq!(on_item_drag_enter(false, Some(&refuses), &item_flags), DragEnter::Pass);
    assert_eq!(on_item_drag_enter(false, None, &item_flags), DragEnter::Pass);
}

#[test]
fn item_views_follow_section_views() {
    let e = Entity;
    assert_eq!(
        item_moved(&[e(1), e(2)], &[e(10)]),
        vec![ViewAction::Reparent { view: e(1), section: e(10) }, ViewAction::Despawn { view: e(2) }]
    );
    assert_eq!(
        item_moved(&[e(1)], &[e(10), e(11)]),
        vec![ViewAction::Reparent { view: e(1), section: e(10) }, ViewAction::Spawn { section: e(11) }]
    );
    assert_eq!(item_moved(&[], &[]), vec![]);
}

#[test]
fn resolve_drag_from_a_missing_section_changes_nothing() {
    let mut storage = ContentsStorage {
        contents: vec![section(11, 2, 1, 1)],
        children: vec![(Entity(1), vec![Entity(11)])],
    };
    let it = item(1, vec![1]);
    let mut slot = Slot(UVec2::new(0, 0));
    let mut rotation = ItemRotation::R0;
    let turn = DragRotation(ItemRotation::R90);
    // The item's own container, 10, has no section.
    let actions = storage.resolve_drag(
        (Entity(11), Slot(UVec2::new(1, 0))),
        Entity(7),
        &mut slot,
        &it,
        &mut rotation,
        Some(&turn),
        Entity(10),
    );
    assert!(actions.is_empty());
    assert_eq!(slot, Slot(UVec2::new(0, 0)));
    assert_eq!(rotation, ItemRotation::R0);
    assert_eq!(storage.contents[0].contents.shape, Shape::new(UVec2::new(2, 1), false));
}

#[test]
fn contains_reaches_any_depth() {
    // A chain 1 -> 2 -> 3 -> 4 -> 5, listed from the deepest parent up.
    let storage: ContentsStorage<ItemFlags> = ContentsStorage {
        contents: vec![],
        children: vec![
            (Entity(4), vec![Entity(5)]),
            (Entity(3), vec![Entity(4)]),
            (Entity(2), vec![Entity(3)]),
            (Entity(1), vec![Entity(2)]),
        ],
    };
    assert!(storage.contains(Entity(1), Entity(5)));
    assert!(storage.contains(Entity(2), Entity(5)));
    assert!(!storage.contains(Entity(5), Entity(1)));
    assert!(!storage.contains(Entity(6), Entity(1)));
}

#[test]
fn grid_remove_undoes_insert() {
    let mut grid = GridContents::new(UVec2::new(3, 2));
    let first = item(1, vec![1, 1]);
    grid.insert(Slot(UVec2::new(0, 0)), &first);
    let before = grid.shape.duplicate();
    let second = item(2, vec![1, 1]);
    assert!(grid.shape.fits(&second.shape, 1));
    grid.insert(Slot(UVec2::new(1, 0)), &second);
    assert_eq!(grid.shape, Shape::from_ones(3, vec![1, 1, 1, 1, 0, 0]));
    grid.remove(Slot(UVec2::new(1, 0)), &second);
    assert_eq!(grid.shape, before);
}

#[test]
fn place_items_takes_first_fits_in_order() {
    let mut grid = GridContents::new(UVec2::new(3, 2));
    let items = vec![item(2, vec![1, 1]), item(1, vec![1, 1]), item(1, vec![1])];
    let slots = runic::place_items(&mut grid, &items);
    assert_eq!(
        slots,
        Some(vec![Slot(UVec2::new(0, 0)), Slot(UVec2::new(2, 0)), Slot(UVec2::new(0, 1))])
    );
    assert_eq!(grid.shape, Shape::from_ones(3, vec![1, 1, 1, 1, 0, 1]));
}

#[test]
fn place_items_leaves_the_grid_when_one_fits_nowhere() {
    let mut grid = GridContents::new(UVec2::new(2, 2));
    let items = vec![item(2, vec![1, 1, 1, 0]), item(2, vec![1, 1])];
    assert_eq!(runic::place_items(&mut grid, &items), None);
    assert_eq!(grid.shape, Shape::new(UVec2::new(2, 2), false));
    let mut expanding = GridContents::new(UVec2::new(2, 2)).with_expands(true);
    let items = vec![item(1, vec![1]), item(1, vec![1])];
    // An expanding grid has one slot: the second item has nowhere to go.
    assert_eq!(runic::place_items(&mut expanding, &items), None);
}
