use runic::{
    slot_xy, ContainerSpace, Context, DragItem, Entity, ExpandingContents, HeaderContents,
    InlineContents, Item, ItemFlags, ItemRotation, MoveData, Shape, UVec2,
};

fn drag_item(id: u64) -> DragItem {
    DragItem {
        id: Entity(id),
        item: Item { shape: Shape::from_ones(2, vec![1, 1]) },
        rotation: ItemRotation::R0,
        source: None,
        offset: 0,
    }
}

#[test]
fn merge_prefers_the_first() {
    let a = MoveData { drag: Some(drag_item(1)), target: None };
    let b = MoveData { drag: Some(drag_item(2)), target: Some((Entity(5), 3)) };
    let m = a.merge(b);
    assert_eq!(m.drag.unwrap().id, Entity(1));
    assert_eq!(m.target, Some((Entity(5), 3)));
    let m = MoveData::default().merge(MoveData::default());
    assert!(m.drag.is_none() && m.target.is_none());
}

#[test]
fn show_picks_up_turns_and_drops() {
    let mut held: Option<DragItem> = None;
    // Picked up: the item becomes the dragged one, nothing is returned yet.
    let data = MoveData { drag: Some(drag_item(1)), target: None };
    assert!(ContainerSpace::show(&mut held, data, false, false).is_none());
    assert_eq!(held.as_ref().unwrap().id, Entity(1));
    // Turned while held.
    assert!(ContainerSpace::show(&mut held, MoveData::default(), true, false).is_none());
    let h = held.as_ref().unwrap();
    assert_eq!(h.rotation, ItemRotation::R90);
    assert_eq!(h.item.shape, Shape::from_ones(1, vec![1, 1]));
    // Released over a target: the move comes back with the item in it.
    let data = MoveData { drag: None, target: Some((Entity(9), 4)) };
    let m = ContainerSpace::show(&mut held, data, false, true).unwrap();
    assert!(held.is_none());
    assert_eq!(m.target, Some((Entity(9), 4)));
    assert_eq!(m.drag.unwrap().rotation, ItemRotation::R90);
}

#[test]
fn show_released_without_target_drops_nothing() {
    let mut held = Some(drag_item(1));
    assert!(ContainerSpace::show(&mut held, MoveData::default(), false, true).is_none());
    assert!(held.is_none());
    let mut nothing: Option<DragItem> = None;
    let data = MoveData { drag: None, target: Some((Entity(9), 4)) };
    assert!(ContainerSpace::show(&mut nothing, data, false, true).is_none());
}

#[test]
fn slot_coordinates() {
    assert_eq!(slot_xy(7, 3), (1, 2));
    assert_eq!(slot_xy(0, 3), (0, 0));
    assert_eq!(Context::from(Entity(4)), Context::from(Entity(4)));
    assert_ne!(Context::from(Entity(4)), Context::from(Entity(5)));
}

#[test]
fn expanding_contents() {
    let e = ExpandingContents::new(UVec2::new(2, 3));
    assert_eq!(e.flags, ItemFlags::all());
    assert_eq!(e.len(), 1);
    assert!(e.fits(false, false, UVec2::new(2, 3), 0));
    assert!(!e.fits(false, false, UVec2::new(3, 1), 0));
    assert!(!e.fits(true, false, UVec2::new(1, 1), 0));
    // The item already in the slot may be turned in place.
    assert!(e.fits(true, true, UVec2::new(1, 1), 0));
    let e = e.with_flags(ItemFlags(0b10));
    assert!(e.accepts(ItemFlags(0b10)));
    assert!(!e.accepts(ItemFlags(0b01)));
    let i = InlineContents::new(e);
    assert_eq!(i.0, e);
    let h = HeaderContents::new("Belt".to_string(), e);
    assert_eq!(h.header, "Belt");
    assert_eq!(h.contents, e);
}
