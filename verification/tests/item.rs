use runic::{Item, ItemRotation, Shape, UVec2};

#[test]
fn increment_cycles() {
    let r = ItemRotation::R0;
    assert_eq!(r.increment(), ItemRotation::R90);
    assert_eq!(r.increment().increment(), ItemRotation::R180);
    assert_eq!(r.increment().increment().increment(), ItemRotation::R270);
    assert_eq!(r.increment().increment().increment().increment(), r);
    assert_eq!(ItemRotation::default(), ItemRotation::R0);
}

#[test]
fn with_rotation_turns_the_shape() {
    let shape = Shape::from_ones(3, vec![1, 0, 0]);
    let item = Item { shape: shape.duplicate() };
    assert_eq!(item.duplicate().with_rotation(ItemRotation::R0).shape, shape);
    assert_eq!(item.duplicate().with_rotation(ItemRotation::R90).shape, shape.rotate90());
    assert_eq!(item.duplicate().with_rotation(ItemRotation::R180).shape, shape.rotate180());
    assert_eq!(item.with_rotation(ItemRotation::R270).shape, shape.rotate270());
}

#[test]
fn next_rotation_is_a_quarter_more() {
    let shape = Shape::from_ones(2, vec![1, 1, 0, 1, 0, 0]);
    let mut r = ItemRotation::R0;
    for _ in 0..4 {
        let turned = Item { shape: shape.duplicate() }.with_rotation(r).shape;
        let next = Item { shape: shape.duplicate() }.with_rotation(r.increment()).shape;
        assert_eq!(next, turned.rotate90());
        r = r.increment();
    }
}

#[test]
fn default_item_is_one_slot() {
    assert_eq!(Item::default().shape, Shape::new(UVec2::new(1, 1), true));
}
