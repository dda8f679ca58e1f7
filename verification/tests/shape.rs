use runic::{Shape, UVec2};

#[test]
fn from_bits() {
    let shape = Shape::from_ones(2, vec![1, 1, 1, 1]);
    assert!(shape.height() == 2);
}

#[test]
fn fits() {
    let a = Shape::from_ones(4, vec![1, 1, 0, 0, 1, 1, 0, 0]);
    let b = Shape::from_ones(2, vec![1, 1, 1, 1]);
    assert!(a.fits(&b, a.index(UVec2::new(0, 0))) == false);
    assert!(a.fits(&b, a.index(UVec2::new(1, 0))) == false);
    assert!(a.fits(&b, a.index(UVec2::new(2, 0))) == true);
    assert!(a.fits(&b, a.index(UVec2::new(3, 0))) == false); // outside
}

#[test]
fn paint() {
    let mut a = Shape::from_ones(4, vec![0, 0, 0, 0]);
    let b = Shape::from_ones(2, vec![1, 1]);
    a.paint(&b, 0);
    assert_eq!(a, Shape::from_ones(4, vec![1, 1, 0, 0]));
}

#[test]
fn unpaint() {
    let mut a = Shape::from_ones(4, vec![0, 1, 1, 1]);
    let b = Shape::from_ones(2, vec![1, 1]);
    let res = Shape::from_ones(4, vec![0, 0, 1, 1]);
    a.unpaint(&b, 0);
    assert_eq!(a, res);
    a.unpaint(&b, 0);
    assert_eq!(a, res);
}

#[test]
fn slots_iter() {
    let a = Shape::from_ones(2, vec![1, 1, 1, 1]);
    assert_eq!(a.slots(), vec![0, 1, 2, 3]);
}

#[test]
fn rotate() {
    let a = Shape::from_ones(2, vec![1, 0, 0, 0]);
    assert_eq!(a.rotate90(), Shape::from_ones(2, vec![0, 1, 0, 0]));
    assert_eq!(a.rotate180(), Shape::from_ones(2, vec![0, 0, 0, 1]));
    assert_eq!(a.rotate270(), Shape::from_ones(2, vec![0, 0, 1, 0]));

    let a = Shape::from_ones(3, vec![1, 0, 0]);
    assert_eq!(a.rotate90(), Shape::from_ones(1, vec![1, 0, 0]));
    assert_eq!(a.rotate180(), Shape::from_ones(3, vec![0, 0, 1]));
    assert_eq!(a.rotate270(), Shape::from_ones(1, vec![0, 0, 1]));
}

#[test]
fn new_fills_every_slot() {
    let s = Shape::new(UVec2::new(3, 2), true);
    assert_eq!(s.width(), 3);
    assert_eq!(s.height(), 2);
    assert_eq!(s.area(), 6);
    assert_eq!(s.slots(), vec![0, 1, 2, 3, 4, 5]);
    assert!(!s.is_square());
    assert!(Shape::new(UVec2::new(2, 2), false).is_square());
}

#[test]
fn size_and_contains() {
    let s = Shape::from_ones(3, vec![0, 0, 0, 0, 0, 0]);
    assert_eq!(s.size(), UVec2::new(3, 2));
    assert!(s.contains(UVec2::new(3, 2)));
    assert!(s.contains(UVec2::new(0, 0)));
    assert!(!s.contains(UVec2::new(4, 0)));
    assert!(!s.contains(UVec2::new(0, 3)));
}

#[test]
fn index_and_slot_round_trip() {
    let s = Shape::new(UVec2::new(4, 3), false);
    for i in 0..12 {
        let p = s.slot(i);
        assert_eq!(p, UVec2::new((i % 4) as u32, (i / 4) as u32));
        assert_eq!(s.index(p), i);
    }
    assert_eq!(s.index(UVec2::new(1, 2)), 9);
}

#[test]
fn from_width_slice_keeps_cells() {
    let s = Shape::from_width_slice(2, vec![true, false, false, true]);
    assert_eq!(s.height(), 2);
    assert_eq!(s, Shape::from_ones(2, vec![1, 0, 0, 1]));
    // Only the value 1 counts as filled.
    assert_eq!(Shape::from_ones(2, vec![2, 1]), Shape::from_ones(2, vec![0, 1]));
}

#[test]
fn default_is_one_filled_slot() {
    assert_eq!(Shape::default(), Shape::new(UVec2::new(1, 1), true));
}

#[test]
fn not_flips_every_slot() {
    let a = Shape::from_ones(2, vec![1, 0, 0, 1]);
    assert_eq!(!a.duplicate(), Shape::from_ones(2, vec![0, 1, 1, 0]));
    assert_eq!(!!a.duplicate(), a);
}

#[test]
fn rows_and_text() {
    let a = Shape::from_ones(2, vec![1, 0, 0, 1, 1, 1]);
    assert_eq!(a.rows(), vec![vec![true, false], vec![false, true], vec![true, true]]);
    assert_eq!(a.to_string(), "\u{25A0}\u{25A1}\n\u{25A1}\u{25A0}\n\u{25A0}\u{25A0}\n");
}

#[test]
fn paint_at_offset_and_out_of_bounds() {
    let mut a = Shape::new(UVec2::new(3, 3), false);
    let l = Shape::from_ones(2, vec![1, 0, 1, 1]);
    a.paint(&l, a.index(UVec2::new(1, 1)));
    assert_eq!(a, Shape::from_ones(3, vec![0, 0, 0, 0, 1, 0, 0, 1, 1]));
    // Placed at (2, 2) the shape would stick out: nothing changes.
    let before = a.duplicate();
    a.paint(&l, a.index(UVec2::new(2, 2)));
    assert_eq!(a, before);
}

#[test]
fn unpaint_undoes_paint_where_it_fit() {
    let base = Shape::from_ones(3, vec![1, 0, 0, 0, 1, 0]);
    let l = Shape::from_ones(2, vec![1, 1, 0, 1]);
    assert!(base.fits(&l, 1));
    let mut a = base.duplicate();
    a.paint(&l, 1);
    assert_eq!(a, Shape::from_ones(3, vec![1, 1, 1, 0, 1, 1]));
    assert!(!a.fits(&l, 1));
    a.unpaint(&l, 1);
    assert_eq!(a, base);
}

#[test]
fn paint_twice_is_paint_once() {
    let mut a = Shape::new(UVec2::new(2, 2), false);
    let b = Shape::from_ones(1, vec![1, 1]);
    a.paint(&b, 1);
    let once = a.duplicate();
    a.paint(&b, 1);
    assert_eq!(a, once);
    assert_eq!(once, Shape::from_ones(2, vec![0, 1, 0, 1]));
}

#[test]
fn fits_again_after_unpaint() {
    let mut a = Shape::new(UVec2::new(3, 2), true);
    let b = Shape::from_ones(2, vec![1, 1, 1, 0]);
    assert!(!a.fits(&b, 0));
    a.unpaint(&b, 0);
    assert!(a.fits(&b, 0));
}

#[test]
fn fits_rejects_larger_shapes() {
    let a = Shape::new(UVec2::new(2, 2), false);
    let wide = Shape::new(UVec2::new(3, 1), false);
    let tall = Shape::new(UVec2::new(1, 3), false);
    assert!(!a.fits(&wide, 0));
    assert!(!a.fits(&tall, 0));
    assert!(a.fits(&Shape::new(UVec2::new(2, 2), true), 0));
}

#[test]
fn rotations_compose() {
    let a = Shape::from_ones(3, vec![1, 1, 0, 0, 1, 0]);
    assert_eq!(a.rotate90(), Shape::from_ones(2, vec![0, 1, 1, 1, 0, 0]));
    assert_eq!(a.rotate90().rotate90(), a.rotate180());
    assert_eq!(a.rotate180().rotate90(), a.rotate270());
    assert_eq!(a.rotate270().rotate90(), a);
    assert_eq!(a.rotate90().rotate90().rotate90().rotate90(), a);
}

#[test]
fn taking_out_an_item_leaves_the_others() {
    // Three items placed one after the other where each fits.
    let mut grid = Shape::new(UVec2::new(4, 2), false);
    let a = Shape::from_ones(2, vec![1, 1, 1, 0]);
    let b = Shape::from_ones(1, vec![1, 1]);
    let c = Shape::from_ones(1, vec![1]);
    assert!(grid.fits(&a, 0));
    grid.paint(&a, 0);
    assert!(grid.fits(&b, 2));
    grid.paint(&b, 2);
    assert!(grid.fits(&c, 5));
    grid.paint(&c, 5);
    assert_eq!(grid, Shape::from_ones(4, vec![1, 1, 1, 0, 1, 1, 1, 0]));
    // Taking out the middle one gives the grid painted with the other two only.
    grid.unpaint(&b, 2);
    let mut others = Shape::new(UVec2::new(4, 2), false);
    others.paint(&a, 0);
    others.paint(&c, 5);
    assert_eq!(grid, others);
}

#[test]
fn shape_without_rows_paints_nothing() {
    let base = Shape::from_ones(3, vec![1, 0, 0, 0, 1, 0]);
    let flat = Shape::from_ones(3, vec![]);
    assert_eq!(flat.height(), 0);
    assert!(base.fits(&flat, 3));
    let mut a = base.duplicate();
    a.paint(&flat, 3);
    assert_eq!(a, base);
    a.unpaint(&flat, 3);
    assert_eq!(a, base);
}
