use porter::Rect;

#[test]
fn edges() {
    let rect = Rect::new(2, 3, 10, 20);
    assert_eq!(rect.left(), 2);
    assert_eq!(rect.top(), 3);
    assert_eq!(rect.right(), 12);
    assert_eq!(rect.bottom(), 23);
}

#[test]
fn overlapping_rects_intersect() {
    let a = Rect::new(0, 0, 10, 10);
    let b = Rect::new(5, 5, 10, 10);
    assert_eq!(a.intersection(&b), Some(Rect::new(5, 5, 5, 5)));
    assert_eq!(b.intersection(&a), Some(Rect::new(5, 5, 5, 5)));
    assert!(a.intersects(&b));
}

#[test]
fn contained_rect_is_the_intersection() {
    let outer = Rect::new(0, 0, 100, 100);
    let inner = Rect::new(10, 20, 30, 40);
    assert_eq!(outer.intersection(&inner), Some(inner));
    assert_eq!(inner.intersection(&inner), Some(inner));
}

#[test]
fn touching_rects_do_not_intersect() {
    let a = Rect::new(0, 0, 5, 5);
    let b = Rect::new(5, 0, 5, 5);
    assert_eq!(a.intersection(&b), None);
    assert!(!a.intersects(&b));
}

#[test]
fn disjoint_rects_do_not_intersect() {
    let a = Rect::new(0, 0, 5, 5);
    let b = Rect::new(50, 50, 5, 5);
    assert_eq!(a.intersection(&b), None);
    assert!(!b.intersects(&a));
}

#[test]
fn empty_rect_intersects_nothing() {
    let a = Rect::new(0, 0, 0, 10);
    let b = Rect::new(0, 0, 10, 10);
    assert_eq!(a.intersection(&b), None);
    assert_eq!(Rect::default(), Rect::new(0, 0, 0, 0));
}
