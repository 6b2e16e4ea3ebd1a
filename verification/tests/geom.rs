use crabwalk::geom::IRect;

#[test]
fn union_of_two_rects_covers_both() {
    let a = IRect::new(0, 0, 10, 10);
    let b = IRect::new(20, 5, 10, 10);
    let u = a.union(&b);
    assert_eq!(u, IRect::new(0, 0, 30, 15));
}

#[test]
fn union_with_empty_is_identity() {
    let a = IRect::new(5, 5, 10, 10);
    assert_eq!(a.union(&IRect::empty()), a);
    assert_eq!(IRect::empty().union(&a), a);
}

#[test]
fn clamp_keeps_the_rect_inside_the_window() {
    let r = IRect::new(-5, -5, 20, 20).clamp_to(10, 10);
    assert_eq!(r, IRect::new(0, 0, 10, 10));

    let off = IRect::new(50, 50, 10, 10).clamp_to(10, 10);
    assert!(off.is_empty());
}

#[test]
fn contains_is_half_open() {
    let r = IRect::new(0, 0, 10, 10);
    let at = |x: f32, y: f32| r.contains_pixel(x.floor() as i32, y.floor() as i32);
    assert!(at(0.0, 0.0));
    assert!(at(9.9, 9.9));
    assert!(!at(10.0, 5.0));
    assert!(!at(-0.1, 5.0));
}

#[test]
fn inflate_grows_on_every_side() {
    let r = IRect::new(10, 10, 5, 5).inflate(2);
    assert_eq!(r, IRect::new(8, 8, 9, 9));
    // An empty rect has no edges to grow.
    assert!(IRect::empty().inflate(4).is_empty());
}

#[test]
fn negative_extents_collapse_to_empty() {
    assert!(IRect::new(0, 0, -5, 10).is_empty());
}

#[test]
fn new_keeps_non_negative_extents_as_given() {
    let r = IRect::new(-3, 4, 7, 0);
    assert_eq!((r.x, r.y, r.width, r.height), (-3, 4, 7, 0));
    assert!(r.is_empty());
    let r = IRect::new(1, 2, -1, -9);
    assert_eq!((r.width, r.height), (0, 0));
}

#[test]
fn right_and_bottom_are_the_far_edges() {
    let r = IRect::new(3, 4, 10, 20);
    assert_eq!(r.right(), 13);
    assert_eq!(r.bottom(), 24);
}

#[test]
fn union_is_the_bounding_box_in_either_order() {
    let a = IRect::new(-4, 10, 3, 2);
    let b = IRect::new(6, -1, 5, 4);
    assert_eq!(a.union(&b), IRect::new(-4, -1, 15, 13));
    assert_eq!(b.union(&a), a.union(&b));
}

#[test]
fn union_of_two_empties_is_the_second() {
    let a = IRect::new(1, 1, 0, 0);
    let b = IRect::new(7, 7, 0, 3);
    assert_eq!(a.union(&b), b);
}

#[test]
fn clamp_trims_only_the_overhang() {
    let r = IRect::new(5, 6, 20, 20).clamp_to(15, 16);
    assert_eq!(r, IRect::new(5, 6, 10, 10));
    let inside = IRect::new(1, 2, 3, 4);
    assert_eq!(inside.clamp_to(100, 100), inside);
}

#[test]
fn inflate_by_a_negative_amount_shrinks_and_collapses() {
    assert_eq!(IRect::new(0, 0, 10, 10).inflate(-2), IRect::new(2, 2, 6, 6));
    assert!(IRect::new(0, 0, 2, 2).inflate(-3).is_empty());
}

#[test]
fn contains_pixel_checks_both_axes() {
    let r = IRect::new(2, 3, 4, 5);
    assert!(r.contains_pixel(2, 3));
    assert!(r.contains_pixel(5, 7));
    assert!(!r.contains_pixel(6, 3));
    assert!(!r.contains_pixel(2, 8));
    assert!(!r.contains_pixel(1, 4));
}

#[test]
fn union_with_empty_needs_no_arithmetic() {
    let far = IRect::new(i32::MAX, i32::MAX, 10, 10);
    assert_eq!(far.union(&IRect::empty()), far);
    assert_eq!(IRect::empty().union(&far), far);
}
