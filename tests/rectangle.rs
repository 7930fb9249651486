use monochroma::Rectangle;

fn rect(left: i32, top: i32, right: i32, bottom: i32) -> Rectangle {
    Rectangle { left, top, right, bottom }
}

#[test]
fn intersection_is_commutative() {
    let a = rect(0, 0, 10, 10);
    let b = rect(5, -3, 20, 7);
    assert_eq!(a.intersection(b), b.intersection(a));
    assert_eq!(a.intersection(b), rect(5, 0, 10, 7));
}

#[test]
fn intersection_with_self_is_self() {
    let a = rect(-4, 2, 9, 11);
    assert_eq!(a.intersection(a), a);
}

#[test]
fn intersection_with_empty_is_empty() {
    let a = rect(0, 0, 10, 10);
    let e = rect(3, 3, 3, 8);
    assert!(a.intersection(e).is_empty());
    assert!(e.intersection(a).is_empty());
    assert_eq!(a.intersection(e), rect(0, 0, 0, 0));
}

#[test]
fn disjoint_intersection_is_zero_rectangle() {
    let a = rect(0, 0, 10, 10);
    let b = rect(20, 20, 30, 30);
    assert_eq!(a.intersection(b), rect(0, 0, 0, 0));
    assert_eq!(b.intersection(a), rect(0, 0, 0, 0));
}

#[test]
fn union_contains_both() {
    let a = rect(0, 0, 10, 10);
    let b = rect(5, -3, 20, 7);
    let u = a.union(b);
    assert_eq!(u, rect(0, -3, 20, 10));
    assert_eq!(b.union(a), u);
}

#[test]
fn union_with_empty_is_identity() {
    let a = rect(1, 2, 3, 4);
    let e = rect(9, 9, 0, 0);
    assert_eq!(a.union(e), a);
    assert_eq!(e.union(a), a);
    let f = rect(1, 1, 1, 1);
    let z = rect(0, 0, 0, 0);
    assert_eq!(f.union(z), f);
    assert_eq!(z.union(f), z);
}

#[test]
fn expand_by_grows_every_edge() {
    assert_eq!(rect(0, 0, 4, 4).expand_by(3), rect(-3, -3, 7, 7));
}

#[test]
fn sizes_clamp_to_zero() {
    let a = rect(2, 3, 12, 8);
    assert_eq!(a.get_width(), 10);
    assert_eq!(a.get_height(), 5);
    assert_eq!(a.get_area(), 50);
    let e = rect(12, 8, 2, 3);
    assert!(e.is_empty());
    assert_eq!(e.get_width(), 0);
    assert_eq!(e.get_height(), 0);
    assert_eq!(e.get_area(), 0);
}

#[test]
fn width_spans_whole_i32_range() {
    let a = rect(i32::MIN, 0, i32::MAX, 1);
    assert_eq!(a.get_width(), u32::MAX);
}
