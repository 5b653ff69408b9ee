use graphific::{Edge, Vertex};
use std::cmp::Ordering;

#[test]
fn vertices_are_equal_when_their_keys_are() {
    let a: Vertex<i32, i32> = Vertex::with_value(1, 10);
    let b: Vertex<i32, i32> = Vertex::with_value(1, 20);
    let c: Vertex<i32, i32> = Vertex::with_value(2, 10);
    assert!(a == b);
    assert!(a != c);
    assert_eq!(Some(Ordering::Equal), a.partial_cmp(&b));
    assert_eq!(Some(Ordering::Less), a.partial_cmp(&c));
    assert_eq!(Some(Ordering::Greater), c.partial_cmp(&b));
    assert!(a < c && c > a && a <= b);
}

#[test]
fn setting_the_value_leaves_the_key() {
    let mut v: Vertex<i32, i32> = Vertex::with_value(4, 1);
    v.set_value(9);
    assert_eq!((4, 9), (*v.key(), *v.value()));
    let copy = v;
    v.set_value(2);
    assert_eq!((4, 9), (*copy.key(), *copy.value()));
    assert_eq!((4, 2), (*v.key(), *v.value()));
    assert_eq!(2, *v.clone().value());
}

#[test]
fn edges_are_equal_when_their_ends_are() {
    let a: Edge<i32, i32> = Edge::with_weight(1, 2, 5);
    let b: Edge<i32, i32> = Edge::with_weight(1, 2, 7);
    let c: Edge<i32, i32> = Edge::with_weight(2, 1, 5);
    assert!(a == b);
    assert!(a != c);
    assert_eq!(7, *b.weight());
    assert_eq!(5, *a.clone().weight());
    let d: Edge<i32> = Edge::new(3, 4);
    assert_eq!((3, 4, 0i8), (*d.from(), *d.to(), *d.weight()));
}

#[test]
fn edges_are_ordered_by_origin_and_then_by_destination() {
    let e = |from: i32, to: i32, weight: i32| -> Edge<i32, i32> { Edge::with_weight(from, to, weight) };
    assert_eq!(Some(Ordering::Less), e(1, 5, 0).partial_cmp(&e(2, 0, 0)));
    assert_eq!(Some(Ordering::Less), e(1, 2, 9).partial_cmp(&e(1, 3, 0)));
    assert_eq!(Some(Ordering::Equal), e(1, 2, 9).partial_cmp(&e(1, 2, 0)));
    assert_eq!(Some(Ordering::Greater), e(1, 3, 0).partial_cmp(&e(1, 2, 9)));
    assert_eq!(Some(Ordering::Greater), e(2, 0, 0).partial_cmp(&e(1, 5, 9)));
    assert_eq!(Ordering::Less, e(1, 2, 9).natural_cmp(&e(1, 3, 0)));
    assert_eq!(Ordering::Equal, e(1, 2, 9).natural_cmp(&e(1, 2, 0)));
    assert_eq!(Ordering::Greater, e(2, 0, 0).natural_cmp(&e(1, 5, 9)));
    assert!(e(1, 2, 0) < e(1, 3, 0));
}
