use planar::{GeometryError, Point, PointIter, Polygon, Scalar};
use std::borrow::Cow;

fn p(x: i32, y: i32) -> Point {
    Point { x: Scalar::from_int(x), y: Scalar::from_int(y) }
}

fn collect(mut it: PointIter<'_>) -> Vec<Point> {
    let mut out = Vec::new();
    while let Some(q) = it.next() {
        out.push(q);
    }
    out
}

fn square() -> Vec<Point> {
    vec![p(0, 0), p(1, 0), p(1, 1), p(0, 1)]
}

#[test]
fn new_polygon_starts_at_the_first_point() {
    let poly = Polygon::new(Cow::Owned(square()));
    assert_eq!(poly.len(), 4);
    assert_eq!(collect(poly.points()), square());
}

#[test]
fn borrowed_polygon_reads_the_callers_points() {
    let pts = square();
    let poly = Polygon::new(Cow::Borrowed(&pts));
    assert_eq!(poly.len(), 4);
    assert_eq!(collect(poly.align(2).points()), vec![p(1, 1), p(0, 1), p(0, 0), p(1, 0)]);
    assert_eq!(pts, square());
}

#[test]
fn empty_polygon_has_no_points() {
    let poly = Polygon::new(Cow::Owned(Vec::new()));
    assert_eq!(poly.len(), 0);
    assert_eq!(collect(poly.points()), Vec::new());
    assert_eq!(collect(poly.align(3).points()), Vec::new());
    assert_eq!(poly.align(-1).len(), 0);
}

#[test]
fn align_one_rotates_left_by_one() {
    let poly = Polygon::new(Cow::Owned(square()));
    assert_eq!(collect(poly.align(1).points()), vec![p(1, 0), p(1, 1), p(0, 1), p(0, 0)]);
}

#[test]
fn align_full_turn_keeps_the_order() {
    let poly = Polygon::new(Cow::Owned(square()));
    assert_eq!(collect(poly.align(4).points()), square());
    assert_eq!(collect(poly.align(0).points()), square());
    assert_eq!(collect(poly.align(-4).points()), square());
    assert_eq!(collect(poly.align(400).points()), square());
}

#[test]
fn align_takes_the_shift_modulo_the_length() {
    let poly = Polygon::new(Cow::Owned(square()));
    assert_eq!(collect(poly.align(5).points()), collect(poly.align(1).points()));
    assert_eq!(collect(poly.align(-1).points()), vec![p(0, 1), p(0, 0), p(1, 0), p(1, 1)]);
    assert_eq!(collect(poly.align(-7).points()), collect(poly.align(1).points()));
    assert_eq!(collect(poly.align(isize::MAX).points()), collect(poly.align(3).points()));
    assert_eq!(collect(poly.align(isize::MIN).points()), square());
}

#[test]
fn align_composes() {
    let poly = Polygon::new(Cow::Owned(square()));
    assert_eq!(collect(poly.align(3).align(2).points()), collect(poly.align(1).points()));
    assert_eq!(collect(poly.align(1).align(-1).points()), square());
}

#[test]
fn align_leaves_the_polygon_as_it_was() {
    let poly = Polygon::new(Cow::Owned(square()));
    let turned = poly.align(2);
    assert_eq!(collect(poly.points()), square());
    assert_eq!(turned.len(), 4);
}

#[test]
fn points_is_a_single_pass() {
    let poly = Polygon::new(Cow::Owned(vec![p(1, 2), p(3, 4)]));
    let turned = poly.align(1);
    let mut it = turned.points();
    assert_eq!(it.next(), Some(p(3, 4)));
    assert_eq!(it.next(), Some(p(1, 2)));
    assert_eq!(it.next(), None);
    assert_eq!(it.next(), None);
}

#[test]
fn flip_rotate_on_short_polygon_is_insufficient() {
    let empty = Polygon::new(Cow::Owned(Vec::new()));
    assert_eq!(empty.flip_rotate().err(), Some(GeometryError::InsufficientVertices));
    let one = Polygon::new(Cow::Owned(vec![p(1, 1)]));
    assert_eq!(one.flip_rotate().err(), Some(GeometryError::InsufficientVertices));
}

#[test]
fn flip_reflect_on_short_polygon_is_insufficient() {
    let empty = Polygon::new(Cow::Owned(Vec::new()));
    assert_eq!(empty.flip_reflect().err(), Some(GeometryError::InsufficientVertices));
    let one = Polygon::new(Cow::Owned(vec![p(1, 1)]));
    assert_eq!(one.flip_reflect().err(), Some(GeometryError::InsufficientVertices));
}

#[test]
fn reorient_on_short_polygon_is_insufficient() {
    let empty = Polygon::new(Cow::Owned(Vec::new()));
    assert_eq!(empty.reorient().err(), Some(GeometryError::InsufficientVertices));
    let one = Polygon::new(Cow::Owned(vec![p(1, 1)]));
    assert_eq!(one.reorient().err(), Some(GeometryError::InsufficientVertices));
    let two = Polygon::new(Cow::Owned(vec![p(0, 0), p(1, 0)]));
    assert_eq!(two.reorient().err(), Some(GeometryError::InsufficientVertices));
}
