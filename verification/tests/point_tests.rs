use planar::{Point, Scalar, Vect};

fn p(x: i32, y: i32) -> Point {
    Point { x: Scalar::from_int(x), y: Scalar::from_int(y) }
}

fn v(x: i32, y: i32) -> Vect {
    Vect { x: Scalar::from_int(x), y: Scalar::from_int(y) }
}

#[test]
fn default_point_is_the_origin() {
    assert_eq!(Point::default(), p(0, 0));
}

#[test]
fn point_minus_point_is_a_vector() {
    assert_eq!(p(5, 7).sub(p(2, 10)), v(3, -3));
}

#[test]
fn point_plus_vector_is_a_point() {
    assert_eq!(p(5, 7).add(v(-5, 1)), p(0, 8));
}

#[test]
fn point_minus_vector_is_a_point() {
    assert_eq!(p(5, 7).sub_vect(v(-5, 1)), p(10, 6));
}

#[test]
fn add_then_sub_gives_the_vector_back() {
    let a = p(3, -4);
    let d = Vect { x: Scalar { raw: 123456789 }, y: Scalar { raw: -987654321 } };
    assert_eq!(a.add(d).sub(a), d);
}

#[test]
fn sub_then_add_gives_the_point_back() {
    let a = Point { x: Scalar { raw: -5 }, y: Scalar { raw: 77 } };
    let d = v(1000, -2000);
    assert_eq!(a.sub_vect(d).add(d), a);
}
