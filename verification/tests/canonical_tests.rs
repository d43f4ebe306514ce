use planar::canonical::COORDINATE_LIMIT;
use planar::{GeometryError, Point, Polygon, Scalar};
use std::borrow::Cow;

fn steps(x: i64, y: i64) -> Point {
    Point { x: Scalar { raw: x }, y: Scalar { raw: y } }
}

fn p(x: i32, y: i32) -> Point {
    Point { x: Scalar::from_int(x), y: Scalar::from_int(y) }
}

fn vertices(poly: &Polygon<'_>) -> Vec<Point> {
    let mut it = poly.points();
    let mut out = Vec::new();
    while let Some(q) = it.next() {
        out.push(q);
    }
    out
}

fn square() -> Polygon<'static> {
    Polygon::new(Cow::Owned(vec![p(0, 0), p(1, 0), p(1, 1), p(0, 1)]))
}

#[test]
fn flip_rotate_keeps_the_first_edge() {
    let poly = Polygon::new(Cow::Owned(vec![p(2, 3), p(5, 7)]));
    assert_eq!(vertices(&poly.flip_rotate().unwrap()), vec![p(2, 3), p(5, 7)]);
}

#[test]
fn flip_rotate_of_the_unit_square() {
    // p1 - (p - p0): (1,0) - (1,1) = (0,-1); (1,0) - (0,1) = (1,-1)
    let turned = square().flip_rotate().unwrap();
    assert_eq!(vertices(&turned), vec![p(0, 0), p(1, 0), p(0, -1), p(1, -1)]);
    assert_eq!(turned.len(), 4);
}

#[test]
fn flip_rotate_reads_the_vertices_in_logical_order() {
    // From the second stored point on: p0 = (1,0), p1 = (1,1).
    let turned = square().align(1).flip_rotate().unwrap();
    // (1,1) - ((0,1) - (1,0)) = (2,0); (1,1) - ((0,0) - (1,0)) = (2,1)
    assert_eq!(vertices(&turned), vec![p(1, 0), p(1, 1), p(2, 0), p(2, 1)]);
}

#[test]
fn flip_rotate_twice_restores_the_polygon() {
    let pts = vec![p(3, -2), p(-4, 9), p(10, 11), p(0, 0), p(-7, -7), p(5, 1)];
    let poly = Polygon::new(Cow::Borrowed(&pts));
    let once = poly.flip_rotate().unwrap();
    assert_ne!(vertices(&once), pts);
    let twice = once.flip_rotate().unwrap();
    assert_eq!(vertices(&twice), pts);
}

#[test]
fn flip_rotate_result_starts_at_its_first_point() {
    let turned = square().align(3).flip_rotate().unwrap();
    assert_eq!(vertices(&turned)[0], p(0, 1));
    assert_eq!(vertices(&turned.align(4)), vertices(&turned));
}

#[test]
fn flip_reflect_keeps_the_first_edge() {
    let poly = Polygon::new(Cow::Owned(vec![p(2, 3), p(5, 7)]));
    assert_eq!(vertices(&poly.flip_reflect().unwrap()), vec![p(2, 3), p(5, 7)]);
}

#[test]
fn flip_reflect_keeps_a_first_edge_of_no_length() {
    let poly = Polygon::new(Cow::Owned(vec![p(2, 3), p(2, 3)]));
    assert_eq!(vertices(&poly.flip_reflect().unwrap()), vec![p(2, 3), p(2, 3)]);
}

#[test]
fn flip_reflect_without_an_axis_is_undefined() {
    let poly = Polygon::new(Cow::Owned(vec![p(2, 3), p(2, 3), p(4, 4)]));
    assert_eq!(poly.flip_reflect().err(), Some(GeometryError::UndefinedNormalization));
}

#[test]
fn flip_reflect_of_the_unit_square() {
    // axis (1,0). For (1,1): v = (1,1), v.onto(axis) = (1,0),
    // p0 - 2 * (0,1) = (0,-2). For (0,1): v = (0,1), v.onto(axis) = (0,0),
    // p0 - 2 * (0,1) = (0,-2).
    let mirrored = square().flip_reflect().unwrap();
    assert_eq!(vertices(&mirrored), vec![p(0, 0), p(1, 0), p(0, -2), p(0, -2)]);
}

#[test]
fn flip_reflect_twice_of_the_unit_square() {
    // The second pass starts from (0,-2): v = (0,-2), v.onto(axis) = (0,0),
    // p0 - 2 * (0,-2) = (0,4).
    let once = square().flip_reflect().unwrap();
    let twice = once.flip_reflect().unwrap();
    assert_eq!(vertices(&twice), vec![p(0, 0), p(1, 0), p(0, 4), p(0, 4)]);
}

#[test]
fn flip_reflect_with_a_longer_axis() {
    // p0 = (1,1), axis (0,2), unit (0,1). For (4,3): v = (3,2),
    // dot = 2, onto = 2 * (0,2) = (0,4), v - onto = (3,-2),
    // p0 - (6,-4) = (-5,5).
    let poly = Polygon::new(Cow::Owned(vec![p(1, 1), p(1, 3), p(4, 3)]));
    assert_eq!(vertices(&poly.flip_reflect().unwrap()), vec![p(1, 1), p(1, 3), p(-5, 5)]);
}

#[test]
fn flip_reflect_leaves_a_vertex_at_the_base_in_place() {
    let poly = Polygon::new(Cow::Owned(vec![p(1, 1), p(4, 5), p(1, 1), p(1, 1)]));
    let once = poly.flip_reflect().unwrap();
    assert_eq!(vertices(&once), vec![p(1, 1), p(4, 5), p(1, 1), p(1, 1)]);
    let twice = once.flip_reflect().unwrap();
    assert_eq!(vertices(&twice), vec![p(1, 1), p(4, 5), p(1, 1), p(1, 1)]);
}

#[test]
fn reorient_of_the_unit_square() {
    // direction: -(1,0) * (0,1) = (0,-1), already of length one.
    // T rotates by (0,-1) and shifts by p0 - p1 = (-1,0):
    // (x, y) -> (y - 1, -x).
    let framed = square().reorient().unwrap();
    assert_eq!(vertices(&framed), vec![p(-1, 0), p(-1, -1), p(0, -1), p(0, 0)]);
}

#[test]
fn reorient_normalizes_the_direction() {
    // Edges (2,0) and (0,3): direction -(2,0) * (0,3) = (0,-6), unit (0,-1).
    // T: (x, y) -> (y + (p0 - p1).x, -x + (p0 - p1).y) = (y - 2, -x).
    let poly = Polygon::new(Cow::Owned(vec![p(0, 0), p(2, 0), p(2, 3), p(-1, 5)]));
    let framed = poly.reorient().unwrap();
    assert_eq!(vertices(&framed), vec![p(-2, 0), p(-2, -2), p(1, -2), p(3, 1)]);
}

#[test]
fn reorient_with_a_skew_direction() {
    // Edges (1,0) and (1,1): direction -(1,0) * (1,1) = (-1,-1).
    // Its unit vector is (-1/sqrt 2, -1/sqrt 2), rounded down.
    let poly = Polygon::new(Cow::Owned(vec![p(0, 0), p(1, 0), p(2, 1)]));
    let framed = poly.reorient().unwrap();
    let got = vertices(&framed);
    let scale = (1u64 << 32) as f64;
    let r = 0.5f64.sqrt();
    let expected = [(-1.0, 0.0), (-1.0 - r, -r), (-1.0 - r, -3.0 * r)];
    for (q, (ex, ey)) in got.iter().zip(expected) {
        assert!((q.x.raw as f64 / scale - ex).abs() < 1e-8);
        assert!((q.y.raw as f64 / scale - ey).abs() < 1e-8);
    }
    assert_eq!(got[0], p(-1, 0));
}

#[test]
fn reorient_without_a_direction_is_undefined() {
    // The first edge has no length.
    let a = Polygon::new(Cow::Owned(vec![p(1, 1), p(1, 1), p(2, 2)]));
    assert_eq!(a.reorient().err(), Some(GeometryError::UndefinedNormalization));
    // The second edge has no length.
    let b = Polygon::new(Cow::Owned(vec![p(1, 1), p(2, 2), p(2, 2), p(5, 5)]));
    assert_eq!(b.reorient().err(), Some(GeometryError::UndefinedNormalization));
}

#[test]
fn reorient_reads_the_vertices_in_logical_order() {
    // From the third stored point on: p0 = (1,1), p1 = (0,1), p2 = (0,0).
    // direction: -(-1,0) * (0,-1) = (1,0) * (0,-1) = (0,-1); shift (1,0).
    // T: (x, y) -> (y + 1, -x).
    let framed = square().align(2).reorient().unwrap();
    assert_eq!(vertices(&framed), vec![p(2, -1), p(2, 0), p(1, 0), p(1, -1)]);
}

#[test]
fn canonical_forms_leave_the_input_untouched() {
    let pts = vec![p(0, 0), p(1, 0), p(1, 1), p(0, 1)];
    let poly = Polygon::new(Cow::Borrowed(&pts));
    let _ = poly.flip_rotate().unwrap();
    let _ = poly.flip_reflect().unwrap();
    let _ = poly.reorient().unwrap();
    assert_eq!(vertices(&poly), pts);
}

#[test]
fn reorient_of_a_shifted_polygon_uses_the_same_transform() {
    // The square moved by (1, 0) has the same edges, so the same transform
    // (x, y) -> (y - 1, -x); its images lie (0, -1) from those of the square.
    let moved = Polygon::new(Cow::Owned(vec![p(1, 0), p(2, 0), p(2, 1), p(1, 1)]));
    let framed = moved.reorient().unwrap();
    assert_eq!(vertices(&framed), vec![p(-1, -1), p(-1, -2), p(0, -2), p(0, -1)]);
}

#[test]
fn coordinate_limit_is_8192() {
    assert_eq!(COORDINATE_LIMIT, 8192i64 << 32);
    assert_eq!(Scalar::from_int(8192).raw, COORDINATE_LIMIT);
}

#[test]
fn within_limit_tells_small_polygons_from_large() {
    assert!(square().within_limit());
    assert!(Polygon::new(Cow::Owned(Vec::new())).within_limit());
    assert!(Polygon::new(Cow::Owned(vec![p(8192, -8192), p(-8192, 8192)])).within_limit());
    assert!(!Polygon::new(Cow::Owned(vec![p(0, 0), p(8193, 0)])).within_limit());
    assert!(!Polygon::new(Cow::Owned(vec![p(0, -8193), p(0, 0)])).within_limit());
    let just_over = Point { x: Scalar { raw: COORDINATE_LIMIT + 1 }, y: Scalar { raw: 0 } };
    assert!(!Polygon::new(Cow::Owned(vec![p(0, 0), p(1, 1), just_over])).align(1).within_limit());
}

#[test]
fn canonical_forms_at_the_coordinate_limit() {
    let big = Polygon::new(Cow::Owned(vec![p(-8192, -8192), p(8192, 8192), p(8192, -8192), p(-8192, 8192)]));
    assert!(big.within_limit());
    // p1 - (p - p0): (8192,8192) - (16384,0) = (-8192,8192);
    // (8192,8192) - (0,16384) = (8192,-8192)
    assert_eq!(
        vertices(&big.flip_rotate().unwrap()),
        vec![p(-8192, -8192), p(8192, 8192), p(-8192, 8192), p(8192, -8192)]
    );
    assert_eq!(big.flip_reflect().unwrap().len(), 4);
    assert_eq!(big.reorient().unwrap().len(), 4);
}

#[test]
fn reorient_of_a_small_triangle_keeps_its_size() {
    // Edges of 2^-16. The exact product of the edges is (2^32, 2^32) in
    // squared steps; its unit vector is (1/sqrt 2, 1/sqrt 2).
    let tri = Polygon::new(Cow::Owned(vec![steps(0, 0), steps(65536, 0), steps(0, -65536)]));
    let framed = tri.reorient().unwrap();
    let got = vertices(&framed);
    assert_eq!(got, vec![steps(-65536, 0), steps(-19196, 46340), steps(-19196, -46341)]);
    // The first edge is as long as it was, within two steps.
    let (dx, dy) = ((got[1].x.raw - got[0].x.raw) as f64, (got[1].y.raw - got[0].y.raw) as f64);
    assert!(((dx * dx + dy * dy).sqrt() - 65536.0).abs() <= 2.0);
}

#[test]
fn reorient_accepts_a_triangle_with_short_edges() {
    // direction: -(32768, 0) * (0, -32768) = (0, 2^30) in squared steps, unit (0, 1);
    // T: (x, y) -> (-y - 32768, x).
    let tri = Polygon::new(Cow::Owned(vec![steps(0, 0), steps(32768, 0), steps(32768, -32768)]));
    let framed = tri.reorient().unwrap();
    assert_eq!(vertices(&framed), vec![steps(-32768, 0), steps(-32768, 32768), steps(0, 32768)]);
    let mirror = Polygon::new(Cow::Owned(vec![steps(0, 0), steps(32768, 0), steps(32768, 32768)]));
    assert_eq!(vertices(&mirror.reorient().unwrap()), vec![steps(-32768, 0), steps(-32768, -32768), steps(0, -32768)]);
}

#[test]
fn reorient_of_edges_of_one_step() {
    let tri = Polygon::new(Cow::Owned(vec![steps(0, 0), steps(1, 0), steps(1, 1)]));
    // direction -(1, 0) * (0, 1) = (0, -1), unit (0, -1); T: (x, y) -> (y - 1, -x)
    assert_eq!(vertices(&tri.reorient().unwrap()), vec![steps(-1, 0), steps(-1, -1), steps(0, -1)]);
}

#[test]
fn reorient_fails_only_where_an_edge_has_no_length() {
    let ok = Polygon::new(Cow::Owned(vec![steps(5, 5), steps(6, 5), steps(6, 6), steps(5, 5)]));
    assert!(ok.reorient().is_ok());
    let first = Polygon::new(Cow::Owned(vec![steps(5, 5), steps(5, 5), steps(6, 6)]));
    assert_eq!(first.reorient().err(), Some(GeometryError::UndefinedNormalization));
    let second = Polygon::new(Cow::Owned(vec![steps(5, 5), steps(6, 6), steps(6, 6)]));
    assert_eq!(second.reorient().err(), Some(GeometryError::UndefinedNormalization));
    // Three points in line have edges with a product.
    let line = Polygon::new(Cow::Owned(vec![steps(0, 0), steps(1, 1), steps(2, 2)]));
    assert!(line.reorient().is_ok());
}

#[test]
fn flip_reflect_about_a_short_edge() {
    // axis (2^-16, 0), unit (1, 0). For (65536, 65536) steps: dot = 65536
    // steps, onto = 65536 steps * 2^-16 = (1 step, 0), v - onto =
    // (65535, 65536), p0 - 2 * that = (-131070, -131072).
    let poly = Polygon::new(Cow::Owned(vec![steps(0, 0), steps(65536, 0), steps(65536, 65536)]));
    assert_eq!(
        vertices(&poly.flip_reflect().unwrap()),
        vec![steps(0, 0), steps(65536, 0), steps(-131070, -131072)]
    );
    // axis (3, 4) steps, unit (0.6, 0.8). For (10, 0): dot = 6 less a step,
    // onto = (0, 0) after rounding, p0 - 2 * v = (-20, 0) less the rounding.
    let skew = Polygon::new(Cow::Owned(vec![steps(0, 0), steps(3, 4), p(10, 0)]));
    assert_eq!(vertices(&skew.flip_reflect().unwrap()), vec![steps(0, 0), steps(3, 4), steps(-85899345886, 46)]);
}
