use planar::scalar::SCALE;
use planar::{GeometryError, Scalar, Vect};

fn s(n: i32) -> Scalar {
    Scalar::from_int(n)
}

fn v(x: i32, y: i32) -> Vect {
    Vect { x: s(x), y: s(y) }
}

fn raw(x: i64, y: i64) -> Vect {
    Vect { x: Scalar { raw: x }, y: Scalar { raw: y } }
}

#[test]
fn scalar_from_int_counts_grid_steps() {
    assert_eq!(s(1).raw, 1i64 << 32);
    assert_eq!(s(1).raw, SCALE);
    assert_eq!(s(-3).raw, -3 * SCALE);
    assert_eq!(s(0).raw, 0);
    assert_eq!(s(i32::MIN).raw, i64::MIN);
    assert_eq!(s(i32::MAX).raw, (i32::MAX as i64) << 32);
}

#[test]
fn is_zero_needs_both_components_zero() {
    assert!(v(0, 0).is_zero());
    assert!(!v(1, 0).is_zero());
    assert!(!v(0, -1).is_zero());
    assert!(!raw(0, 1).is_zero());
}

#[test]
fn dot_of_whole_vectors_is_exact() {
    assert_eq!(v(1, 2).dot(v(3, 4)), s(11));
    assert_eq!(v(-1, 2).dot(v(3, 4)), s(5));
    assert_eq!(v(2, 0).dot(v(0, 7)), s(0));
}

#[test]
fn dot_rounds_down() {
    // (1/2) * (1/2^32) is half a grid step.
    assert_eq!(raw(SCALE / 2, 0).dot(raw(1, 0)).raw, 0);
    assert_eq!(raw(-SCALE / 2, 0).dot(raw(1, 0)).raw, -1);
    // The two products are added before the rounding.
    assert_eq!(raw(SCALE / 2, SCALE / 2).dot(raw(1, 1)).raw, 1);
}

#[test]
fn norm_of_three_four_is_five() {
    assert_eq!(v(3, 4).norm(), s(5));
    assert_eq!(v(-3, 4).norm(), s(5));
    assert_eq!(v(0, 0).norm(), s(0));
    assert_eq!(v(0, -7).norm(), s(7));
}

#[test]
fn norm_rounds_the_root_down() {
    // sqrt(2) = 1.41421356237309504880...; times 2^32 it is 6074000999.95...
    assert_eq!(v(1, 1).norm().raw, 6074000999);
    assert_eq!(raw(1, 1).norm().raw, 1);
    assert_eq!(raw(2, 2).norm().raw, 2);
    assert_eq!(raw(i64::MAX, 0).norm().raw, i64::MAX);
    assert_eq!(raw(i64::MIN + 1, 0).norm().raw, i64::MAX);
}

#[test]
fn norm_is_close_to_the_float_root() {
    let n = v(2, 3).norm().raw as f64 / SCALE as f64;
    assert!((n - 13f64.sqrt()).abs() < 1e-9);
}

#[test]
fn unit_of_zero_vector_is_undefined() {
    assert_eq!(v(0, 0).unit(), Err(GeometryError::UndefinedNormalization));
}

#[test]
fn unit_of_axis_vectors_is_exact() {
    assert_eq!(v(5, 0).unit(), Ok(v(1, 0)));
    assert_eq!(v(0, -9).unit(), Ok(v(0, -1)));
    assert_eq!(raw(1, 0).unit(), Ok(v(1, 0)));
    assert_eq!(raw(0, i64::MIN).unit(), Ok(v(0, -1)));
}

#[test]
fn unit_of_three_four() {
    // 3/5 and 4/5 of 2^32, rounded down.
    let u = v(3, 4).unit().unwrap();
    assert_eq!(u.x.raw, 2576980377);
    assert_eq!(u.y.raw, 3435973836);
    let w = v(-3, 4).unit().unwrap();
    assert_eq!(w.x.raw, -2576980378);
    assert_eq!(w.y.raw, 3435973836);
}

#[test]
fn unit_has_length_one_within_two_steps() {
    for (x, y) in [(3, 4), (1, 1), (-7, 2), (1000, -1), (0, 5), (-2, -3)] {
        let n = v(x, y).unit().unwrap().norm().raw;
        assert!((n - SCALE).abs() <= 2, "norm of unit({x}, {y}) is {n}");
    }
}

#[test]
fn unit_is_parallel_with_positive_factor() {
    let a = v(6, -8);
    let u = a.unit().unwrap();
    // u * |a| leads back to a, up to the rounding of u.
    let back = u.scale(a.norm());
    assert!((back.x.raw - a.x.raw).abs() <= 10);
    assert!((back.y.raw - a.y.raw).abs() <= 10);
    assert!(u.x.raw > 0 && u.y.raw < 0);
}

#[test]
fn onto_zero_vector_is_undefined() {
    assert_eq!(v(1, 2).onto(v(0, 0)), Err(GeometryError::UndefinedNormalization));
}

#[test]
fn onto_unit_axis_is_the_projection() {
    assert_eq!(v(3, 4).onto(v(1, 0)), Ok(v(3, 0)));
    assert_eq!(v(3, 4).onto(v(0, 1)), Ok(v(0, 4)));
    assert_eq!(v(3, 4).onto(v(0, -1)), Ok(v(0, 4)));
}

#[test]
fn onto_stretches_by_the_length_of_the_axis() {
    // dot((3, 4), unit((2, 0))) = 3, and 3 * (2, 0) = (6, 0).
    assert_eq!(v(3, 4).onto(v(2, 0)), Ok(v(6, 0)));
}

#[test]
fn onto_doubles_a_multiple_of_an_axis_of_length_two() {
    assert_eq!(v(2, 0).onto(v(2, 0)), Ok(v(4, 0)));
    assert_eq!(v(0, -6).onto(v(0, 2)), Ok(v(0, -12)));
}

#[test]
fn onto_keeps_a_multiple_of_a_unit_axis() {
    for k in [-5, -1, 1, 2, 40] {
        assert_eq!(v(k, 0).onto(v(1, 0)), Ok(v(k, 0)));
        assert_eq!(v(0, -k).onto(v(0, -1)), Ok(v(0, -k)));
    }
}

#[test]
fn neg_add_sub_are_componentwise() {
    assert_eq!(v(1, -2).neg(), v(-1, 2));
    assert_eq!(v(1, 2).add(v(10, 20)), v(11, 22));
    assert_eq!(v(1, 2).sub(v(10, 20)), v(-9, -18));
    assert_eq!(raw(i64::MAX, 0).neg(), raw(-i64::MAX, 0));
    assert_eq!(raw(i64::MAX - 1, i64::MIN + 1).add(raw(1, -1)), raw(i64::MAX, i64::MIN));
}

#[test]
fn scale_multiplies_both_components() {
    assert_eq!(v(1, -2).scale(s(3)), v(3, -6));
    assert_eq!(v(4, 6).scale(Scalar { raw: SCALE / 2 }), v(2, 3));
    assert_eq!(raw(1, -1).scale(Scalar { raw: SCALE / 2 }), raw(0, -1));
}

#[test]
fn mul_is_complex_multiplication() {
    // (1 + 2i)(3 + 4i) = -5 + 10i
    assert_eq!(v(1, 2).mul(v(3, 4)), v(-5, 10));
    // i * i = -1
    assert_eq!(v(0, 1).mul(v(0, 1)), v(-1, 0));
    // multiplying by one changes nothing
    assert_eq!(v(7, -3).mul(v(1, 0)), v(7, -3));
    // (5i) * 2 = 10i: the second component is x1*y2 + x2*y1
    assert_eq!(v(0, 5).mul(v(2, 0)), v(0, 10));
}

#[test]
fn div_divides_both_components() {
    assert_eq!(v(6, -9).div(s(3)), v(2, -3));
    assert_eq!(v(6, -9).div(s(-3)), v(-2, 3));
    assert_eq!(v(1, 0).div(s(2)), raw(SCALE / 2, 0));
    // one third, rounded down on either side of zero
    assert_eq!(v(1, -1).div(s(3)), raw(1431655765, -1431655766));
    assert_eq!(v(1, -1).div(s(-3)), raw(-1431655766, 1431655765));
}

#[test]
fn unit_of_a_vector_of_whole_length_is_the_vector_divided_by_it() {
    let a = v(5, 12);
    assert_eq!(a.unit(), Ok(a.div(a.norm())));
}

#[test]
fn unit_of_vectors_shorter_than_one() {
    // 1/sqrt(2) of 2^32 is 3037000499.97...
    assert_eq!(raw(65536, 65536).unit(), Ok(raw(3037000499, 3037000499)));
    assert_eq!(raw(1, 1).unit(), Ok(raw(3037000499, 3037000499)));
    // (-1, 2) / sqrt(5): -0.4472135955 and 0.894427191 of 2^32, rounded down
    assert_eq!(raw(-1, 2).unit(), Ok(raw(-1920767767, 3841535533)));
    assert_eq!(raw(3, 4).unit(), Ok(raw(2576980377, 3435973836)));
    assert_eq!(raw(-1, 0).unit(), Ok(v(-1, 0)));
}

#[test]
fn unit_of_the_longest_vectors() {
    assert_eq!(raw(i64::MAX, i64::MIN).unit(), Ok(raw(3037000499, -3037000500)));
    assert_eq!(raw(i64::MIN, 0).unit(), Ok(v(-1, 0)));
}

#[test]
fn unit_does_not_depend_on_the_length() {
    let u = v(1, 1).unit();
    for a in [raw(1, 1), raw(7, 7), raw(65536, 65536), v(1000, 1000), raw(1 << 62, 1 << 62)] {
        assert_eq!(a.unit(), u);
    }
}

#[test]
fn unit_has_length_one_within_three_steps_whatever_the_length() {
    let short = [(1, 1), (3, 4), (-1, 2), (65536, 65536), (1, -1000), (-77, 3), (123456789, 987654321)];
    for (x, y) in short {
        let n = raw(x, y).unit().unwrap().norm().raw;
        assert!((n - SCALE).abs() <= 3, "norm of unit of raw ({x}, {y}) is {n}");
    }
    let n = raw(i64::MAX, i64::MIN).unit().unwrap().norm().raw;
    assert!((n - SCALE).abs() <= 3);
}

#[test]
fn unit_points_the_way_of_the_vector() {
    for a in [raw(1, 1), raw(-3, 4), raw(65536, -1), v(6, -8), raw(-5, -12)] {
        let u = a.unit().unwrap();
        let (ax, ay, ux, uy) = (a.x.raw as i128, a.y.raw as i128, u.x.raw as i128, u.y.raw as i128);
        assert!(ux * ax + uy * ay > 0);
        assert!((ux * ay - uy * ax).abs() <= ax.abs() + ay.abs());
    }
}

#[test]
fn onto_a_short_axis() {
    // unit((1 step, 0)) = (1, 0); dot = 3; 3 * (1 step, 0) = (3 steps, 0)
    assert_eq!(v(3, 4).onto(raw(1, 0)), Ok(raw(3, 0)));
    // unit((3, 4) steps) = (0.6, 0.8); dot((3, 4), unit) = 5 less a step;
    // that times (3, 4) steps is just under (15, 20) steps.
    assert_eq!(v(3, 4).onto(raw(3, 4)), Ok(raw(14, 19)));
    assert_eq!(raw(6, 8).onto(raw(3, 4)), Ok(raw(0, 0)));
}

#[test]
fn onto_keeps_a_multiple_of_an_axis_one_long_within_tolerance() {
    // Axes that the grid holds as one long: (0.8, 0.6), (1, 1) / sqrt 2
    // and (-5, 12) / 13, each rounded away from zero, and (1, 1 step).
    let axes = [
        raw(3435973837, 2576980378),
        raw(3037000500, 3037000500),
        raw(-1651910499, 3964585197),
        raw(SCALE, 1),
        v(0, -1),
    ];
    let factors = [SCALE, -3 * SCALE, SCALE / 2, 1000 * SCALE, 7, 0];
    for b in axes {
        assert_eq!(b.norm(), s(1));
        for k in factors {
            let a = b.scale(Scalar { raw: k });
            let r = a.onto(b).unwrap();
            let tolerance = 4 + 4 * k.abs() / SCALE;
            assert!((r.x.raw - a.x.raw).abs() <= tolerance, "{b:?} {k}");
            assert!((r.y.raw - a.y.raw).abs() <= tolerance, "{b:?} {k}");
        }
    }
}

#[test]
fn onto_of_exact_multiples_of_an_axis_one_long() {
    // (0.8, 0.6) rounded away from zero, times -3: nothing is lost.
    let b = raw(3435973837, 2576980378);
    let a = b.scale(s(-3));
    assert_eq!(a, raw(-10307921511, -7730941134));
    assert_eq!(a.onto(b), Ok(a));
}
