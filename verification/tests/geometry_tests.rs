use meshrender::fixed::SCALE;
use meshrender::geometry::{identity, rotate_x, rotate_z, Triangle, Vec3, Vec4};

fn fx(v: f64) -> i64 {
    (v * SCALE as f64).round() as i64
}

#[test]
fn scalar_multiplication_scales_componentwise() {
    let v = Vec3::new(fx(1.5), fx(-2.0), 0);
    let r = v.multiply_by_scalar(fx(2.0));
    assert_eq!(r, Vec3::new(fx(3.0), fx(-4.0), 0));
}

#[test]
fn add_and_minus_are_componentwise() {
    let a = Vec3::new(fx(1.0), fx(2.0), fx(3.0));
    let b = Vec3::new(fx(0.5), fx(-1.0), fx(4.0));
    assert_eq!(a.add(&b), Vec3::new(fx(1.5), fx(1.0), fx(7.0)));
    assert_eq!(a.minus(&b), Vec3::new(fx(0.5), fx(3.0), fx(-1.0)));
}

#[test]
fn dot_product_exact_value() {
    let a = Vec3::new(fx(1.0), fx(2.0), fx(3.0));
    let b = Vec3::new(fx(4.0), fx(5.0), fx(6.0));
    assert_eq!(a.dot(&b), fx(32.0));
}

#[test]
fn cross_product_is_right_handed() {
    let x = Vec3::new(fx(1.0), 0, 0);
    let y = Vec3::new(0, fx(1.0), 0);
    assert_eq!(x.cross(&y), Vec3::new(0, 0, fx(1.0)));
    assert_eq!(y.cross(&x), Vec3::new(0, 0, fx(-1.0)));
}

#[test]
fn length_of_three_four_zero_is_five() {
    let v = Vec3::new(fx(3.0), fx(4.0), 0);
    assert_eq!(v.length(), fx(5.0));
}

#[test]
fn normalized_vector_has_unit_length() {
    let v = Vec3::new(fx(3.0), fx(4.0), 0);
    let n = v.normalized();
    assert_eq!(n, Vec3::new(fx(0.6), fx(0.8), 0));
    assert_eq!(n.length(), SCALE);
}

#[test]
fn normalized_length_within_tolerance_for_odd_vector() {
    let v = Vec3::new(fx(1.0), fx(1.0), fx(1.0));
    let n = v.normalized();
    assert!((n.length() - SCALE).abs() <= 2);

    let w = Vec3::new(fx(2.0), fx(-7.0), fx(0.3));
    let m = w.normalized();
    assert!((m.length() - SCALE).abs() <= 2);
}

#[test]
fn normal_direction_invariant_under_scaling_and_translation() {
    let a = Vec3::new(fx(0.0), fx(0.0), fx(0.0));
    let b = Vec3::new(fx(1.0), fx(0.0), fx(0.0));
    let c = Vec3::new(fx(0.0), fx(1.0), fx(0.0));
    let n = b.minus(&a).cross(&c.minus(&a));

    let k = fx(3.0);
    let (sa, sb, sc) = (
        a.multiply_by_scalar(k),
        b.multiply_by_scalar(k),
        c.multiply_by_scalar(k),
    );
    let ns = sb.minus(&sa).cross(&sc.minus(&sa));
    assert_eq!(ns.z.signum(), n.z.signum());
    assert_eq!(ns.x, 0);
    assert_eq!(ns.y, 0);

    let t = Vec3::new(fx(5.0), fx(-2.0), fx(9.0));
    let (ta, tb, tc) = (a.add(&t), b.add(&t), c.add(&t));
    let nt = tb.minus(&ta).cross(&tc.minus(&ta));
    assert_eq!(nt, n);
}

#[test]
fn rotation_by_zero_is_identity() {
    assert_eq!(rotate_z(SCALE, 0), identity());
    assert_eq!(rotate_x(SCALE, 0), identity());
}

#[test]
fn rotation_then_inverse_restores_vector() {
    // cosine 0.8 and sine 0.6 lie exactly on the fixed-point unit circle
    let (c, s) = (fx(0.8), fx(0.6));
    let v = Vec4::new(fx(3.0), fx(4.0), fx(5.0), SCALE);
    let rz = v.multiply_by_matrix(&rotate_z(c, s));
    let back = rz.multiply_by_matrix(&rotate_z(c, -s));
    assert_eq!(back, v);
    let rx = v.multiply_by_matrix(&rotate_x(c, s));
    let back_x = rx.multiply_by_matrix(&rotate_x(c, -s));
    assert_eq!(back_x, v);
}

#[test]
fn matrix_multiplication_uses_row_vector_convention() {
    let (c, s) = (fx(0.8), fx(0.6));
    let v = Vec4::new(fx(1.0), 0, 0, SCALE);
    let r = v.multiply_by_matrix(&rotate_z(c, s));
    assert_eq!(r, Vec4::new(fx(0.8), fx(0.6), 0, SCALE));
}

#[test]
fn transform_applies_a_vertex_function_to_each_corner() {
    let t = Triangle(
        Vec3::new(fx(1.0), 0, 0),
        Vec3::new(0, fx(1.0), 0),
        Vec3::new(0, 0, fx(1.0)),
    );
    let shift = Vec3::new(0, 0, fx(2.0));
    let r = t.transform(|v: &Vec3| v.add(&shift));
    assert_eq!(r.0, Vec3::new(fx(1.0), 0, fx(2.0)));
    assert_eq!(r.1, Vec3::new(0, fx(1.0), fx(2.0)));
    assert_eq!(r.2, Vec3::new(0, 0, fx(3.0)));
}
