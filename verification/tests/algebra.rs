use raycast::error::RenderError;
use raycast::point::Point;
use raycast::scalar::{div_floor, isqrt_u128, scaled_product, sum3_scaled, Scalar, SCALE};
use raycast::vector3::Vector3;

fn fx(v: f64) -> Scalar {
    Scalar::new((v * 1_000_000.0).round() as i64)
}

fn to_f64(s: Scalar) -> f64 {
    s.raw as f64 / 1_000_000.0
}

fn vec3(x: f64, y: f64, z: f64) -> Vector3 {
    Vector3::new(fx(x), fx(y), fx(z))
}

#[test]
fn test_normalize() {
    let original = Vector3 { x: fx(10.0), y: fx(2.0), z: fx(-1.0) };
    let normal = original.normalize().unwrap();

    let square = |val: f64| val * val;

    let unit_length =
        (square(to_f64(normal.x)) + square(to_f64(normal.y)) + square(to_f64(normal.z))).sqrt();

    assert!(unit_length >= 1.0 - 0.1 && unit_length <= 1.0 + 0.1);
}

#[test]
fn test_dot() {
    let (lx, ly, lz) = (10.0, -10.0, 0.0);
    let left = Vector3 { x: fx(lx), y: fx(ly), z: fx(lz) };

    let (rx, ry, rz) = (1.0, -1.0, 100.0);
    let right = Vector3 { x: fx(rx), y: fx(ry), z: fx(rz) };

    assert_eq!(to_f64(left.dot(&right)), lx * rx + ly * ry + lz * rz);
}

#[test]
fn scalar_from_int_counts_millionths() {
    assert_eq!(SCALE, 1_000_000);
    assert_eq!(Scalar::from_int(3).raw, 3_000_000);
    assert_eq!(Scalar::from_int(-7).raw, -7_000_000);
    assert_eq!(Scalar::from_int(i32::MIN).raw, -2_147_483_648_000_000);
    assert_eq!(Scalar::new(42).raw, 42);
}

#[test]
fn div_floor_rounds_towards_negative_infinity() {
    assert_eq!(div_floor(7, 2), 3);
    assert_eq!(div_floor(-7, 2), -4);
    assert_eq!(div_floor(-8, 2), -4);
    assert_eq!(div_floor(0, 5), 0);
    assert_eq!(div_floor(-1, 1_000_000), -1);
    assert_eq!(div_floor(i128::MIN, 1), i128::MIN);
    assert_eq!(div_floor(i128::MIN, 2), i128::MIN / 2);
    assert_eq!(div_floor(i128::MAX, i128::MAX), 1);
}

#[test]
fn isqrt_rounds_down() {
    assert_eq!(isqrt_u128(0), 0);
    assert_eq!(isqrt_u128(1), 1);
    assert_eq!(isqrt_u128(3), 1);
    assert_eq!(isqrt_u128(4), 2);
    assert_eq!(isqrt_u128(99), 9);
    assert_eq!(isqrt_u128(1_000_000_000_000), 1_000_000);
    assert_eq!(isqrt_u128(999_999_999_999), 999_999);
    assert_eq!(isqrt_u128(u128::MAX), u64::MAX as u128);
}

#[test]
fn scaled_product_rounds_down() {
    assert_eq!(scaled_product(fx(1.5), fx(2.0)).raw, 3_000_000);
    assert_eq!(scaled_product(Scalar::new(1), Scalar::new(-500_000)).raw, -1);
    assert_eq!(scaled_product(Scalar::new(1), Scalar::new(500_000)).raw, 0);
    assert_eq!(scaled_product(Scalar::new(i64::MAX), fx(1.0)).raw, i64::MAX);
}

#[test]
fn sum3_scaled_survives_a_sum_beyond_128_bits() {
    let big: i128 = 1i128 << 126;
    assert_eq!(sum3_scaled(big, big, big), (big / 1_000_000) * 3 + ((big % 1_000_000) * 3) / 1_000_000);
    assert_eq!(sum3_scaled(big, -big, 5_000_000), 5);
    assert_eq!(sum3_scaled(-1, 0, 0), -1);
}

#[test]
fn dot_is_the_rounded_sum_of_products() {
    let a = Vector3::new(Scalar::new(1_500_000), Scalar::new(-2_000_000), Scalar::new(3));
    let b = Vector3::new(Scalar::new(2_000_000), Scalar::new(250_000), Scalar::new(-1));
    // (1.5 * 2 - 2 * 0.25) = 2.5, less 3e-12: rounded down.
    assert_eq!(a.dot(&b).raw, 2_499_999);
    assert_eq!(b.dot(&a).raw, 2_499_999);
    let extreme = Vector3::new(Scalar::new(i64::MIN), Scalar::new(i64::MIN), Scalar::new(0));
    let cancel = Vector3::new(Scalar::new(i64::MIN), Scalar::new(i64::MAX), Scalar::new(0));
    assert_eq!(extreme.dot(&cancel).raw, 9_223_372_036_854);
}

#[test]
fn norm_and_length_of_a_3_4_0_vector() {
    let v = vec3(3.0, -4.0, 0.0);
    assert_eq!(v.norm().raw, 25_000_000);
    assert_eq!(v.length().raw, 5_000_000);
    let w = vec3(1.0, 1.0, 1.0);
    assert_eq!(w.norm().raw, 3_000_000);
    assert_eq!(w.length().raw, 1_732_050);
    assert_eq!(vec3(0.0, 0.0, 0.0).length().raw, 0);
}

#[test]
fn exact_dot_is_not_rounded() {
    let a = Vector3::new(Scalar::new(3), Scalar::new(-2), Scalar::new(1));
    let b = Vector3::new(Scalar::new(5), Scalar::new(7), Scalar::new(-11));
    assert_eq!(a.exact_dot(&b), 15 - 14 - 11);
}

#[test]
fn normalize_gives_exact_components_for_a_3_4_0_vector() {
    let n = vec3(3.0, 4.0, 0.0).normalize().unwrap();
    assert_eq!(n, Vector3::new(Scalar::new(600_000), Scalar::new(800_000), Scalar::new(0)));
    let m = vec3(0.0, 0.0, -7.5).normalize().unwrap();
    assert_eq!(m, Vector3::new(Scalar::new(0), Scalar::new(0), Scalar::new(-1_000_000)));
}

#[test]
fn normalize_rounds_negative_components_down() {
    let n = vec3(-1.0, 1.0, 1.0).normalize().unwrap();
    assert_eq!(n, Vector3::new(Scalar::new(-577_351), Scalar::new(577_350), Scalar::new(577_350)));
}

#[test]
fn normalize_keeps_its_precision_for_the_smallest_vectors() {
    let n = Vector3::new(Scalar::new(1), Scalar::new(1), Scalar::new(1)).normalize().unwrap();
    assert_eq!(n, Vector3::new(Scalar::new(577_350), Scalar::new(577_350), Scalar::new(577_350)));
}

#[test]
fn normalize_takes_the_largest_vectors() {
    let n = Vector3::new(
        Scalar::new(30_000_000_000_000),
        Scalar::new(-40_000_000_000_000),
        Scalar::new(0),
    ).normalize().unwrap();
    assert_eq!(n, Vector3::new(Scalar::new(600_000), Scalar::new(-800_000), Scalar::new(0)));
    let m = Vector3::new(Scalar::new(i64::MIN), Scalar::new(0), Scalar::new(0)).normalize().unwrap();
    assert_eq!(m, Vector3::new(Scalar::new(-1_000_000), Scalar::new(0), Scalar::new(0)));
    let d = Vector3::new(Scalar::new(i64::MAX), Scalar::new(i64::MAX), Scalar::new(i64::MAX))
        .normalize()
        .unwrap();
    assert_eq!(d, Vector3::new(Scalar::new(577_350), Scalar::new(577_350), Scalar::new(577_350)));
}

#[test]
fn normalized_length_is_within_four_millionths_of_one() {
    let samples = [
        (10.0, 2.0, -1.0),
        (0.000001, 0.0, 0.0),
        (-123.456, 789.01, 0.5),
        (99_999.0, -99_999.0, 99_999.0),
        (0.3, 0.3, -0.3),
    ];
    for (x, y, z) in samples {
        let n = vec3(x, y, z).normalize().unwrap();
        let squared = n.exact_dot(&n);
        assert!(squared >= 1_000_000_000_000 - 6_000_000, "{squared}");
        assert!(squared <= 1_000_000_000_000 + 8_000_003, "{squared}");
        let length = n.length().raw;
        assert!((999_996..=1_000_004).contains(&length), "{length}");
    }
}

#[test]
fn normalize_refuses_the_zero_vector() {
    assert_eq!(vec3(0.0, 0.0, 0.0).normalize(), Err(RenderError::DegenerateVector));
}

#[test]
fn vector_negation_and_scaling() {
    let v = vec3(1.0, -2.5, 0.0);
    assert_eq!(-v, vec3(-1.0, 2.5, 0.0));
    assert_eq!(v * fx(2.0), vec3(2.0, -5.0, 0.0));
    assert_eq!(v * fx(-0.5), vec3(-0.5, 1.25, 0.0));
    let tiny = Vector3::new(Scalar::new(1), Scalar::new(-1), Scalar::new(0));
    assert_eq!(tiny * fx(0.5), Vector3::new(Scalar::new(0), Scalar::new(-1), Scalar::new(0)));
}

#[test]
fn points_and_vectors_add_and_subtract() {
    let p = Point::new(fx(1.0), fx(2.0), fx(3.0));
    let q = Point::new(fx(0.5), fx(-2.0), fx(10.0));
    assert_eq!(p - q, vec3(0.5, 4.0, -7.0));
    assert_eq!(q + (p - q), p);
    assert_eq!((p - q) + q, p);
    assert_eq!(Point::new(fx(0.0), fx(0.0), fx(0.0)) + vec3(1.0, 1.0, 1.0), Point::new(fx(1.0), fx(1.0), fx(1.0)));
}
