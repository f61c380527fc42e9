use stress_bevy::fixed::{add3, isqrt, normalize3, scale2, scale3, scale_by, sub3, Fx2, Fx3};

#[test]
fn isqrt_exact_values() {
    assert_eq!(isqrt(0), 0);
    assert_eq!(isqrt(1), 1);
    assert_eq!(isqrt(10), 3);
    assert_eq!(isqrt(25_000_000), 5000);
    assert_eq!(isqrt(24_999_999), 4999);
}

#[test]
fn scale_by_truncates_toward_zero() {
    assert_eq!(scale_by(1234, 500), 617);
    assert_eq!(scale_by(-1234, 500), -617);
    assert_eq!(scale_by(3, 333), 0);
    assert_eq!(scale_by(-3, 333), 0);
}

#[test]
fn normalize_three_four_five() {
    let v = Fx3 { x: 3000, y: 0, z: 4000 };
    let u = normalize3(v).unwrap();
    assert_eq!(u, Fx3 { x: 600, y: 0, z: 800 });
}

#[test]
fn normalize_zero_is_guarded() {
    assert!(normalize3(Fx3 { x: 0, y: 0, z: 0 }).is_none());
    assert!(normalize3(Fx3 { x: 0, y: 1, z: 0 }).is_some());
}

#[test]
fn vector_sums_and_scales() {
    let a = Fx3 { x: 1, y: 2, z: 3 };
    let b = Fx3 { x: 10, y: 20, z: 30 };
    assert_eq!(add3(a, b), Fx3 { x: 11, y: 22, z: 33 });
    assert_eq!(sub3(b, a), Fx3 { x: 9, y: 18, z: 27 });
    assert_eq!(scale3(b, 2500), Fx3 { x: 25, y: 50, z: 75 });
    assert_eq!(scale2(Fx2 { x: 40, y: 60 }, 80), Fx2 { x: 3, y: 4 });
}
