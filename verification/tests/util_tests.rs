use image_undistorter::util::{lerp, unlerp};

#[test]
fn lerp_integers() {
    assert_eq!(lerp(1i64, 5, 2), 9);
    assert_eq!(lerp(1i64, 5, 0), 1);
    assert_eq!(lerp(1i64, 5, 1), 5);
    assert_eq!(lerp(10i64, 4, 3), -8);
}

#[test]
fn unlerp_integers_truncate() {
    assert_eq!(unlerp(1i64, 5, 9), 2);
    assert_eq!(unlerp(1i64, 5, 4), 0);
    assert_eq!(unlerp(5i64, 1, -3), 2);
    assert_eq!(unlerp(0i64, 2, -3), -1);
    assert_eq!(unlerp(3i64, 7, 3), 0);
    assert_eq!(unlerp(3i64, 7, 7), 1);
}

#[test]
fn unlerp_undoes_lerp() {
    for (a, b, t) in [(1i64, 5i64, 2i64), (-3, 8, -4), (7, 2, 5), (0, -1, 9)] {
        assert_eq!(unlerp(a, b, lerp(a, b, t)), t);
    }
}

#[test]
fn lerp_unlerp_floats() {
    assert!((lerp(0.0f32, 10.0, 0.25) - 2.5).abs() < 1e-6);
    assert!((unlerp(0.0f32, 10.0, 2.5) - 0.25).abs() < 1e-6);
    assert!((lerp(0.1f64, 0.8, 0.0) - 0.1).abs() < 1e-12);
}
