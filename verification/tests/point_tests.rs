use image_undistorter::point::{Point, Points};

#[test]
fn new_and_extract() {
    let p = Point::new(3i64, -4);
    assert_eq!(p.x, 3);
    assert_eq!(p.y, -4);
    assert_eq!(p.extract(), [3, -4]);
}

#[test]
fn add_sub_scale_integers() {
    let p = Point::new(1i64, 2);
    let q = Point::new(10i64, -20);
    let s = p + q;
    assert_eq!((s.x, s.y), (11, -18));
    let d = s - q;
    assert_eq!((d.x, d.y), (1, 2));
    let m = p * 7;
    assert_eq!((m.x, m.y), (7, 14));
}

#[test]
fn add_sub_scale_floats() {
    let p = Point::new(0.5f32, 0.5);
    let q = Point::new(0.01f32, 0.01);
    let s = p + q;
    assert!((s.x - 0.51).abs() < 1e-6 && (s.y - 0.51).abs() < 1e-6);
    let d = s - p;
    assert!((d.x - 0.01).abs() < 1e-6);
    let m = p * 2.0;
    assert_eq!((m.x, m.y), (1.0, 1.0));
}

#[test]
fn zero_point() {
    let z = Point::<i64>::zero();
    assert_eq!((z.x, z.y), (0, 0));
    assert!(z.is_zero());
    assert!(!Point::new(0i64, 1).is_zero());
    assert!(!Point::new(1i64, 0).is_zero());
}

#[test]
fn add_zero_and_scale_by_one() {
    let p = Point::new(-5i64, 9);
    let s = p + Point::<i64>::zero();
    assert_eq!((s.x, s.y), (-5, 9));
    let one = p * 1;
    assert_eq!((one.x, one.y), (-5, 9));
    let zero = p * 0;
    assert!(zero.is_zero());
}

#[test]
fn points_alias_is_a_vec() {
    let list: Points<i64> = vec![Point::new(1, 2), Point::new(3, 4)];
    assert_eq!(list.len(), 2);
    let c = list[1].clone();
    assert_eq!((c.x, c.y), (3, 4));
}

#[test]
fn point_less_itself_is_zero() {
    let p = Point::new(12i64, -9);
    assert!((p - p).is_zero());
}
