use image_undistorter::matrix::Matrix2x2;
use image_undistorter::point::Point;

fn entries(m: Matrix2x2<i64>) -> [i64; 4] {
    m.extract()
}

#[test]
fn new_extract_det() {
    let m = Matrix2x2::new(1i64, 2, 3, 4);
    assert_eq!(m.extract(), [1, 2, 3, 4]);
    assert_eq!(m.det(), -2);
    let f = Matrix2x2::new(0.5f32, 1.0, 2.0, 3.0);
    assert!((f.det() - (-0.5)).abs() < 1e-6);
}

#[test]
fn invert_cases() {
    // determinant zero
    assert!(Matrix2x2::new(1i64, 2, 2, 4).invert().is_none());
    // determinant one: exact inverse
    let inv = Matrix2x2::new(2i64, 1, 1, 1).invert().unwrap();
    assert_eq!(entries(inv), [1, -1, -1, 2]);
    // determinant minus one
    let inv = Matrix2x2::new(0i64, 1, 1, 0).invert().unwrap();
    assert_eq!(entries(inv), [0, 1, 1, 0]);
    // determinant -2: 1 / -2 truncates to 0
    let inv = Matrix2x2::new(1i64, 2, 3, 4).invert().unwrap();
    assert_eq!(entries(inv), [0, 0, 0, 0]);
}

#[test]
fn one_zero_is_zero() {
    assert_eq!(entries(Matrix2x2::<i64>::one()), [1, 0, 0, 1]);
    assert_eq!(entries(Matrix2x2::<i64>::zero()), [0, 0, 0, 0]);
    assert!(Matrix2x2::<i64>::zero().is_zero());
    assert!(!Matrix2x2::<i64>::one().is_zero());
    assert!(Matrix2x2::new(1i64, 2, 2, 4).is_zero());
    assert!(!Matrix2x2::new(1i64, 2, 3, 4).is_zero());
}

#[test]
fn add_and_mul() {
    let m = Matrix2x2::new(1i64, 2, 3, 4);
    let n = Matrix2x2::new(2i64, 1, 1, 1);
    assert_eq!(entries(m + n), [3, 3, 4, 5]);
    // [[(ae + bg) (af + bh)] [(ce + df) (cg + dh)]]
    assert_eq!(entries(m * n), [4, 3, 10, 7]);
}

#[test]
fn mul_point() {
    let m = Matrix2x2::new(1i64, 2, 3, 4);
    let p = m * Point::new(1i64, 1);
    assert_eq!((p.x, p.y), (3, 7));
    let q = Matrix2x2::<i64>::one() * Point::new(-6i64, 11);
    assert_eq!((q.x, q.y), (-6, 11));
}

#[test]
fn inverse_undoes_on_points() {
    let m = Matrix2x2::new(2i64, 1, 1, 1);
    let inv = m.invert().unwrap();
    let p = Point::new(7i64, -3);
    let back = inv * (m * p);
    assert_eq!((back.x, back.y), (7, -3));
    let forth = m * (inv * p);
    assert_eq!((forth.x, forth.y), (7, -3));
}

#[test]
fn div_by_matrix() {
    let m = Matrix2x2::new(1i64, 2, 3, 4);
    let n = Matrix2x2::new(2i64, 1, 1, 1);
    assert_eq!(entries((m / n).unwrap()), [-1, 3, -1, 5]);
    assert!((m / Matrix2x2::new(1i64, 2, 2, 4)).is_none());
}

#[test]
fn clone_keeps_entries() {
    let m = Matrix2x2::new(9i64, 8, 7, 6);
    assert_eq!(entries(m.clone()), [9, 8, 7, 6]);
}

#[test]
fn add_commutes_and_zero_is_neutral() {
    let m = Matrix2x2::new(1i64, -2, 3, 4);
    let n = Matrix2x2::new(5i64, 6, -7, 8);
    assert_eq!(entries(m + n), entries(n + m));
    assert_eq!(entries(m + Matrix2x2::<i64>::zero()), [1, -2, 3, 4]);
}

#[test]
fn det_swap_and_transpose() {
    let m = Matrix2x2::new(1i64, 2, 3, 5);
    assert_eq!(Matrix2x2::new(3i64, 5, 1, 2).det(), -m.det());
    assert_eq!(Matrix2x2::new(1i64, 3, 2, 5).det(), m.det());
}

#[test]
fn action_on_points_is_linear() {
    let m = Matrix2x2::new(1i64, 2, 3, 4);
    let p = Point::new(5i64, -6);
    let q = Point::new(-7i64, 8);
    let left = m * (p + q);
    let right = (m * p) + (m * q);
    assert_eq!((left.x, left.y), (right.x, right.y));
    let scaled = m * (p * 3);
    let image = (m * p) * 3;
    assert_eq!((scaled.x, scaled.y), (image.x, image.y));
}
