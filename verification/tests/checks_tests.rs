use image_undistorter::checks::lists_acceptable;
use image_undistorter::environment::{get_distorted_environment, Environment};
use image_undistorter::point::{Point, Points};

fn pts(list: &[(i64, i64)]) -> Points<i64> {
    list.iter().map(|&(x, y)| Point::new(x, y)).collect()
}

fn square_of_four() -> Environment<i64> {
    get_distorted_environment(
        &pts(&[(0, 0), (4, 0)]),
        &pts(&[(0, 4), (4, 4)]),
        &pts(&[(0, 0), (0, 4)]),
        &pts(&[(4, 0), (4, 4)]),
    )
}

#[test]
fn acceptable_lists() {
    assert!(lists_acceptable(
        &pts(&[(10, 10), (80, 15), (35, 20), (60, 18)]),
        &pts(&[(10, 90), (70, 85), (45, 85), (90, 88)]),
        &pts(&[(10, 10), (12, 50), (10, 90)]),
        &pts(&[(80, 15), (90, 88), (80, 50)]),
    ));
}

#[test]
fn unacceptable_lists() {
    let good = pts(&[(0, 0), (4, 0)]);
    // an empty list
    assert!(!lists_acceptable(&pts(&[]), &good, &good, &good));
    // a repeated x-coordinate along the bottom
    assert!(!lists_acceptable(&pts(&[(1, 0), (1, 5)]), &good, &good, &good));
    // coordinates too large for the interpolation
    let big = 1i64 << 40;
    assert!(!lists_acceptable(&pts(&[(0, 0), (big, 1), (2 * big, 2)]), &good, &good, &good));
    // a span that does not fit
    assert!(!lists_acceptable(&pts(&[(i64::MIN, 0), (i64::MAX, 1)]), &good, &good, &good));
}

#[test]
fn checked_from_distorted_cases() {
    let env = square_of_four();
    let p = env.checked_from_distorted(8, 4).unwrap();
    assert_eq!((p.x, p.y), (2, 1));
    assert!(env.checked_from_distorted(i64::MAX, 0).is_none());
    // left and right interpolations agree everywhere: division by zero
    let flat = get_distorted_environment(
        &pts(&[(0, 0), (4, 0)]),
        &pts(&[(0, 4), (4, 4)]),
        &pts(&[(0, 0), (0, 4)]),
        &pts(&[(0, 0), (0, 4)]),
    );
    assert!(flat.checked_from_distorted(1, 1).is_none());
}

#[test]
fn checked_to_distorted_cases() {
    let env = square_of_four();
    let p_p = Point::new(8i64, 4);
    let p_q = Point::new(12i64, 8);
    let one = env.checked_to_distorted(p_p, p_q, Some(1)).unwrap();
    assert_eq!((one.x, one.y), (2, 1));
    // the second round meets a matrix without inverse
    assert!(env.checked_to_distorted(p_p, p_q, Some(2)).is_none());
    let unit = get_distorted_environment(
        &pts(&[(0, 0), (1, 0)]),
        &pts(&[(0, 1), (1, 1)]),
        &pts(&[(0, 0), (0, 1)]),
        &pts(&[(1, 0), (1, 1)]),
    );
    let p = unit.checked_to_distorted(Point::new(3, 5), Point::new(4, 7), Some(5)).unwrap();
    assert_eq!((p.x, p.y), (3, 5));
}

#[test]
fn far_but_close_points_are_acceptable() {
    let big = 1i64 << 40;
    let good = pts(&[(0, 0), (4, 0)]);
    assert!(lists_acceptable(&pts(&[(big, 0), (big + 1, 1)]), &good, &pts(&[(0, 0), (0, 4)]), &pts(&[(4, 0), (4, 4)])));
}
