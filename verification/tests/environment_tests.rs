use image_undistorter::environment::{
    assemble_environment,
    get_distorted_environment, get_mins_and_deltas, get_points_x_coord, get_points_y_coord,
    get_transformation_matrix_from_points, solve_2_variable_eqn_sys, try_get_distorted_environment,
    Environment,
};
use image_undistorter::matrix::Matrix2x2;
use image_undistorter::point::{Point, Points};
use polynomial::Polynomial;

fn pts(list: &[(i64, i64)]) -> Points<i64> {
    list.iter().map(|&(x, y)| Point::new(x, y)).collect()
}

/// A frame whose edges are the unit square: mapping out of it is the identity.
fn unit_frame() -> Environment<i64> {
    get_distorted_environment(
        &pts(&[(0, 0), (1, 0)]),
        &pts(&[(0, 1), (1, 1)]),
        &pts(&[(0, 0), (0, 1)]),
        &pts(&[(1, 0), (1, 1)]),
    )
}

/// A frame whose edges are the square of side four: mapping out of it divides
/// both coordinates by four.
fn square_of_four() -> Environment<i64> {
    get_distorted_environment(
        &pts(&[(0, 0), (4, 0)]),
        &pts(&[(0, 4), (4, 4)]),
        &pts(&[(0, 0), (0, 4)]),
        &pts(&[(4, 0), (4, 4)]),
    )
}

#[test]
fn coordinates_of_points() {
    let list = pts(&[(1, 2), (3, 4), (5, 6)]);
    assert_eq!(get_points_x_coord(&list), vec![1, 3, 5]);
    assert_eq!(get_points_y_coord(&list), vec![2, 4, 6]);
    let empty: Points<i64> = vec![];
    assert!(get_points_x_coord(&empty).is_empty());
}

#[test]
fn mins_and_deltas() {
    assert_eq!(get_mins_and_deltas(&pts(&[(3, -1), (-2, 7), (5, 0)])), (-2, 7, -1, 8));
    assert_eq!(get_mins_and_deltas(&pts(&[(4, 4)])), (4, 0, 4, 0));
}

#[test]
fn solve_both_branches_and_error() {
    // 3 = 2x + y, 2 = x + y
    assert_eq!(solve_2_variable_eqn_sys(&Matrix2x2::new(2i64, 1, 1, 1), 3, 2), Ok([1, 1]));
    // ma == 0: 6 = 3y, 11 = 2x + y
    assert_eq!(solve_2_variable_eqn_sys(&Matrix2x2::new(0i64, 3, 2, 1), 6, 11), Ok([4, 2]));
    // divisions truncate
    assert_eq!(solve_2_variable_eqn_sys(&Matrix2x2::new(2i64, 0, 0, 2), 3, 5), Ok([1, 2]));
    assert_eq!(
        solve_2_variable_eqn_sys(&Matrix2x2::new(1i64, 2, 2, 4), 1, 1),
        Err("The determinant of the matrix is zero!".to_string())
    );
}

#[test]
fn transformation_matrix_maps_points() {
    let p0 = Point::new(1i64, 0);
    let q0 = Point::new(0i64, 1);
    let p1 = Point::new(2i64, 3);
    let q1 = Point::new(-1i64, 5);
    let a = get_transformation_matrix_from_points(p0, p1, q0, q1);
    assert_eq!(a.extract(), [2, -1, 3, 5]);
    let image = a * p0;
    assert_eq!((image.x, image.y), (2, 3));
    let image = a * q0;
    assert_eq!((image.x, image.y), (-1, 5));
}

#[test]
fn unit_frame_is_identity() {
    let env = unit_frame();
    for (x, y) in [(0i64, 0i64), (3, 5), (-7, 2), (100, -40)] {
        let p = env.from_distorted(x, y);
        assert_eq!((p.x, p.y), (x, y));
    }
}

#[test]
fn square_of_four_divides_by_four() {
    let env = square_of_four();
    let p = env.from_distorted(8, 4);
    assert_eq!((p.x, p.y), (2, 1));
    let p = env.from_distorted(6, 3);
    assert_eq!((p.x, p.y), (1, 0));
}

#[test]
fn sides_shift_and_scale_the_interpolation() {
    // bottom interpolates to y = x; its side is (x - 1) * 2 at 2x, i.e. 4x - 2.
    let env = get_distorted_environment(
        &pts(&[(0, 1), (2, 3)]),
        &pts(&[(0, 5), (2, 5)]),
        &pts(&[(0, 0), (0, 4)]),
        &pts(&[(4, 0), (4, 4)]),
    );
    let p = env.from_distorted(1, 4);
    assert_eq!((p.x, p.y), (0, 1));
    let p = env.from_distorted(2, 0);
    assert_eq!((p.x, p.y), (0, 11));
}

#[test]
fn right_side_comes_from_left_interpolation() {
    let env = get_distorted_environment(
        &pts(&[(0, 0), (4, 0)]),
        &pts(&[(0, 4), (4, 4)]),
        &pts(&[(4, 0), (4, 4)]),
        &pts(&[(6, 0), (8, 4)]),
    );
    let p = env.from_distorted(8, 4);
    assert_eq!((p.x, p.y), (-3, 1));
}

#[test]
fn to_distorted_one_iteration_is_from_distorted() {
    let env = square_of_four();
    let p_p = Point::new(8i64, 4);
    let p_q = Point::new(12i64, 8);
    let a = env.to_distorted(p_p, p_q, Some(1));
    let b = env.from_distorted(8, 4);
    assert_eq!((a.x, a.y), (b.x, b.y));
    let c = env.to_distorted(p_p, p_q, Some(0));
    assert_eq!((c.x, c.y), (2, 1));
}

#[test]
fn to_distorted_iterates_to_fixed_point() {
    let env = unit_frame();
    let p_p = Point::new(3i64, 5);
    let p_q = Point::new(4i64, 7);
    for iters in [Some(2u32), Some(5), None] {
        let p = env.to_distorted(p_p, p_q, iters);
        assert_eq!((p.x, p.y), (3, 5));
    }
}

#[test]
fn try_builds_the_same_environment() {
    let env = try_get_distorted_environment(
        &pts(&[(0, 1), (2, 3)]),
        &pts(&[(0, 5), (2, 5)]),
        &pts(&[(0, 0), (0, 4)]),
        &pts(&[(4, 0), (4, 4)]),
    )
    .unwrap();
    let p = env.from_distorted(2, 0);
    assert_eq!((p.x, p.y), (0, 11));
}

#[test]
fn try_refuses_an_overflowing_side() {
    let big = 1i64 << 62;
    let env = try_get_distorted_environment(
        &pts(&[(0, 0), (4, 0)]),
        &pts(&[(0, 4), (4, 4)]),
        &pts(&[(big, 0)]),
        &pts(&[(-big, 0)]),
    );
    assert!(env.is_none());
}

#[test]
fn edges_map_to_sides() {
    let env = square_of_four();
    // left edge x = 0 goes to the left side, which is 0
    assert_eq!(env.from_distorted(0, 3).x, 0);
    // right edge x = 4 goes to the right side, which is 1
    assert_eq!(env.from_distorted(4, 2).x, 1);
    // bottom edge y = 0 goes to the bottom side, which is 0
    assert_eq!(env.from_distorted(3, 0).y, 0);
    // top edge y = 4 goes to the top side, which is 1
    assert_eq!(env.from_distorted(1, 4).y, 1);
}

#[test]
fn assemble_from_given_interpolations() {
    let env = assemble_environment(
        Polynomial::new(vec![]),
        Polynomial::new(vec![4]),
        Polynomial::new(vec![]),
        Polynomial::new(vec![4]),
        (0, 4, 0, 0),
        (0, 4, 4, 0),
        (0, 0, 0, 4),
        (4, 0, 0, 4),
    );
    let p = env.from_distorted(8, 4);
    assert_eq!((p.x, p.y), (2, 1));
    // left interpolation x = 2 + y: the left side at y * 1 + 0 is (2 + y - 0) * 3
    let env = assemble_environment(
        Polynomial::new(vec![]),
        Polynomial::new(vec![4]),
        Polynomial::new(vec![2, 1]),
        Polynomial::new(vec![10]),
        (0, 4, 0, 0),
        (0, 4, 4, 0),
        (0, 3, 0, 1),
        (0, 0, 0, 1),
    );
    // y = 1: left side (2 + 1) * 3 = 9, right side (2 + 1 - 0) * 0 + 1 = 1,
    // parameter (x - 3) / (10 - 3) with x = 10 is 1
    let p = env.from_distorted(10, 1);
    assert_eq!(p.x, 1);
    // x = 3 lies on the left interpolation: mapped onto the left side
    let p = env.from_distorted(3, 1);
    assert_eq!(p.x, 9);
}

#[test]
fn mins_and_deltas_after_moving_and_reordering() {
    let list = pts(&[(3, -1), (-2, 7), (5, 0)]);
    let other = pts(&[(15, 10), (8, 18), (13, 11)]);
    let (a, b, c, d) = get_mins_and_deltas(&list);
    assert_eq!(get_mins_and_deltas(&other), (a + 10, b, c + 11, d));
}

#[test]
fn to_distorted_with_dependent_points() {
    let env = square_of_four();
    let p = env.to_distorted(Point::new(8, 4), Point::new(16, 8), Some(1));
    assert_eq!((p.x, p.y), (2, 1));
}

#[test]
fn interpolation_of_far_but_close_points() {
    let big = 1i64 << 40;
    let env = try_get_distorted_environment(
        &pts(&[(big, 0), (big + 1, 1)]),
        &pts(&[(0, 4), (4, 4)]),
        &pts(&[(0, 0), (0, 4)]),
        &pts(&[(4, 0), (4, 4)]),
    );
    assert!(env.is_some());
}
