use crate::matrix::{det_req, det_spec, dot_req, dot_spec, invert_req, invert_spec, recip, Matrix2x2};
use crate::point::{Point, Points};
use crate::poly::{
    add_coeffs, add_fits, coeff, coeffs, eval_fits, horner, lagrange_coeffs, lagrange_fits, max_len,
    poly_add, poly_clone, poly_data, poly_eval, poly_lagrange, poly_mul, poly_new, poly_sub,
    repeated_x, scale_coeffs, scale_fits, sub_coeffs, sub_fits, trim,
};
use crate::values::{
    lemma_add_value, lemma_constant_value, lemma_scale_value, lemma_sub_value,
};
use crate::util::{fits, in_range, lerp, lerp_req, lerp_spec, unlerp, unlerp_req, unlerp_spec};
use polynomial::Polynomial;
use vstd::prelude::*;
use vstd::std_specs::ops::{DivSpec, MulSpec};

verus! {

broadcast use vstd::string::group_string_axioms;

/// What an image distortion is made of: the four sides of the distorted frame
/// as polynomials, the interpolations they were made from, and for each side
/// the offset and the scale of the coordinate it is evaluated at.
#[verifier::reject_recursive_types(T)]
pub struct Environment<T> {
    pub(crate) side_top: Polynomial<T>,
    pub(crate) side_right: Polynomial<T>,
    pub(crate) side_bottom: Polynomial<T>,
    pub(crate) side_left: Polynomial<T>,
    pub(crate) lagrange_top: Polynomial<T>,
    pub(crate) lagrange_right: Polynomial<T>,
    pub(crate) lagrange_bottom: Polynomial<T>,
    pub(crate) lagrange_left: Polynomial<T>,
    pub(crate) bottom_x_delta: T,
    pub(crate) bottom_x_min: T,
    pub(crate) top_x_delta: T,
    pub(crate) top_x_min: T,
    pub(crate) left_y_delta: T,
    pub(crate) left_y_min: T,
    pub(crate) right_y_delta: T,
    pub(crate) right_y_min: T,
}

/// An environment as values: each polynomial by its coefficients, lowest
/// degree first.
pub struct EnvironmentModel {
    pub side_top: Seq<i64>,
    pub side_right: Seq<i64>,
    pub side_bottom: Seq<i64>,
    pub side_left: Seq<i64>,
    pub lagrange_top: Seq<i64>,
    pub lagrange_right: Seq<i64>,
    pub lagrange_bottom: Seq<i64>,
    pub lagrange_left: Seq<i64>,
    pub bottom_x_delta: i64,
    pub bottom_x_min: i64,
    pub top_x_delta: i64,
    pub top_x_min: i64,
    pub left_y_delta: i64,
    pub left_y_min: i64,
    pub right_y_delta: i64,
    pub right_y_min: i64,
}

impl View for Environment<i64> {
    type V = EnvironmentModel;

    closed spec fn view(&self) -> EnvironmentModel {
        EnvironmentModel {
            side_top: coeffs(self.side_top),
            side_right: coeffs(self.side_right),
            side_bottom: coeffs(self.side_bottom),
            side_left: coeffs(self.side_left),
            lagrange_top: coeffs(self.lagrange_top),
            lagrange_right: coeffs(self.lagrange_right),
            lagrange_bottom: coeffs(self.lagrange_bottom),
            lagrange_left: coeffs(self.lagrange_left),
            bottom_x_delta: self.bottom_x_delta,
            bottom_x_min: self.bottom_x_min,
            top_x_delta: self.top_x_delta,
            top_x_min: self.top_x_min,
            left_y_delta: self.left_y_delta,
            left_y_min: self.left_y_min,
            right_y_delta: self.right_y_delta,
            right_y_min: self.right_y_min,
        }
    }
}

/// The model of an environment is made of its fields.
pub(crate) proof fn lemma_view_fields(e: &Environment<i64>)
    ensures
        e@.side_top == coeffs(e.side_top),
        e@.side_right == coeffs(e.side_right),
        e@.side_bottom == coeffs(e.side_bottom),
        e@.side_left == coeffs(e.side_left),
        e@.lagrange_top == coeffs(e.lagrange_top),
        e@.lagrange_right == coeffs(e.lagrange_right),
        e@.lagrange_bottom == coeffs(e.lagrange_bottom),
        e@.lagrange_left == coeffs(e.lagrange_left),
        e@.bottom_x_delta == e.bottom_x_delta,
        e@.bottom_x_min == e.bottom_x_min,
        e@.top_x_delta == e.top_x_delta,
        e@.top_x_min == e.top_x_min,
        e@.left_y_delta == e.left_y_delta,
        e@.left_y_min == e.left_y_min,
        e@.right_y_delta == e.right_y_delta,
        e@.right_y_min == e.right_y_min,
{
}

/// `v * delta + min` fits in `i64`.
pub open spec fn affine_fits(v: i64, delta: i64, min: i64) -> bool {
    fits(v * delta) && fits(v * delta + min)
}

/// `v * delta + min`.
pub open spec fn affine(v: i64, delta: i64, min: i64) -> i64 {
    (v * delta + min) as i64
}

/// The value of the polynomial with coefficients `c` at `x`.
pub open spec fn value_at(c: Seq<i64>, x: i64) -> i64 {
    horner(c, x as int) as i64
}

/// Along one axis: the near side evaluated at `s * near_delta + near_min`,
/// the far side at `s * far_delta + far_min`, and the parameter of `u`
/// between the two interpolations at `s`.
pub open spec fn axis_req(
    near: Seq<i64>, near_delta: i64, near_min: i64,
    far: Seq<i64>, far_delta: i64, far_min: i64,
    lagrange_near: Seq<i64>, lagrange_far: Seq<i64>,
    s: i64, u: i64,
) -> bool {
    &&& affine_fits(s, near_delta, near_min)
    &&& eval_fits(near, affine(s, near_delta, near_min) as int)
    &&& affine_fits(s, far_delta, far_min)
    &&& eval_fits(far, affine(s, far_delta, far_min) as int)
    &&& eval_fits(lagrange_near, s as int)
    &&& eval_fits(lagrange_far, s as int)
    &&& unlerp_req(value_at(lagrange_near, s), value_at(lagrange_far, s), u)
    &&& lerp_req(
        value_at(near, affine(s, near_delta, near_min)),
        value_at(far, affine(s, far_delta, far_min)),
        unlerp_spec(value_at(lagrange_near, s), value_at(lagrange_far, s), u),
    )
}

/// Interpolating between the near side and the far side with the parameter
/// of `u` between the two interpolations.
pub open spec fn axis_spec(
    near: Seq<i64>, near_delta: i64, near_min: i64,
    far: Seq<i64>, far_delta: i64, far_min: i64,
    lagrange_near: Seq<i64>, lagrange_far: Seq<i64>,
    s: i64, u: i64,
) -> i64 {
    lerp_spec(
        value_at(near, affine(s, near_delta, near_min)),
        value_at(far, affine(s, far_delta, far_min)),
        unlerp_spec(value_at(lagrange_near, s), value_at(lagrange_far, s), u),
    )
}

/// No step of mapping `(x, y)` out of the distortion overflows or divides by zero.
pub open spec fn from_distorted_req(e: EnvironmentModel, x: i64, y: i64) -> bool {
    &&& axis_req(
        e.side_left, e.left_y_delta, e.left_y_min,
        e.side_right, e.right_y_delta, e.right_y_min,
        e.lagrange_left, e.lagrange_right, y, x,
    )
    &&& axis_req(
        e.side_bottom, e.bottom_x_delta, e.bottom_x_min,
        e.side_top, e.top_x_delta, e.top_x_min,
        e.lagrange_bottom, e.lagrange_top, x, y,
    )
}

/// The point that `(x, y)` is mapped to out of the distortion.
pub open spec fn from_distorted_spec(e: EnvironmentModel, x: i64, y: i64) -> Point<i64> {
    Point {
        x: axis_spec(
            e.side_left, e.left_y_delta, e.left_y_min,
            e.side_right, e.right_y_delta, e.right_y_min,
            e.lagrange_left, e.lagrange_right, y, x,
        ),
        y: axis_spec(
            e.side_bottom, e.bottom_x_delta, e.bottom_x_min,
            e.side_top, e.top_x_delta, e.top_x_min,
            e.lagrange_bottom, e.lagrange_top, x, y,
        ),
    }
}

/// `m p` stays in the range of `i64`.
pub open spec fn apply_req(m: Matrix2x2<i64>, p: Point<i64>) -> bool {
    &&& dot_req(m.a, p.x, m.b, p.y)
    &&& dot_req(m.c, p.x, m.d, p.y)
}

/// The image `m p = (a x + b y, c x + d y)`.
pub open spec fn apply(m: Matrix2x2<i64>, p: Point<i64>) -> Point<i64> {
    Point { x: dot_spec(m.a, p.x, m.b, p.y), y: dot_spec(m.c, p.x, m.d, p.y) }
}

/// One round of the fixed-point iteration can be taken: the matrix taking
/// `p` to `px` and `q` to `pz` exists, has an inverse, and the inverse can be
/// applied to `p` and `q`.
pub open spec fn round_req(p: Point<i64>, q: Point<i64>, px: Point<i64>, pz: Point<i64>) -> bool {
    &&& transformation_req(p, px, q, pz)
    &&& invert_req(transformation_spec(p, px, q, pz))
    &&& det_spec(transformation_spec(p, px, q, pz)) != 0
    &&& apply_req(invert_spec(transformation_spec(p, px, q, pz)), p)
    &&& apply_req(invert_spec(transformation_spec(p, px, q, pz)), q)
}

/// One round: `X_n = (A o (X_{n-1}, Z_{n-1}))^-1 P` and
/// `Z_n = (A o (X_{n-1}, Z_{n-1}))^-1 Q`.
pub open spec fn round(p: Point<i64>, q: Point<i64>, px: Point<i64>, pz: Point<i64>) -> (Point<i64>, Point<i64>) {
    let a = invert_spec(transformation_spec(p, px, q, pz));
    (apply(a, p), apply(a, q))
}

/// `X` after `n` more rounds from `(px, pz)`, or `None` where some round cannot
/// be taken.
pub open spec fn iterate(p: Point<i64>, q: Point<i64>, px: Point<i64>, pz: Point<i64>, n: nat) -> Option<Point<i64>>
    decreases n,
{
    if n == 0 {
        Some(px)
    } else if round_req(p, q, px, pz) {
        iterate(p, q, round(p, q, px, pz).0, round(p, q, px, pz).1, (n - 1) as nat)
    } else {
        None
    }
}

/// The number of rounds: one less than the iterations asked for (ten where
/// none are given), and none for fewer than two.
pub open spec fn rounds(iters: Option<u32>) -> nat {
    let n: int = match iters {
        Some(k) => k as int,
        None => 10,
    };
    if n >= 1 {
        (n - 1) as nat
    } else {
        0
    }
}

/// Every step of mapping `p_p` and `p_q` into the distortion can be taken.
pub open spec fn to_distorted_req(e: EnvironmentModel, p_p: Point<i64>, p_q: Point<i64>, iters: Option<u32>) -> bool {
    &&& from_distorted_req(e, p_p.x, p_p.y)
    &&& from_distorted_req(e, p_q.x, p_q.y)
    &&& iterate(
        p_p,
        p_q,
        from_distorted_spec(e, p_p.x, p_p.y),
        from_distorted_spec(e, p_q.x, p_q.y),
        rounds(iters),
    ) is Some
}

/// The point that `p_p` is mapped to into the distortion, with `p_q` as a
/// nearby second point.
pub open spec fn to_distorted_spec(e: EnvironmentModel, p_p: Point<i64>, p_q: Point<i64>, iters: Option<u32>) -> Point<i64> {
    iterate(
        p_p,
        p_q,
        from_distorted_spec(e, p_p.x, p_p.y),
        from_distorted_spec(e, p_q.x, p_q.y),
        rounds(iters),
    ).unwrap()
}

impl Environment<i64> {
    /// Maps `(x, y)` out of the distortion: `P = A o (X) * X`. Each coordinate
    /// interpolates between the two opposite sides, evaluated at the other
    /// coordinate, with the parameter of the coordinate between the two
    /// interpolations at the other coordinate.
    pub fn from_distorted(&self, x: i64, y: i64) -> (r: Point<i64>)
        requires
            from_distorted_req(self@, x, y),
        ensures
            r == from_distorted_spec(self@, x, y),
    {
        let mx = lerp(
            poly_eval(&self.side_left, y * self.left_y_delta + self.left_y_min),
            poly_eval(&self.side_right, y * self.right_y_delta + self.right_y_min),
            unlerp(poly_eval(&self.lagrange_left, y), poly_eval(&self.lagrange_right, y), x),
        );
        let my = lerp(
            poly_eval(&self.side_bottom, x * self.bottom_x_delta + self.bottom_x_min),
            poly_eval(&self.side_top, x * self.top_x_delta + self.top_x_min),
            unlerp(poly_eval(&self.lagrange_bottom, x), poly_eval(&self.lagrange_top, x), y),
        );
        Point { x: mx, y: my }
    }

    /// Maps `p_p` into the distortion by the fixed-point iteration
    /// `X_n = (A o (X_{n-1}, Z_{n-1}))^-1 P`, `Z_n = (A o (X_{n-1}, Z_{n-1}))^-1 Q`
    /// from `X_0 = A o P`, `Z_0 = A o Q`, with `iters` iterations (ten where
    /// none are given).
    pub fn to_distorted(&self, p_p: Point<i64>, p_q: Point<i64>, iters: Option<u32>) -> (r: Point<i64>)
        requires
            to_distorted_req(self@, p_p, p_q, iters),
        ensures
            r == to_distorted_spec(self@, p_p, p_q, iters),
            iters matches Some(k) && k <= 1 ==> r == from_distorted_spec(self@, p_p.x, p_p.y),
    {
        let iters = iters.unwrap_or(10);
        let mut p_x = self.from_distorted(p_p.x, p_p.y);
        let mut p_z = self.from_distorted(p_q.x, p_q.y);
        let ghost total = if iters >= 1 { (iters - 1) as nat } else { 0nat };
        let ghost goal = iterate(p_p, p_q, p_x, p_z, total);
        let mut i: u32 = 1;
        while i < iters
            invariant
                total == (if iters >= 1 { (iters - 1) as nat } else { 0nat }),
                goal is Some,
                1 <= i,
                i - 1 <= total,
                iterate(p_p, p_q, p_x, p_z, (total - (i - 1)) as nat) == goal,
            decreases iters - i,
        {
            let a = get_transformation_matrix_from_points(p_p, p_x, p_q, p_z).invert().unwrap();
            p_x = a * p_p;
            p_z = a * p_q;
            i = i + 1;
        }
        p_x
    }
}

/// The x-coordinates of the points, in order.
pub open spec fn xs_of<T: Copy>(list: Seq<Point<T>>) -> Seq<T> {
    list.map_values(|p: Point<T>| p.x)
}

/// The y-coordinates of the points, in order.
pub open spec fn ys_of<T: Copy>(list: Seq<Point<T>>) -> Seq<T> {
    list.map_values(|p: Point<T>| p.y)
}

/// The least value of a nonempty sequence.
pub open spec fn seq_min(s: Seq<i64>) -> i64
    decreases s.len(),
{
    if s.len() <= 1 {
        s[0]
    } else {
        let m = seq_min(s.drop_last());
        if m < s.last() { m } else { s.last() }
    }
}

/// The greatest value of a nonempty sequence.
pub open spec fn seq_max(s: Seq<i64>) -> i64
    decreases s.len(),
{
    if s.len() <= 1 {
        s[0]
    } else {
        let m = seq_max(s.drop_last());
        if m > s.last() { m } else { s.last() }
    }
}

/// The least value is one of the values and no value is below it; the same
/// for the greatest value.
pub proof fn lemma_seq_min_max(s: Seq<i64>)
    requires
        s.len() > 0,
    ensures
        s.contains(seq_min(s)),
        forall|i: int| 0 <= i < s.len() ==> seq_min(s) <= #[trigger] s[i],
        s.contains(seq_max(s)),
        forall|i: int| 0 <= i < s.len() ==> #[trigger] s[i] <= seq_max(s),
    decreases s.len(),
{
    if s.len() > 1 {
        lemma_seq_min_max(s.drop_last());
        assert forall|i: int| 0 <= i < s.len() implies seq_min(s) <= #[trigger] s[i] && s[i] <= seq_max(s) by {
            if i < s.len() - 1 {
                assert(s[i] == s.drop_last()[i]);
            }
        }
        if seq_min(s) != s.last() {
            let k = choose|k: int| 0 <= k < s.drop_last().len() && s.drop_last()[k] == seq_min(s.drop_last());
            assert(s[k] == seq_min(s));
        }
        if seq_max(s) != s.last() {
            let k = choose|k: int| 0 <= k < s.drop_last().len() && s.drop_last()[k] == seq_max(s.drop_last());
            assert(s[k] == seq_max(s));
        }
    } else {
        assert(s[0] == seq_min(s));
    }
}

/// `p` moved by `(dx, dy)`.
pub open spec fn moved(p: Point<i64>, dx: int, dy: int) -> Point<i64> {
    Point { x: (p.x + dx) as i64, y: (p.y + dy) as i64 }
}

/// Every point of `other` is a point of `list` moved by `(dx, dy)`.
#[verifier::opaque]
pub open spec fn all_moved_from(other: Seq<Point<i64>>, list: Seq<Point<i64>>, dx: int, dy: int) -> bool {
    forall|i: int| 0 <= i < other.len() ==> exists|j: int| 0 <= j < list.len() && #[trigger] other[i] == moved(list[j], dx, dy)
}

/// Every point of `list` moved by `(dx, dy)` is a point of `other`.
#[verifier::opaque]
pub open spec fn all_moved_into(list: Seq<Point<i64>>, other: Seq<Point<i64>>, dx: int, dy: int) -> bool {
    forall|j: int| 0 <= j < list.len() ==> exists|i: int| 0 <= i < other.len() && other[i] == moved(#[trigger] list[j], dx, dy)
}

/// Each coordinate of the list fits when moved.
#[verifier::opaque]
pub open spec fn moves_fit(list: Seq<Point<i64>>, dx: int, dy: int) -> bool {
    forall|j: int| #![trigger list[j]] 0 <= j < list.len() ==> fits(list[j].x + dx) && fits(list[j].y + dy)
}

/// A point of `list` that the point `i` of `other` is moved from.
proof fn witness_from(other: Seq<Point<i64>>, list: Seq<Point<i64>>, dx: int, dy: int, i: int) -> (j: int)
    requires
        all_moved_from(other, list, dx, dy),
        0 <= i < other.len(),
    ensures
        0 <= j < list.len(),
        other[i] == moved(list[j], dx, dy),
{
    reveal(all_moved_from);
    assert(other[i] == other[i]);
    choose|j: int| 0 <= j < list.len() && other[i] == moved(list[j], dx, dy)
}

/// A point of `other` that the point `j` of `list` is moved to.
proof fn witness_into(list: Seq<Point<i64>>, other: Seq<Point<i64>>, dx: int, dy: int, j: int) -> (i: int)
    requires
        all_moved_into(list, other, dx, dy),
        0 <= j < list.len(),
    ensures
        0 <= i < other.len(),
        other[i] == moved(list[j], dx, dy),
{
    reveal(all_moved_into);
    assert(list[j] == list[j]);
    choose|i: int| 0 <= i < other.len() && other[i] == moved(list[j], dx, dy)
}

/// The point `j` of the list fits when moved.
proof fn fits_at(list: Seq<Point<i64>>, dx: int, dy: int, j: int)
    requires
        moves_fit(list, dx, dy),
        0 <= j < list.len(),
    ensures
        fits(list[j].x + dx),
        fits(list[j].y + dy),
{
    reveal(moves_fit);
    assert(list[j] == list[j]);
}

/// The least and the greatest x-coordinate move by `dx`.
proof fn lemma_xs_moved(list: Seq<Point<i64>>, other: Seq<Point<i64>>, dx: int, dy: int)
    requires
        list.len() > 0,
        moves_fit(list, dx, dy),
        all_moved_from(other, list, dx, dy),
        all_moved_into(list, other, dx, dy),
    ensures
        other.len() > 0,
        seq_min(xs_of(other)) == seq_min(xs_of(list)) + dx,
        seq_max(xs_of(other)) == seq_max(xs_of(list)) + dx,
{
    let s1 = xs_of(list);
    let s2 = xs_of(other);
    lemma_seq_min_max(s1);
    let k1 = choose|k: int| 0 <= k < s1.len() && s1[k] == seq_min(s1);
    let h1 = choose|k: int| 0 <= k < s1.len() && s1[k] == seq_max(s1);
    assert(s1[k1] == list[k1].x && s1[h1] == list[h1].x);
    fits_at(list, dx, dy, k1);
    fits_at(list, dx, dy, h1);
    let i1 = witness_into(list, other, dx, dy, k1);
    let g1 = witness_into(list, other, dx, dy, h1);
    assert(s2[i1] == other[i1].x && s2[g1] == other[g1].x);
    assert(s2[i1] == seq_min(s1) + dx);
    assert(s2[g1] == seq_max(s1) + dx);
    lemma_seq_min_max(s2);
    let k2 = choose|k: int| 0 <= k < s2.len() && s2[k] == seq_min(s2);
    let h2 = choose|k: int| 0 <= k < s2.len() && s2[k] == seq_max(s2);
    let j2 = witness_from(other, list, dx, dy, k2);
    let j3 = witness_from(other, list, dx, dy, h2);
    fits_at(list, dx, dy, j2);
    fits_at(list, dx, dy, j3);
    assert(s2[k2] == other[k2].x && s2[h2] == other[h2].x);
    assert(s1[j2] == list[j2].x && s1[j3] == list[j3].x);
    assert(seq_min(s1) <= s1[j2]);
    assert(s1[j3] <= seq_max(s1));
    assert(seq_min(s2) <= s2[i1]);
    assert(s2[g1] <= seq_max(s2));
}

/// The least and the greatest y-coordinate move by `dy`.
proof fn lemma_ys_moved(list: Seq<Point<i64>>, other: Seq<Point<i64>>, dx: int, dy: int)
    requires
        list.len() > 0,
        moves_fit(list, dx, dy),
        all_moved_from(other, list, dx, dy),
        all_moved_into(list, other, dx, dy),
    ensures
        other.len() > 0,
        seq_min(ys_of(other)) == seq_min(ys_of(list)) + dy,
        seq_max(ys_of(other)) == seq_max(ys_of(list)) + dy,
{
    let s1 = ys_of(list);
    let s2 = ys_of(other);
    lemma_seq_min_max(s1);
    let k1 = choose|k: int| 0 <= k < s1.len() && s1[k] == seq_min(s1);
    let h1 = choose|k: int| 0 <= k < s1.len() && s1[k] == seq_max(s1);
    assert(s1[k1] == list[k1].y && s1[h1] == list[h1].y);
    fits_at(list, dx, dy, k1);
    fits_at(list, dx, dy, h1);
    let i1 = witness_into(list, other, dx, dy, k1);
    let g1 = witness_into(list, other, dx, dy, h1);
    assert(s2[i1] == other[i1].y && s2[g1] == other[g1].y);
    assert(s2[i1] == seq_min(s1) + dy);
    assert(s2[g1] == seq_max(s1) + dy);
    lemma_seq_min_max(s2);
    let k2 = choose|k: int| 0 <= k < s2.len() && s2[k] == seq_min(s2);
    let h2 = choose|k: int| 0 <= k < s2.len() && s2[k] == seq_max(s2);
    let j2 = witness_from(other, list, dx, dy, k2);
    let j3 = witness_from(other, list, dx, dy, h2);
    fits_at(list, dx, dy, j2);
    fits_at(list, dx, dy, j3);
    assert(s2[k2] == other[k2].y && s2[h2] == other[h2].y);
    assert(s1[j2] == list[j2].y && s1[j3] == list[j3].y);
    assert(seq_min(s1) <= s1[j2]);
    assert(s1[j3] <= seq_max(s1));
    assert(seq_min(s2) <= s2[i1]);
    assert(s2[g1] <= seq_max(s2));
}

/// Moving every point by `(dx, dy)` and listing the moved points in any order
/// (any list holding exactly the moved points) moves the smallest coordinates
/// by `(dx, dy)` and keeps the spans.
pub proof fn lemma_mins_and_deltas_moved(list: Seq<Point<i64>>, other: Seq<Point<i64>>, dx: int, dy: int)
    requires
        mins_and_deltas_req(list),
        moves_fit(list, dx, dy),
        all_moved_from(other, list, dx, dy),
        all_moved_into(list, other, dx, dy),
    ensures
        mins_and_deltas_req(other),
        mins_and_deltas_spec(other) == (
            (mins_and_deltas_spec(list).0 + dx) as i64,
            mins_and_deltas_spec(list).1,
            (mins_and_deltas_spec(list).2 + dy) as i64,
            mins_and_deltas_spec(list).3,
        ),
{
    lemma_xs_moved(list, other, dx, dy);
    lemma_ys_moved(list, other, dx, dy);
}

/// A nonempty list whose spans `max - min` in x and in y fit in `i64`.
pub open spec fn mins_and_deltas_req(list: Seq<Point<i64>>) -> bool {
    &&& list.len() > 0
    &&& fits(seq_max(xs_of(list)) - seq_min(xs_of(list)))
    &&& fits(seq_max(ys_of(list)) - seq_min(ys_of(list)))
}

/// `(min x, max x - min x, min y, max y - min y)` of a list.
pub open spec fn mins_and_deltas_spec(list: Seq<Point<i64>>) -> (i64, i64, i64, i64) {
    let (xs, ys) = (xs_of(list), ys_of(list));
    (
        seq_min(xs),
        (seq_max(xs) - seq_min(xs)) as i64,
        seq_min(ys),
        (seq_max(ys) - seq_min(ys)) as i64,
    )
}

/// `min` is the least of the values and `min + span` the greatest.
pub open spec fn is_least_and_span(s: Seq<i64>, min: i64, span: i64) -> bool {
    &&& s.contains(min)
    &&& exists|i: int| 0 <= i < s.len() && s[i] == min + span
    &&& forall|i: int| 0 <= i < s.len() ==> min <= #[trigger] s[i] <= min + span
}

/// The least value and the span of a nonempty sequence are its only least
/// value and span.
pub proof fn lemma_least_and_span(s: Seq<i64>)
    requires
        s.len() > 0,
        fits(seq_max(s) - seq_min(s)),
    ensures
        is_least_and_span(s, seq_min(s), (seq_max(s) - seq_min(s)) as i64),
        forall|m: i64, d: i64| #[trigger] is_least_and_span(s, m, d)
            ==> m == seq_min(s) && d == seq_max(s) - seq_min(s),
{
    lemma_seq_min_max(s);
    assert forall|m: i64, d: i64| #[trigger] is_least_and_span(s, m, d)
        implies m == seq_min(s) && d == seq_max(s) - seq_min(s) by {
        let i = choose|i: int| 0 <= i < s.len() && s[i] == m;
        let j = choose|j: int| 0 <= j < s.len() && s[j] == m + d;
        let k = choose|k: int| 0 <= k < s.len() && s[k] == seq_min(s);
        let h = choose|h: int| 0 <= h < s.len() && s[h] == seq_max(s);
        assert(seq_min(s) <= s[i]);
        assert(m <= s[k]);
        assert(s[j] <= seq_max(s));
        assert(s[h] <= m + d);
    }
    let k = choose|k: int| 0 <= k < s.len() && s[k] == seq_max(s);
    assert(s[k] == seq_min(s) + (seq_max(s) - seq_min(s)) as i64);
}

/// The x-coordinates of the points, in order.
pub fn get_points_x_coord<T: Copy>(points: &Points<T>) -> (r: Vec<T>)
    ensures
        r@ == xs_of(points@),
{
    let mut vec: Vec<T> = Vec::new();
    let n = points.len();
    for i in 0..n
        invariant
            n == points.len(),
            vec@ == xs_of(points@.take(i as int)),
    {
        vec.push(points[i].x);
        assert(points@.take(i + 1) == points@.take(i as int).push(points@[i as int]));
    }
    assert(points@.take(n as int) == points@);
    vec
}

/// The y-coordinates of the points, in order.
pub fn get_points_y_coord<T: Copy>(points: &Points<T>) -> (r: Vec<T>)
    ensures
        r@ == ys_of(points@),
{
    let mut vec: Vec<T> = Vec::new();
    let n = points.len();
    for i in 0..n
        invariant
            n == points.len(),
            vec@ == ys_of(points@.take(i as int)),
    {
        vec.push(points[i].y);
        assert(points@.take(i + 1) == points@.take(i as int).push(points@[i as int]));
    }
    assert(points@.take(n as int) == points@);
    vec
}

/// The smallest x, the span of the x-coordinates, the smallest y and the span
/// of the y-coordinates of a nonempty list of points.
pub fn get_mins_and_deltas(list: &Points<i64>) -> (r: (i64, i64, i64, i64))
    requires
        mins_and_deltas_req(list@),
    ensures
        r == mins_and_deltas_spec(list@),
{
    let ghost xs = xs_of(list@);
    let ghost ys = ys_of(list@);
    let mut min_x = list[0].x;
    let mut max_x = list[0].x;
    let mut min_y = list[0].y;
    let mut max_y = list[0].y;
    let n = list.len();
    assert(xs.take(1).drop_last() =~= Seq::<i64>::empty() || xs.take(1).len() == 1);
    for i in 1..n
        invariant
            n == list.len(),
            xs == xs_of(list@),
            ys == ys_of(list@),
            min_x == seq_min(xs.take(i as int)),
            max_x == seq_max(xs.take(i as int)),
            min_y == seq_min(ys.take(i as int)),
            max_y == seq_max(ys.take(i as int)),
    {
        let p = list[i];
        assert(xs.take(i + 1).drop_last() == xs.take(i as int));
        assert(ys.take(i + 1).drop_last() == ys.take(i as int));
        if !(min_x < p.x) {
            min_x = p.x;
        }
        if !(max_x > p.x) {
            max_x = p.x;
        }
        if !(min_y < p.y) {
            min_y = p.y;
        }
        if !(max_y > p.y) {
            max_y = p.y;
        }
    }
    assert(xs.take(n as int) == xs);
    assert(ys.take(n as int) == ys);
    (min_x, max_x - min_x, min_y, max_y - min_y)
}

/// The steps of solving `a = ma x + mb y`, `b = mc x + md y` stay in the range
/// of `i64`, and no division is by zero or overflows.
pub open spec fn solve_req(m: Matrix2x2<i64>, a: i64, b: i64) -> bool {
    &&& det_req(m)
    &&& det_spec(m) != 0 ==> if m.a == 0 {
        &&& a.div_req(m.b)
        &&& fits(m.d * a.div_spec(m.b))
        &&& fits(b - m.d * a.div_spec(m.b))
        &&& ((b - m.d * a.div_spec(m.b)) as i64).div_req(m.c)
    } else {
        &&& fits(m.a * b)
        &&& fits(m.c * a)
        &&& fits(m.a * b - m.c * a)
        &&& ((m.a * b - m.c * a) as i64).div_req(det_spec(m))
        &&& fits(m.b * solve_y(m, a, b))
        &&& fits(a - m.b * solve_y(m, a, b))
        &&& ((a - m.b * solve_y(m, a, b)) as i64).div_req(m.a)
    }
}

/// The `y` of the solution: `a / mb` where `ma` is zero, else
/// `(ma b - mc a) / det`.
pub open spec fn solve_y(m: Matrix2x2<i64>, a: i64, b: i64) -> i64 {
    if m.a == 0 {
        a.div_spec(m.b)
    } else {
        ((m.a * b - m.c * a) as i64).div_spec(det_spec(m))
    }
}

/// The `x` of the solution: `(b - md y) / mc` where `ma` is zero, else
/// `(a - mb y) / ma`.
pub open spec fn solve_x(m: Matrix2x2<i64>, a: i64, b: i64) -> i64 {
    let y = solve_y(m, a, b);
    if m.a == 0 {
        ((b - m.d * y) as i64).div_spec(m.c)
    } else {
        ((a - m.b * y) as i64).div_spec(m.a)
    }
}

/// Solves `a = ma x + mb y`, `b = mc x + md y` for `[x, y]`; an error where the
/// determinant of `m` is zero.
pub fn solve_2_variable_eqn_sys(m: &Matrix2x2<i64>, a: i64, b: i64) -> (r: Result<[i64; 2], String>)
    requires
        solve_req(*m, a, b),
    ensures
        r is Err <==> det_spec(*m) == 0,
        r matches Ok(v) ==> v@ == seq![solve_x(*m, a, b), solve_y(*m, a, b)],
        r matches Err(e) ==> e@ == "The determinant of the matrix is zero!"@,
{
    if m.is_zero() {
        Err("The determinant of the matrix is zero!".to_string())
    } else if m.a == 0 {
        let y = a / m.b;
        let x = (b - m.d * y) / m.c;
        Ok([x, y])
    } else {
        let y = (m.a * b - m.c * a) / m.det();
        let x = (a - m.b * y) / m.a;
        Ok([x, y])
    }
}


/// Each division that solving `a = ma x + mb y`, `b = mc x + md y` performs is exact.
pub open spec fn solve_exact(m: Matrix2x2<i64>, a: i64, b: i64) -> bool {
    let y = solve_y(m, a, b);
    if m.a == 0 {
        &&& (a as int) % (m.b as int) == 0
        &&& (b - m.d * y) % (m.c as int) == 0
    } else {
        &&& (m.a * b - m.c * a) % (det_spec(m) as int) == 0
        &&& (a - m.b * y) % (m.a as int) == 0
    }
}

/// Where every division is exact, the solution satisfies both equations.
pub proof fn lemma_solve_satisfies(m: Matrix2x2<i64>, a: i64, b: i64)
    requires
        solve_req(m, a, b),
        det_spec(m) != 0,
        solve_exact(m, a, b),
    ensures
        m.a * solve_x(m, a, b) + m.b * solve_y(m, a, b) == a,
        m.c * solve_x(m, a, b) + m.d * solve_y(m, a, b) == b,
{
    let y = solve_y(m, a, b);
    let x = solve_x(m, a, b);
    let (ma, mb, mc, md) = (m.a as int, m.b as int, m.c as int, m.d as int);
    let det = det_spec(m) as int;
    assert(det == ma * md - mb * mc);
    if m.a == 0 {
        crate::util::lemma_exact_div(a, m.b);
        crate::util::lemma_exact_div((b - m.d * y) as i64, m.c);
        assert(y * mb == a);
        assert(x * mc == b - md * y);
        assert(mc * x + md * y == b) by (nonlinear_arith)
            requires x * mc == b - md * y;
        assert(ma * x + mb * y == a) by (nonlinear_arith)
            requires y * mb == a, ma == 0;
    } else {
        crate::util::lemma_exact_div((m.a * b - m.c * a) as i64, det_spec(m));
        crate::util::lemma_exact_div((a - m.b * y) as i64, m.a);
        assert(y * det == ma * b - mc * a);
        assert(x * ma == a - mb * y);
        assert(ma * x + mb * y == a) by (nonlinear_arith)
            requires x * ma == a - mb * y;
        assert(ma * (mc * x + md * y) == ma * b) by (nonlinear_arith)
            requires x * ma == a - mb * y, y * det == ma * b - mc * a, det == ma * md - mb * mc;
        assert(mc * x + md * y == b) by (nonlinear_arith)
            requires ma * (mc * x + md * y) == ma * b, ma != 0;
    }
}

/// The matrix whose rows are the two points.
pub open spec fn rows(p: Point<i64>, q: Point<i64>) -> Matrix2x2<i64> {
    Matrix2x2 { a: p.x, b: p.y, c: q.x, d: q.y }
}

/// Both systems that find the matrix taking `p0` to `p1` and `q0` to `q1` can
/// be solved: the rows `p0`, `q0` are independent and no step overflows.
pub open spec fn transformation_req(p0: Point<i64>, p1: Point<i64>, q0: Point<i64>, q1: Point<i64>) -> bool {
    &&& solve_req(rows(p0, q0), p1.x, q1.x)
    &&& solve_req(rows(p0, q0), p1.y, q1.y)
    &&& det_spec(rows(p0, q0)) != 0
}

/// The matrix `[[a b] [c d]]` with `[a, b]` the solution for the x-coordinates
/// and `[c, d]` the solution for the y-coordinates.
pub open spec fn transformation_spec(p0: Point<i64>, p1: Point<i64>, q0: Point<i64>, q1: Point<i64>) -> Matrix2x2<i64> {
    let m = rows(p0, q0);
    Matrix2x2 {
        a: solve_x(m, p1.x, q1.x),
        b: solve_y(m, p1.x, q1.x),
        c: solve_x(m, p1.y, q1.y),
        d: solve_y(m, p1.y, q1.y),
    }
}

/// The matrix `A` with `A p0 = p1` and `A q0 = q1`, found by solving one
/// system for each coordinate.
pub fn get_transformation_matrix_from_points(
    p0: Point<i64>,
    p1: Point<i64>,
    q0: Point<i64>,
    q1: Point<i64>,
) -> (r: Matrix2x2<i64>)
    requires
        transformation_req(p0, p1, q0, q1),
    ensures
        r == transformation_spec(p0, p1, q0, q1),
{
    let m = Matrix2x2::<i64>::new(p0.x, p0.y, q0.x, q0.y);
    let ab = solve_2_variable_eqn_sys(&m, p1.x, q1.x).expect(
        "The matrix' lines are Linearly Dependent\n\t<= P0 = k Q0",
    );
    let cd = solve_2_variable_eqn_sys(&m, p1.y, q1.y).expect(
        "The matrix' lines are Linearly Dependent\n\t<= P0 = k Q0",
    );
    Matrix2x2 { a: ab[0], b: ab[1], c: cd[0], d: cd[1] }
}

/// Where every division is exact, the matrix takes `p0` to `p1` and `q0` to `q1`.
pub proof fn lemma_transformation_maps(p0: Point<i64>, p1: Point<i64>, q0: Point<i64>, q1: Point<i64>)
    requires
        transformation_req(p0, p1, q0, q1),
        solve_exact(rows(p0, q0), p1.x, q1.x),
        solve_exact(rows(p0, q0), p1.y, q1.y),
        transformation_spec(p0, p1, q0, q1).mul_req(p0),
        transformation_spec(p0, p1, q0, q1).mul_req(q0),
    ensures
        transformation_spec(p0, p1, q0, q1).mul_spec(p0) == p1,
        transformation_spec(p0, p1, q0, q1).mul_spec(q0) == q1,
{
    let m = rows(p0, q0);
    lemma_solve_satisfies(m, p1.x, q1.x);
    lemma_solve_satisfies(m, p1.y, q1.y);
    let t = transformation_spec(p0, p1, q0, q1);
    assert(t.a * p0.x + t.b * p0.y == p1.x) by (nonlinear_arith)
        requires p0.x * t.a + p0.y * t.b == p1.x;
    assert(t.c * p0.x + t.d * p0.y == p1.y) by (nonlinear_arith)
        requires p0.x * t.c + p0.y * t.d == p1.y;
    assert(t.a * q0.x + t.b * q0.y == q1.x) by (nonlinear_arith)
        requires q0.x * t.a + q0.y * t.b == q1.x;
    assert(t.c * q0.x + t.d * q0.y == q1.y) by (nonlinear_arith)
        requires q0.x * t.c + q0.y * t.d == q1.y;
}


/// Where the system has an integer solution `(u, v)`, solving finds it: every
/// division is exact.
pub proof fn lemma_solve_integral(m: Matrix2x2<i64>, a: i64, b: i64, u: i64, v: i64)
    requires
        solve_req(m, a, b),
        det_spec(m) != 0,
        m.a * u + m.b * v == a,
        m.c * u + m.d * v == b,
    ensures
        solve_x(m, a, b) == u,
        solve_y(m, a, b) == v,
{
    let (ma, mb, mc, md) = (m.a as int, m.b as int, m.c as int, m.d as int);
    let det = det_spec(m) as int;
    assert(det == ma * md - mb * mc);
    if m.a == 0 {
        assert(mb * mc != 0) by (nonlinear_arith)
            requires det == ma * md - mb * mc, det != 0, ma == 0;
        assert(mb != 0 && mc != 0) by (nonlinear_arith)
            requires mb * mc != 0;
        assert(mb * v == a);
        crate::util::lemma_exact_quotient(m.b, v);
        assert(solve_y(m, a, b) == v);
        assert(b - md * v == mc * u);
        crate::util::lemma_exact_quotient(m.c, u);
    } else {
        assert(ma * b - mc * a == det * v) by (nonlinear_arith)
            requires
                det == ma * md - mb * mc,
                ma * u + mb * v == a,
                mc * u + md * v == b;
        crate::util::lemma_exact_quotient(det_spec(m), v);
        assert(solve_y(m, a, b) == v);
        assert(a - mb * v == ma * u);
        crate::util::lemma_exact_quotient(m.a, u);
    }
}

/// The matrix found from two independent points and their images under `n`
/// is `n`.
pub proof fn lemma_transformation_of_linear(p: Point<i64>, q: Point<i64>, n: Matrix2x2<i64>)
    requires
        apply_req(n, p),
        apply_req(n, q),
        transformation_req(p, apply(n, p), q, apply(n, q)),
    ensures
        transformation_spec(p, apply(n, p), q, apply(n, q)) == n,
{
    let m = rows(p, q);
    let (np, nq) = (apply(n, p), apply(n, q));
    assert(p.x * n.a + p.y * n.b == np.x) by (nonlinear_arith)
        requires np.x == n.a * p.x + n.b * p.y;
    assert(q.x * n.a + q.y * n.b == nq.x) by (nonlinear_arith)
        requires nq.x == n.a * q.x + n.b * q.y;
    assert(p.x * n.c + p.y * n.d == np.y) by (nonlinear_arith)
        requires np.y == n.c * p.x + n.d * p.y;
    assert(q.x * n.c + q.y * n.d == nq.y) by (nonlinear_arith)
        requires nq.y == n.c * q.x + n.d * q.y;
    lemma_solve_integral(m, np.x, nq.x, n.a, n.b);
    lemma_solve_integral(m, np.y, nq.y, n.c, n.d);
}

/// The inverse of a matrix of determinant `1` or `-1` has the same
/// determinant, can be inverted, and its inverse is the matrix.
pub proof fn lemma_invert_twice(m: Matrix2x2<i64>)
    requires
        invert_req(m),
        det_spec(m) == 1 || det_spec(m) == -1,
    ensures
        invert_req(invert_spec(m)),
        det_spec(invert_spec(m)) == det_spec(m),
        invert_spec(invert_spec(m)) == m,
{
    let n = invert_spec(m);
    let (ma, mb, mc, md) = (m.a as int, m.b as int, m.c as int, m.d as int);
    let s = det_spec(m) as int;
    assert(s == ma * md - mb * mc);
    assert(s * s == 1);
    assert(recip(det_spec(m)) == s);
    let (na, nb, nc, nd) = (n.a as int, n.b as int, n.c as int, n.d as int);
    assert(na == md * s && nb == -mb * s && nc == -mc * s && nd == ma * s);
    assert(na * nd == ma * md) by (nonlinear_arith)
        requires na == md * s, nd == ma * s, s * s == 1;
    assert(nb * nc == mb * mc) by (nonlinear_arith)
        requires nb == -mb * s, nc == -mc * s, s * s == 1;
    assert(det_spec(n) == det_spec(m));
    assert(recip(det_spec(n)) == s);
    assert(nd * s == ma) by (nonlinear_arith)
        requires nd == ma * s, s * s == 1;
    assert(-nb * s == mb) by (nonlinear_arith)
        requires nb == -mb * s, s * s == 1;
    assert(-nc * s == mc) by (nonlinear_arith)
        requires nc == -mc * s, s * s == 1;
    assert(na * s == md) by (nonlinear_arith)
        requires na == md * s, s * s == 1;
    assert(fits(-nb)) by (nonlinear_arith)
        requires nb == -mb * s, s == 1 || s == -1, fits(mb), fits(-mb);
    assert(fits(-nc)) by (nonlinear_arith)
        requires nc == -mc * s, s == 1 || s == -1, fits(mc), fits(-mc);
}

/// A point on an edge of the distorted frame is mapped onto the side of that
/// edge: on the left interpolation to the left side, on the right one to the
/// right side, and likewise for the bottom and the top.
pub proof fn lemma_edges_map_to_sides(e: EnvironmentModel, x: i64, y: i64)
    requires
        from_distorted_req(e, x, y),
    ensures
        x == value_at(e.lagrange_left, y) ==> from_distorted_spec(e, x, y).x
            == value_at(e.side_left, affine(y, e.left_y_delta, e.left_y_min)),
        x == value_at(e.lagrange_right, y) ==> from_distorted_spec(e, x, y).x
            == value_at(e.side_right, affine(y, e.right_y_delta, e.right_y_min)),
        y == value_at(e.lagrange_bottom, x) ==> from_distorted_spec(e, x, y).y
            == value_at(e.side_bottom, affine(x, e.bottom_x_delta, e.bottom_x_min)),
        y == value_at(e.lagrange_top, x) ==> from_distorted_spec(e, x, y).y
            == value_at(e.side_top, affine(x, e.top_x_delta, e.top_x_min)),
{
    let (ll, lr) = (value_at(e.lagrange_left, y), value_at(e.lagrange_right, y));
    let (lb, lt) = (value_at(e.lagrange_bottom, x), value_at(e.lagrange_top, x));
    crate::util::lemma_unlerp_endpoints(ll, lr);
    crate::util::lemma_unlerp_endpoints(lb, lt);
    let (sl, sr) = (
        value_at(e.side_left, affine(y, e.left_y_delta, e.left_y_min)),
        value_at(e.side_right, affine(y, e.right_y_delta, e.right_y_min)),
    );
    let (sb, st) = (
        value_at(e.side_bottom, affine(x, e.bottom_x_delta, e.bottom_x_min)),
        value_at(e.side_top, affine(x, e.top_x_delta, e.top_x_min)),
    );
    if x == ll || x == lr {
        crate::util::lemma_lerp_endpoints(sl, sr);
    }
    if y == lb || y == lt {
        crate::util::lemma_lerp_endpoints(sb, st);
    }
}

/// Mapping into the distortion with fewer than two iterations is mapping out
/// of it; no matrix is solved or inverted, so it can be done whether or not
/// `p_p` and `p_q` are independent.
pub proof fn lemma_single_iteration(e: EnvironmentModel, p_p: Point<i64>, p_q: Point<i64>, iters: Option<u32>)
    requires
        from_distorted_req(e, p_p.x, p_p.y),
        from_distorted_req(e, p_q.x, p_q.y),
        iters matches Some(k) && k <= 1,
    ensures
        to_distorted_req(e, p_p, p_q, iters),
        to_distorted_spec(e, p_p, p_q, iters) == from_distorted_spec(e, p_p.x, p_p.y),
{
}

/// Where the rounds start from the images of `p` and `q` under a matrix `m`
/// of determinant `1` or `-1`, each round inverts the matrix: after an odd
/// number of rounds `X` is `m^-1 p`, after an even number `m p`.
pub proof fn lemma_iterate_linear(p: Point<i64>, q: Point<i64>, m: Matrix2x2<i64>, k: nat)
    requires
        invert_req(m),
        det_spec(m) == 1 || det_spec(m) == -1,
        apply_req(m, p),
        apply_req(m, q),
        iterate(p, q, apply(m, p), apply(m, q), k) is Some,
    ensures
        k >= 1 ==> apply_req(invert_spec(m), p),
        iterate(p, q, apply(m, p), apply(m, q), k) == Some(
            if k % 2 == 1 { apply(invert_spec(m), p) } else { apply(m, p) },
        ),
    decreases k,
{
    if k > 0 {
        let (mp, mq) = (apply(m, p), apply(m, q));
        assert(round_req(p, q, mp, mq));
        lemma_transformation_of_linear(p, q, m);
        let n = invert_spec(m);
        assert(round(p, q, mp, mq) == (apply(n, p), apply(n, q)));
        lemma_invert_twice(m);
        lemma_iterate_linear(p, q, n, (k - 1) as nat);
    }
}

/// An even number of iterations, at least two, or the default of ten.
pub open spec fn even_iterations(iters: Option<u32>) -> bool {
    match iters {
        Some(k) => k >= 2 && k % 2 == 0,
        None => true,
    }
}

/// Where mapping out of the distortion acts on `P` and `Q` as a matrix `M` of
/// determinant `1` or `-1`, mapping `P` into it alternates between `M^-1 P`
/// and `M P`: each round finds the matrix `M` or `M^-1` from the points it
/// starts from and inverts it. With an even number `k >= 2` of iterations, and
/// with the default of ten, the result is `M^-1 P`, which `M` takes back to
/// `P`; with an odd number, or fewer than two, it is `M P`.
pub proof fn lemma_to_distorted_linear(
    e: EnvironmentModel,
    p_p: Point<i64>,
    p_q: Point<i64>,
    iters: Option<u32>,
    m: Matrix2x2<i64>,
)
    requires
        to_distorted_req(e, p_p, p_q, iters),
        invert_req(m),
        det_spec(m) == 1 || det_spec(m) == -1,
        apply_req(m, p_p),
        apply_req(m, p_q),
        from_distorted_spec(e, p_p.x, p_p.y) == apply(m, p_p),
        from_distorted_spec(e, p_q.x, p_q.y) == apply(m, p_q),
    ensures
        even_iterations(iters) ==> to_distorted_spec(e, p_p, p_q, iters) == apply(invert_spec(m), p_p),
        even_iterations(iters) ==> {
            let r = to_distorted_spec(e, p_p, p_q, iters);
            m.a * r.x + m.b * r.y == p_p.x && m.c * r.x + m.d * r.y == p_p.y
        },
        even_iterations(iters) && apply_req(m, to_distorted_spec(e, p_p, p_q, iters))
            ==> apply(m, to_distorted_spec(e, p_p, p_q, iters)) == p_p,
        !even_iterations(iters) ==> to_distorted_spec(e, p_p, p_q, iters) == apply(m, p_p),
{
    let k = rounds(iters);
    lemma_iterate_linear(p_p, p_q, m, k);
    assert(even_iterations(iters) <==> k % 2 == 1);
    if k % 2 == 1 {
        let n = invert_spec(m);
        let r = apply(n, p_p);
        let (a, b, c, d) = (m.a as int, m.b as int, m.c as int, m.d as int);
        let (x, y) = (p_p.x as int, p_p.y as int);
        let s = det_spec(m) as int;
        assert(s == a * d - b * c);
        assert(s * s == 1);
        assert(recip(det_spec(m)) == s);
        crate::matrix::lemma_cancel(a, b, c, d, x, y, s);
        assert(r.x == (d * s) * x + (-b * s) * y);
        assert(r.y == (-c * s) * x + (a * s) * y);
    }
}

/// The coefficients of the constant polynomial `k`.
pub open spec fn constant(k: i64) -> Seq<i64> {
    trim(seq![k])
}

/// `(lagrange - min) * delta` can be built without overflow.
pub open spec fn side_fits(lagrange: Seq<i64>, min: i64, delta: i64) -> bool {
    &&& sub_fits(lagrange, constant(min))
    &&& scale_fits(sub_coeffs(lagrange, constant(min)), constant(delta))
}

/// The coefficients of `(lagrange - min) * delta`.
pub open spec fn side_coeffs(lagrange: Seq<i64>, min: i64, delta: i64) -> Seq<i64> {
    scale_coeffs(sub_coeffs(lagrange, constant(min)), constant(delta))
}

/// `(lagrange - min) * delta + lift` can be built without overflow.
pub open spec fn lifted_side_fits(lagrange: Seq<i64>, min: i64, delta: i64, lift: i64) -> bool {
    &&& side_fits(lagrange, min, delta)
    &&& add_fits(side_coeffs(lagrange, min, delta), constant(lift))
}

/// The coefficients of `(lagrange - min) * delta + lift`.
pub open spec fn lifted_side_coeffs(lagrange: Seq<i64>, min: i64, delta: i64, lift: i64) -> Seq<i64> {
    add_coeffs(side_coeffs(lagrange, min, delta), constant(lift))
}

/// The interpolation through the points `(xs[i], ys[i])` can be built: no step
/// overflows and no paired x-coordinate occurs twice.
pub open spec fn interpolation_req(xs: Seq<i64>, ys: Seq<i64>) -> bool {
    lagrange_fits(xs, ys) && !repeated_x(xs, ys.len())
}

/// The coefficients of the interpolation through the points `(xs[i], ys[i])`.
pub open spec fn interpolation(xs: Seq<i64>, ys: Seq<i64>) -> Seq<i64> {
    lagrange_coeffs(xs, ys).unwrap()
}

/// The four lists can be measured and interpolated: the bottom and top lists
/// as y over x, the left and right lists as x over y.
pub open spec fn lists_req(
    bottom: Seq<Point<i64>>,
    top: Seq<Point<i64>>,
    left: Seq<Point<i64>>,
    right: Seq<Point<i64>>,
) -> bool {
    &&& mins_and_deltas_req(bottom)
    &&& mins_and_deltas_req(top)
    &&& mins_and_deltas_req(left)
    &&& mins_and_deltas_req(right)
    &&& interpolation_req(xs_of(bottom), ys_of(bottom))
    &&& interpolation_req(xs_of(top), ys_of(top))
    &&& interpolation_req(ys_of(left), xs_of(left))
    &&& interpolation_req(ys_of(right), xs_of(right))
}

/// The measurements of one list: smallest x, span of x, smallest y, span of y.
pub type Measures = (i64, i64, i64, i64);

/// The four sides can be built from the interpolations and the measurements
/// without overflow. The right side is built from the left interpolation.
pub open spec fn assembly_req(
    lagrange_bottom: Seq<i64>,
    lagrange_top: Seq<i64>,
    lagrange_left: Seq<i64>,
    bottom: Measures,
    top: Measures,
    left: Measures,
    right: Measures,
) -> bool {
    &&& side_fits(lagrange_bottom, bottom.2, bottom.3)
    &&& lifted_side_fits(lagrange_top, top.2, top.3, 1)
    &&& side_fits(lagrange_left, left.0, left.1)
    &&& lifted_side_fits(lagrange_left, right.0, right.1, 1)
}

/// The environment assembled from the four interpolations and the
/// measurements of the four lists. Each side is its interpolation less the
/// smallest cross coordinate, times its span; the top side is lifted by `1`
/// and the right side, built from the left interpolation, by
/// `(1 + 1 + 1) / (1 + 1)`, which is `1` in `i64`.
pub open spec fn assembled_spec(
    lagrange_bottom: Seq<i64>,
    lagrange_top: Seq<i64>,
    lagrange_left: Seq<i64>,
    lagrange_right: Seq<i64>,
    bottom: Measures,
    top: Measures,
    left: Measures,
    right: Measures,
) -> EnvironmentModel {
    EnvironmentModel {
        side_top: lifted_side_coeffs(lagrange_top, top.2, top.3, 1),
        side_right: lifted_side_coeffs(lagrange_left, right.0, right.1, 1),
        side_bottom: side_coeffs(lagrange_bottom, bottom.2, bottom.3),
        side_left: side_coeffs(lagrange_left, left.0, left.1),
        lagrange_top,
        lagrange_right,
        lagrange_bottom,
        lagrange_left,
        bottom_x_delta: bottom.1,
        bottom_x_min: bottom.0,
        top_x_delta: top.1,
        top_x_min: top.0,
        left_y_delta: left.3,
        left_y_min: left.2,
        right_y_delta: right.3,
        right_y_min: right.2,
    }
}

/// The value of a side at `v` is the value of its interpolation at `v`, less
/// the smallest cross coordinate, times the span.
pub proof fn lemma_side_value(lagrange: Seq<i64>, min: i64, delta: i64, v: int)
    requires
        side_fits(lagrange, min, delta),
    ensures
        horner(side_coeffs(lagrange, min, delta), v) == (horner(lagrange, v) - min) * delta,
{
    lemma_constant_value(min, v);
    lemma_constant_value(delta, v);
    lemma_sub_value(lagrange, constant(min), v);
    lemma_scale_value(sub_coeffs(lagrange, constant(min)), constant(delta), v);
}

/// The value of a lifted side at `v` is that of the side plus the lift.
pub proof fn lemma_lifted_side_value(lagrange: Seq<i64>, min: i64, delta: i64, lift: i64, v: int)
    requires
        lifted_side_fits(lagrange, min, delta, lift),
    ensures
        horner(lifted_side_coeffs(lagrange, min, delta, lift), v) == (horner(lagrange, v) - min)
            * delta + lift,
{
    lemma_side_value(lagrange, min, delta, v);
    lemma_constant_value(lift, v);
    lemma_add_value(side_coeffs(lagrange, min, delta), constant(lift), v);
}

/// Mapping out of an assembled distortion, in terms of the interpolations
/// alone: each coordinate interpolates between `(L(s) - min) * span` on the
/// near side and `(L(s) - min) * span + 1` on the far side (the right side
/// from the left interpolation), with the parameter of the coordinate between
/// the two interpolations.
pub proof fn lemma_from_distorted_by_interpolations(
    lb: Seq<i64>,
    lt: Seq<i64>,
    ll: Seq<i64>,
    lr: Seq<i64>,
    bottom: Measures,
    top: Measures,
    left: Measures,
    right: Measures,
    x: i64,
    y: i64,
)
    requires
        assembly_req(lb, lt, ll, bottom, top, left, right),
        from_distorted_req(assembled_spec(lb, lt, ll, lr, bottom, top, left, right), x, y),
    ensures
        ({
            let ly = affine(y, left.3, left.2) as int;
            let ry = affine(y, right.3, right.2) as int;
            let bx = affine(x, bottom.1, bottom.0) as int;
            let tx = affine(x, top.1, top.0) as int;
            from_distorted_spec(assembled_spec(lb, lt, ll, lr, bottom, top, left, right), x, y)
                == Point {
                x: lerp_spec(
                    ((horner(ll, ly) - left.0) * left.1) as i64,
                    ((horner(ll, ry) - right.0) * right.1 + 1) as i64,
                    unlerp_spec(value_at(ll, y), value_at(lr, y), x),
                ),
                y: lerp_spec(
                    ((horner(lb, bx) - bottom.2) * bottom.3) as i64,
                    ((horner(lt, tx) - top.2) * top.3 + 1) as i64,
                    unlerp_spec(value_at(lb, x), value_at(lt, x), y),
                ),
            }
        }),
{
    lemma_side_value(ll, left.0, left.1, affine(y, left.3, left.2) as int);
    lemma_lifted_side_value(ll, right.0, right.1, 1, affine(y, right.3, right.2) as int);
    lemma_side_value(lb, bottom.2, bottom.3, affine(x, bottom.1, bottom.0) as int);
    lemma_lifted_side_value(lt, top.2, top.3, 1, affine(x, top.1, top.0) as int);
}

/// The four sides can be built from the interpolations of the lists without
/// overflow.
pub open spec fn sides_req(
    bottom: Seq<Point<i64>>,
    top: Seq<Point<i64>>,
    left: Seq<Point<i64>>,
    right: Seq<Point<i64>>,
) -> bool {
    assembly_req(
        interpolation(xs_of(bottom), ys_of(bottom)),
        interpolation(xs_of(top), ys_of(top)),
        interpolation(ys_of(left), xs_of(left)),
        mins_and_deltas_spec(bottom),
        mins_and_deltas_spec(top),
        mins_and_deltas_spec(left),
        mins_and_deltas_spec(right),
    )
}

/// The environment built from the four lists: the bottom and top lists
/// interpolated as y over x, the left and right lists as x over y.
pub open spec fn distorted_environment_spec(
    bottom: Seq<Point<i64>>,
    top: Seq<Point<i64>>,
    left: Seq<Point<i64>>,
    right: Seq<Point<i64>>,
) -> EnvironmentModel {
    assembled_spec(
        interpolation(xs_of(bottom), ys_of(bottom)),
        interpolation(xs_of(top), ys_of(top)),
        interpolation(ys_of(left), xs_of(left)),
        interpolation(ys_of(right), xs_of(right)),
        mins_and_deltas_spec(bottom),
        mins_and_deltas_spec(top),
        mins_and_deltas_spec(left),
        mins_and_deltas_spec(right),
    )
}

/// What the environment built from the four lists holds. The bottom and top
/// lists give the least x-coordinate and the span of the x-coordinates that
/// their sides are evaluated at, the left and right lists the least
/// y-coordinate and the span of the y-coordinates. Each side is its
/// interpolation less the least cross coordinate of its list, times the span
/// of those coordinates: the bottom and top sides in y, lifted by one for the
/// top, and the left and right sides in x, both from the left interpolation
/// and lifted by one for the right.
pub proof fn lemma_environment_parts(
    bottom: Seq<Point<i64>>,
    top: Seq<Point<i64>>,
    left: Seq<Point<i64>>,
    right: Seq<Point<i64>>,
)
    requires
        lists_req(bottom, top, left, right),
        sides_req(bottom, top, left, right),
    ensures
        ({
            let e = distorted_environment_spec(bottom, top, left, right);
            &&& is_least_and_span(xs_of(bottom), e.bottom_x_min, e.bottom_x_delta)
            &&& is_least_and_span(xs_of(top), e.top_x_min, e.top_x_delta)
            &&& is_least_and_span(ys_of(left), e.left_y_min, e.left_y_delta)
            &&& is_least_and_span(ys_of(right), e.right_y_min, e.right_y_delta)
            &&& forall|m: i64, d: i64, v: int|
                #![trigger is_least_and_span(ys_of(bottom), m, d), horner(e.side_bottom, v)]
                is_least_and_span(ys_of(bottom), m, d) ==> horner(e.side_bottom, v)
                    == (horner(e.lagrange_bottom, v) - m) * d
            &&& forall|m: i64, d: i64, v: int|
                #![trigger is_least_and_span(ys_of(top), m, d), horner(e.side_top, v)]
                is_least_and_span(ys_of(top), m, d) ==> horner(e.side_top, v)
                    == (horner(e.lagrange_top, v) - m) * d + 1
            &&& forall|m: i64, d: i64, v: int|
                #![trigger is_least_and_span(xs_of(left), m, d), horner(e.side_left, v)]
                is_least_and_span(xs_of(left), m, d) ==> horner(e.side_left, v)
                    == (horner(e.lagrange_left, v) - m) * d
            &&& forall|m: i64, d: i64, v: int|
                #![trigger is_least_and_span(xs_of(right), m, d), horner(e.side_right, v)]
                is_least_and_span(xs_of(right), m, d) ==> horner(e.side_right, v)
                    == (horner(e.lagrange_left, v) - m) * d + 1
        }),
{
    let e = distorted_environment_spec(bottom, top, left, right);
    lemma_least_and_span(xs_of(bottom));
    lemma_least_and_span(ys_of(bottom));
    lemma_least_and_span(xs_of(top));
    lemma_least_and_span(ys_of(top));
    lemma_least_and_span(xs_of(left));
    lemma_least_and_span(ys_of(left));
    lemma_least_and_span(xs_of(right));
    lemma_least_and_span(ys_of(right));
    let (mb, mt, ml, mr) = (
        mins_and_deltas_spec(bottom),
        mins_and_deltas_spec(top),
        mins_and_deltas_spec(left),
        mins_and_deltas_spec(right),
    );
    assert forall|m: i64, d: i64, v: int|
        #![trigger is_least_and_span(ys_of(bottom), m, d), horner(e.side_bottom, v)]
        is_least_and_span(ys_of(bottom), m, d) implies horner(e.side_bottom, v)
            == (horner(e.lagrange_bottom, v) - m) * d by {
        lemma_side_value(e.lagrange_bottom, mb.2, mb.3, v);
    }
    assert forall|m: i64, d: i64, v: int|
        #![trigger is_least_and_span(ys_of(top), m, d), horner(e.side_top, v)]
        is_least_and_span(ys_of(top), m, d) implies horner(e.side_top, v)
            == (horner(e.lagrange_top, v) - m) * d + 1 by {
        lemma_lifted_side_value(e.lagrange_top, mt.2, mt.3, 1, v);
    }
    assert forall|m: i64, d: i64, v: int|
        #![trigger is_least_and_span(xs_of(left), m, d), horner(e.side_left, v)]
        is_least_and_span(xs_of(left), m, d) implies horner(e.side_left, v)
            == (horner(e.lagrange_left, v) - m) * d by {
        lemma_side_value(e.lagrange_left, ml.0, ml.1, v);
    }
    assert forall|m: i64, d: i64, v: int|
        #![trigger is_least_and_span(xs_of(right), m, d), horner(e.side_right, v)]
        is_least_and_span(xs_of(right), m, d) implies horner(e.side_right, v)
            == (horner(e.lagrange_left, v) - m) * d + 1 by {
        lemma_lifted_side_value(e.lagrange_left, mr.0, mr.1, 1, v);
    }
}

/// `(lagrange - min) * delta`.
fn make_side(lagrange: &Polynomial<i64>, min: i64, delta: i64) -> (r: Polynomial<i64>)
    requires
        side_fits(coeffs(*lagrange), min, delta),
    ensures
        coeffs(r) == side_coeffs(coeffs(*lagrange), min, delta),
{
    let m = vec![min];
    let d = vec![delta];
    assert(m@ =~= seq![min]);
    assert(d@ =~= seq![delta]);
    poly_mul(poly_sub(poly_clone(lagrange), poly_new(m)), poly_new(d))
}

/// The interpolation through `(xs[i], ys[i])`.
fn interpolate(xs: &Vec<i64>, ys: &Vec<i64>) -> (r: Polynomial<i64>)
    requires
        interpolation_req(xs@, ys@),
    ensures
        lagrange_coeffs(xs@, ys@) == Some(coeffs(r)),
        coeffs(r) == interpolation(xs@, ys@),
{
    poly_lagrange(xs.as_slice(), ys.as_slice()).expect("the x-coordinates of the points repeat")
}

/// Builds the distortion from four lists of points along the bottom, top, left
/// and right edges of the distorted frame.
pub fn get_distorted_environment(
    list_bottom: &Points<i64>,
    list_top: &Points<i64>,
    list_left: &Points<i64>,
    list_right: &Points<i64>,
) -> (r: Environment<i64>)
    requires
        lists_req(list_bottom@, list_top@, list_left@, list_right@),
        sides_req(list_bottom@, list_top@, list_left@, list_right@),
    ensures
        r@ == distorted_environment_spec(list_bottom@, list_top@, list_left@, list_right@),
        is_least_and_span(xs_of(list_bottom@), r@.bottom_x_min, r@.bottom_x_delta),
        is_least_and_span(xs_of(list_top@), r@.top_x_min, r@.top_x_delta),
        is_least_and_span(ys_of(list_left@), r@.left_y_min, r@.left_y_delta),
        is_least_and_span(ys_of(list_right@), r@.right_y_min, r@.right_y_delta),
        lagrange_coeffs(xs_of(list_bottom@), ys_of(list_bottom@)) == Some(r@.lagrange_bottom),
        lagrange_coeffs(xs_of(list_top@), ys_of(list_top@)) == Some(r@.lagrange_top),
        lagrange_coeffs(ys_of(list_left@), xs_of(list_left@)) == Some(r@.lagrange_left),
        lagrange_coeffs(ys_of(list_right@), xs_of(list_right@)) == Some(r@.lagrange_right),
{
    let (bottom_x_min, bottom_x_delta, bottom_y_min, bottom_y_delta) = get_mins_and_deltas(list_bottom);
    let (top_x_min, top_x_delta, top_y_min, top_y_delta) = get_mins_and_deltas(list_top);
    let (left_x_min, left_x_delta, left_y_min, left_y_delta) = get_mins_and_deltas(list_left);
    let (right_x_min, right_x_delta, right_y_min, right_y_delta) = get_mins_and_deltas(list_right);

    let lagrange_bottom = interpolate(&get_points_x_coord(list_bottom), &get_points_y_coord(list_bottom));
    let lagrange_top = interpolate(&get_points_x_coord(list_top), &get_points_y_coord(list_top));
    let lagrange_left = interpolate(&get_points_y_coord(list_left), &get_points_x_coord(list_left));
    let lagrange_right = interpolate(&get_points_y_coord(list_right), &get_points_x_coord(list_right));

    let env = assemble_environment(
        lagrange_bottom,
        lagrange_top,
        lagrange_left,
        lagrange_right,
        (bottom_x_min, bottom_x_delta, bottom_y_min, bottom_y_delta),
        (top_x_min, top_x_delta, top_y_min, top_y_delta),
        (left_x_min, left_x_delta, left_y_min, left_y_delta),
        (right_x_min, right_x_delta, right_y_min, right_y_delta),
    );
    proof {
        lemma_environment_parts(list_bottom@, list_top@, list_left@, list_right@);
    }
    env
}

/// Assembles the distortion from the interpolations of the four lists and
/// their measurements (smallest x, span of x, smallest y, span of y).
pub fn assemble_environment(
    lagrange_bottom: Polynomial<i64>,
    lagrange_top: Polynomial<i64>,
    lagrange_left: Polynomial<i64>,
    lagrange_right: Polynomial<i64>,
    bottom: Measures,
    top: Measures,
    left: Measures,
    right: Measures,
) -> (r: Environment<i64>)
    requires
        assembly_req(
            coeffs(lagrange_bottom),
            coeffs(lagrange_top),
            coeffs(lagrange_left),
            bottom,
            top,
            left,
            right,
        ),
    ensures
        r@ == assembled_spec(
            coeffs(lagrange_bottom),
            coeffs(lagrange_top),
            coeffs(lagrange_left),
            coeffs(lagrange_right),
            bottom,
            top,
            left,
            right,
        ),
{
    let (bottom_x_min, bottom_x_delta, bottom_y_min, bottom_y_delta) = bottom;
    let (top_x_min, top_x_delta, top_y_min, top_y_delta) = top;
    let (left_x_min, left_x_delta, left_y_min, left_y_delta) = left;
    let (right_x_min, right_x_delta, right_y_min, right_y_delta) = right;

    let side_bottom = make_side(&lagrange_bottom, bottom_y_min, bottom_y_delta);

    let one: i64 = 1;
    let lift_top = vec![one];
    assert(lift_top@ =~= seq![one]);
    let side_top = poly_add(make_side(&lagrange_top, top_y_min, top_y_delta), poly_new(lift_top));

    let side_left = make_side(&lagrange_left, left_x_min, left_x_delta);

    let half_of_three = (one + one + one) / (one + one);
    assert(half_of_three == 1);
    let lift_right = vec![half_of_three];
    assert(lift_right@ =~= seq![1i64]);
    let side_right = poly_add(make_side(&lagrange_left, right_x_min, right_x_delta), poly_new(lift_right));

    Environment {
        side_top,
        side_right,
        side_bottom,
        side_left,
        lagrange_top,
        lagrange_right,
        lagrange_bottom,
        lagrange_left,
        bottom_x_delta,
        bottom_x_min,
        top_x_delta,
        top_x_min,
        left_y_delta,
        left_y_min,
        right_y_delta,
        right_y_min,
    }
}

/// The coefficient of degree `i`, zero beyond the end.
fn coeff_at(a: &[i64], i: usize) -> (r: i128)
    ensures
        r == coeff(a@, i as int),
{
    if i < a.len() {
        a[i] as i128
    } else {
        0
    }
}

/// Whether each coefficient of `a - b` fits in `i64`.
fn check_sub(a: &[i64], b: &[i64]) -> (r: bool)
    ensures
        r == sub_fits(a@, b@),
{
    let n = if a.len() >= b.len() { a.len() } else { b.len() };
    let mut i: usize = 0;
    while i < n
        invariant
            n == max_len(a@, b@),
            i <= n,
            forall|j: int| 0 <= j < i ==> fits(#[trigger] coeff(a@, j) - coeff(b@, j)),
        decreases n - i,
    {
        if !in_range(coeff_at(a, i) - coeff_at(b, i)) {
            return false;
        }
        i = i + 1;
    }
    true
}

/// Whether each coefficient of `a + b` fits in `i64`.
fn check_add(a: &[i64], b: &[i64]) -> (r: bool)
    ensures
        r == add_fits(a@, b@),
{
    let n = if a.len() >= b.len() { a.len() } else { b.len() };
    let mut i: usize = 0;
    while i < n
        invariant
            n == max_len(a@, b@),
            i <= n,
            forall|j: int| 0 <= j < i ==> fits(#[trigger] coeff(a@, j) + coeff(b@, j)),
        decreases n - i,
    {
        if !in_range(coeff_at(a, i) + coeff_at(b, i)) {
            return false;
        }
        i = i + 1;
    }
    true
}

/// Whether `k` is constant and each coefficient of `a * k` fits in `i64`.
fn check_scale(a: &[i64], k: &[i64]) -> (r: bool)
    ensures
        r == scale_fits(a@, k@),
{
    if k.len() > 1 {
        return false;
    }
    let c = coeff_at(k, 0);
    let n = a.len();
    let mut i: usize = 0;
    while i < n
        invariant
            n == a@.len(),
            k@.len() <= 1,
            c == coeff(k@, 0),
            i <= n,
            forall|j: int| 0 <= j < i ==> fits(#[trigger] a@[j] * coeff(k@, 0)),
        decreases n - i,
    {
        let v = a[i] as i128;
        assert(-0x4000_0000_0000_0000_0000_0000_0000_0000 <= v * c <= 0x4000_0000_0000_0000_0000_0000_0000_0000) by (nonlinear_arith)
            requires -0x8000_0000_0000_0000 <= v < 0x8000_0000_0000_0000,
                -0x8000_0000_0000_0000 <= c < 0x8000_0000_0000_0000;
        if !in_range(v * c) {
            return false;
        }
        i = i + 1;
    }
    true
}

/// Whether `(lagrange - min) * delta` can be built without overflow.
fn check_side(lagrange: &Polynomial<i64>, min: i64, delta: i64) -> (r: bool)
    ensures
        r == side_fits(coeffs(*lagrange), min, delta),
{
    let m = vec![min];
    assert(m@ =~= seq![min]);
    let constant_min = poly_new(m);
    if !check_sub(poly_data(lagrange), poly_data(&constant_min)) {
        return false;
    }
    let difference = poly_sub(poly_clone(lagrange), constant_min);
    let d = vec![delta];
    assert(d@ =~= seq![delta]);
    let constant_delta = poly_new(d);
    check_scale(poly_data(&difference), poly_data(&constant_delta))
}

/// Whether `(lagrange - min) * delta + lift` can be built without overflow.
fn check_lifted_side(lagrange: &Polynomial<i64>, min: i64, delta: i64, lift: i64) -> (r: bool)
    ensures
        r == lifted_side_fits(coeffs(*lagrange), min, delta, lift),
{
    if !check_side(lagrange, min, delta) {
        return false;
    }
    let side = make_side(lagrange, min, delta);
    let l = vec![lift];
    assert(l@ =~= seq![lift]);
    let constant_lift = poly_new(l);
    check_add(poly_data(&side), poly_data(&constant_lift))
}

/// Builds the distortion as `get_distorted_environment` does where its sides
/// can be built without overflow, and gives `None` where they cannot.
pub fn try_get_distorted_environment(
    list_bottom: &Points<i64>,
    list_top: &Points<i64>,
    list_left: &Points<i64>,
    list_right: &Points<i64>,
) -> (r: Option<Environment<i64>>)
    requires
        lists_req(list_bottom@, list_top@, list_left@, list_right@),
    ensures
        r is Some <==> sides_req(list_bottom@, list_top@, list_left@, list_right@),
        r matches Some(e) ==> e@ == distorted_environment_spec(
            list_bottom@,
            list_top@,
            list_left@,
            list_right@,
        ),
{
    let (_, _, bottom_y_min, bottom_y_delta) = get_mins_and_deltas(list_bottom);
    let (_, _, top_y_min, top_y_delta) = get_mins_and_deltas(list_top);
    let (left_x_min, left_x_delta, _, _) = get_mins_and_deltas(list_left);
    let (right_x_min, right_x_delta, _, _) = get_mins_and_deltas(list_right);
    let lagrange_bottom = interpolate(&get_points_x_coord(list_bottom), &get_points_y_coord(list_bottom));
    let lagrange_top = interpolate(&get_points_x_coord(list_top), &get_points_y_coord(list_top));
    let lagrange_left = interpolate(&get_points_y_coord(list_left), &get_points_x_coord(list_left));
    if check_side(&lagrange_bottom, bottom_y_min, bottom_y_delta)
        && check_lifted_side(&lagrange_top, top_y_min, top_y_delta, 1)
        && check_side(&lagrange_left, left_x_min, left_x_delta)
        && check_lifted_side(&lagrange_left, right_x_min, right_x_delta, 1)
    {
        Some(get_distorted_environment(list_bottom, list_top, list_left, list_right))
    } else {
        None
    }
}

} // verus!
