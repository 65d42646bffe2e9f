//! Runtime tests of the conditions under which the operations of an
//! environment stay within `i64`, so that callers can meet them.
use crate::environment::{
    affine_fits, apply_req, axis_req, from_distorted_req, from_distorted_spec,
    get_points_x_coord, get_points_y_coord, get_transformation_matrix_from_points,
    interpolation_req, iterate, lemma_view_fields, lists_req, mins_and_deltas_req, round_req,
    rounds, rows, seq_max, seq_min, solve_req, solve_y, to_distorted_req, to_distorted_spec,
    Environment,
};
use crate::matrix::{det_req, dot_req, invert_req, recip, Matrix2x2};
use crate::point::{Point, Points};
use crate::poly::{
    abs, coeffs, eval_fits, growth, horner, lagrange_fits, paired, poly_data, repeated_x, spread, weight,
};
use crate::util::{fits, in_range, lerp_req, unlerp_req};
use polynomial::Polynomial;
use vstd::std_specs::ops::{DivSpec, MulSpec};
use vstd::prelude::*;

verus! {

/// Whether evaluating the polynomial at `x` stays within `i64`.
fn eval_checks(p: &Polynomial<i64>, x: i64) -> (r: bool)
    ensures
        r == eval_fits(coeffs(*p), x as int),
{
    let c = poly_data(p);
    let n = c.len();
    let mut k = n;
    let mut acc: i128 = 0;
    while k > 0
        invariant
            c@ == coeffs(*p),
            n == c@.len(),
            k <= n,
            acc == horner(c@.subrange(k as int, n as int), x as int),
            fits(acc as int),
            forall|j: int|
                k <= j < n ==> {
                    &&& fits(#[trigger] horner(c@.subrange(j + 1, n as int), x as int) * x)
                    &&& fits(c@[j] + horner(c@.subrange(j + 1, n as int), x as int) * x)
                },
        decreases k,
    {
        let ghost j = k - 1;
        assert(c@.subrange(j, n as int).drop_first() =~= c@.subrange(k as int, n as int));
        assert(-0x4000_0000_0000_0000_0000_0000_0000_0000 <= acc * (x as i128)
            <= 0x4000_0000_0000_0000_0000_0000_0000_0000) by (nonlinear_arith)
            requires
                -0x8000_0000_0000_0000 <= acc < 0x8000_0000_0000_0000,
                -0x8000_0000_0000_0000 <= x < 0x8000_0000_0000_0000;
        let product = acc * (x as i128);
        assert(c@.subrange(j + 1, n as int) == c@.subrange(k as int, n as int));
        if !in_range(product) {
            assert(!fits(horner(c@.subrange(j + 1, n as int), x as int) * x));
            return false;
        }
        let sum = c[k - 1] as i128 + product;
        if !in_range(sum) {
            assert(!fits(c@[j] + horner(c@.subrange(j + 1, n as int), x as int) * x));
            return false;
        }
        acc = sum;
        k = k - 1;
    }
    true
}

/// Whether `v * delta + min` fits in `i64`.
fn affine_checks(v: i64, delta: i64, min: i64) -> (r: bool)
    ensures
        r == affine_fits(v, delta, min),
{
    assert(-0x4000_0000_0000_0000_0000_0000_0000_0000 <= (v as i128) * (delta as i128)
        <= 0x4000_0000_0000_0000_0000_0000_0000_0000) by (nonlinear_arith)
        requires
            -0x8000_0000_0000_0000 <= v < 0x8000_0000_0000_0000,
            -0x8000_0000_0000_0000 <= delta < 0x8000_0000_0000_0000;
    let product = (v as i128) * (delta as i128);
    in_range(product) && in_range(product + min as i128)
}

/// Whether `(c - a) / (b - a)` stays within `i64`.
fn unlerp_checks(a: i64, b: i64, c: i64) -> (r: bool)
    ensures
        r == unlerp_req(a, b, c),
{
    let numerator = c as i128 - a as i128;
    let denominator = b as i128 - a as i128;
    in_range(numerator) && in_range(denominator) && denominator != 0 && !(numerator
        == i64::MIN as i128 && denominator == -1)
}

/// Whether `a + (b - a) * t` stays within `i64`.
fn lerp_checks(a: i64, b: i64, t: i64) -> (r: bool)
    ensures
        r == lerp_req(a, b, t),
{
    let difference = b as i128 - a as i128;
    if !in_range(difference) {
        return false;
    }
    assert(-0x4000_0000_0000_0000_0000_0000_0000_0000 <= difference * (t as i128)
        <= 0x4000_0000_0000_0000_0000_0000_0000_0000) by (nonlinear_arith)
        requires
            -0x8000_0000_0000_0000 <= difference < 0x8000_0000_0000_0000,
            -0x8000_0000_0000_0000 <= t < 0x8000_0000_0000_0000;
    let product = difference * (t as i128);
    in_range(product) && in_range(a as i128 + product)
}

/// Whether interpolating along one axis stays within `i64`.
fn axis_checks(
    near: &Polynomial<i64>, near_delta: i64, near_min: i64,
    far: &Polynomial<i64>, far_delta: i64, far_min: i64,
    lagrange_near: &Polynomial<i64>, lagrange_far: &Polynomial<i64>,
    s: i64, u: i64,
) -> (r: bool)
    ensures
        r == axis_req(
            coeffs(*near), near_delta, near_min,
            coeffs(*far), far_delta, far_min,
            coeffs(*lagrange_near), coeffs(*lagrange_far), s, u,
        ),
{
    if !affine_checks(s, near_delta, near_min) || !affine_checks(s, far_delta, far_min) {
        return false;
    }
    let near_at = s * near_delta + near_min;
    let far_at = s * far_delta + far_min;
    if !eval_checks(near, near_at) || !eval_checks(far, far_at) || !eval_checks(lagrange_near, s)
        || !eval_checks(lagrange_far, s)
    {
        return false;
    }
    let a = crate::poly::poly_eval(near, near_at);
    let b = crate::poly::poly_eval(far, far_at);
    let from = crate::poly::poly_eval(lagrange_near, s);
    let to = crate::poly::poly_eval(lagrange_far, s);
    if !unlerp_checks(from, to, u) {
        return false;
    }
    let t = crate::util::unlerp(from, to, u);
    lerp_checks(a, b, t)
}


/// Whether `x * y` lies in the range of `i64`, with the product itself.
fn product(x: i64, y: i64) -> (r: i128)
    ensures
        r == x * y,
{
    assert(-0x4000_0000_0000_0000_0000_0000_0000_0000 <= (x as i128) * (y as i128)
        <= 0x4000_0000_0000_0000_0000_0000_0000_0000) by (nonlinear_arith)
        requires
            -0x8000_0000_0000_0000 <= x < 0x8000_0000_0000_0000,
            -0x8000_0000_0000_0000 <= y < 0x8000_0000_0000_0000;
    (x as i128) * (y as i128)
}

/// Whether the determinant can be computed in `i64`.
fn det_checks(m: Matrix2x2<i64>) -> (r: bool)
    ensures
        r == det_req(m),
{
    let ad = product(m.a, m.d);
    let bc = product(m.b, m.c);
    in_range(ad) && in_range(bc) && in_range(ad - bc)
}

/// Whether `x / d` is defined in `i64`.
fn div_checks(x: i64, d: i64) -> (r: bool)
    ensures
        r == x.div_req(d),
{
    d != 0 && !(x == i64::MIN && d == -1)
}

/// Whether solving `a = ma x + mb y`, `b = mc x + md y` stays within `i64`.
fn solve_checks(m: Matrix2x2<i64>, a: i64, b: i64) -> (r: bool)
    ensures
        r == solve_req(m, a, b),
{
    if !det_checks(m) {
        return false;
    }
    let det = m.det();
    if det == 0 {
        return true;
    }
    if m.a == 0 {
        if !div_checks(a, m.b) {
            return false;
        }
        let y = a / m.b;
        let t = product(m.d, y);
        if !in_range(t) {
            return false;
        }
        let u = b as i128 - t;
        if !in_range(u) {
            return false;
        }
        div_checks(u as i64, m.c)
    } else {
        let p1 = product(m.a, b);
        let p2 = product(m.c, a);
        if !in_range(p1) || !in_range(p2) || !in_range(p1 - p2) {
            return false;
        }
        let numerator = (p1 - p2) as i64;
        if !div_checks(numerator, det) {
            return false;
        }
        let y = numerator / det;
        assert(y == solve_y(m, a, b));
        let t = product(m.b, y);
        if !in_range(t) {
            return false;
        }
        let u = a as i128 - t;
        if !in_range(u) {
            return false;
        }
        div_checks(u as i64, m.a)
    }
}

/// Whether the inverse can be computed in `i64`.
fn invert_checks(m: Matrix2x2<i64>) -> (r: bool)
    ensures
        r == invert_req(m),
{
    if !det_checks(m) {
        return false;
    }
    let det = m.det();
    if det == 0 {
        return true;
    }
    let q: i64 = if det == 1 {
        1
    } else if det == -1 {
        -1
    } else {
        0
    };
    assert(q == recip(det));
    let minus_b = -(m.b as i128);
    let minus_c = -(m.c as i128);
    if !in_range(minus_b) || !in_range(minus_c) {
        return false;
    }
    in_range(product(m.d, q)) && in_range(product(minus_b as i64, q)) && in_range(
        product(minus_c as i64, q),
    ) && in_range(product(m.a, q))
}

/// Whether `x * y + z * w` stays within `i64`.
fn dot_checks(x: i64, y: i64, z: i64, w: i64) -> (r: bool)
    ensures
        r == dot_req(x, y, z, w),
{
    let xy = product(x, y);
    let zw = product(z, w);
    in_range(xy) && in_range(zw) && in_range(xy + zw)
}

/// Whether `m p` stays within `i64`.
fn apply_checks(m: Matrix2x2<i64>, p: Point<i64>) -> (r: bool)
    ensures
        r == apply_req(m, p),
{
    dot_checks(m.a, p.x, m.b, p.y) && dot_checks(m.c, p.x, m.d, p.y)
}

/// Whether one round of the fixed-point iteration can be taken.
fn round_checks(p: Point<i64>, q: Point<i64>, px: Point<i64>, pz: Point<i64>) -> (r: bool)
    ensures
        r == round_req(p, q, px, pz),
{
    let m = Matrix2x2::new(p.x, p.y, q.x, q.y);
    assert(m == rows(p, q));
    if !solve_checks(m, px.x, pz.x) || !solve_checks(m, px.y, pz.y) {
        return false;
    }
    if m.det() == 0 {
        return false;
    }
    let t = get_transformation_matrix_from_points(p, px, q, pz);
    if !invert_checks(t) {
        return false;
    }
    if t.det() == 0 {
        return false;
    }
    let inverse = t.invert().unwrap();
    apply_checks(inverse, p) && apply_checks(inverse, q)
}

/// The least and the greatest value of a nonempty sequence.
fn min_max(s: &Vec<i64>) -> (r: (i64, i64))
    requires
        s@.len() > 0,
    ensures
        r == (seq_min(s@), seq_max(s@)),
{
    let mut lo = s[0];
    let mut hi = s[0];
    let n = s.len();
    for i in 1..n
        invariant
            n == s@.len(),
            lo == seq_min(s@.take(i as int)),
            hi == seq_max(s@.take(i as int)),
    {
        assert(s@.take(i + 1).drop_last() == s@.take(i as int));
        if !(lo < s[i]) {
            lo = s[i];
        }
        if !(hi > s[i]) {
            hi = s[i];
        }
    }
    assert(s@.take(n as int) == s@);
    (lo, hi)
}

/// Whether the list is nonempty and its spans in x and in y fit in `i64`.
fn mins_and_deltas_checks(list: &Points<i64>) -> (r: bool)
    ensures
        r == mins_and_deltas_req(list@),
{
    if list.len() == 0 {
        return false;
    }
    let xs = get_points_x_coord(list);
    let ys = get_points_y_coord(list);
    let (x_lo, x_hi) = min_max(&xs);
    let (y_lo, y_hi) = min_max(&ys);
    in_range(x_hi as i128 - x_lo as i128) && in_range(y_hi as i128 - y_lo as i128)
}

/// The products that bound the interpolation grow with each factor and are
/// at least one.
proof fn lemma_products_grow(xs: Seq<i64>, i: int, k1: int, k2: int)
    requires
        0 <= i < xs.len(),
        0 <= k1 <= k2 <= xs.len(),
    ensures
        1 <= growth(xs, i, k1) <= growth(xs, i, k2),
        1 <= spread(xs, i, k1) <= spread(xs, i, k2),
    decreases k2,
{
    if k1 < k2 {
        lemma_products_grow(xs, i, k1, k2 - 1);
        let g = growth(xs, i, k2 - 1);
        let f = 1 + abs(xs[k2 - 1] as int);
        assert(g <= g * f) by (nonlinear_arith) requires g >= 1, f >= 1;
        let sp = spread(xs, i, k2 - 1);
        let d = abs(xs[i] - xs[k2 - 1]);
        if d > 1 {
            assert(sp <= sp * d) by (nonlinear_arith) requires sp >= 1, d > 1;
        }
    } else if k1 > 0 {
        lemma_products_grow(xs, i, k1 - 1, k1 - 1);
        let g = growth(xs, i, k1 - 1);
        let f = 1 + abs(xs[k1 - 1] as int);
        assert(1 <= g * f) by (nonlinear_arith) requires g >= 1, f >= 1;
        let sp = spread(xs, i, k1 - 1);
        let d = abs(xs[i] - xs[k1 - 1]);
        if d > 1 {
            assert(1 <= sp * d) by (nonlinear_arith) requires sp >= 1, d > 1;
        }
    }
}

/// Each term of the weight is at least one, so the weight grows with the
/// number of terms.
proof fn lemma_weight_grows(xs: Seq<i64>, ys: Seq<i64>, k1: int, k2: int)
    requires
        0 <= k1 <= k2 <= paired(xs, ys),
    ensures
        weight(xs, ys, k1) + (k2 - k1) <= weight(xs, ys, k2),
    decreases k2,
{
    if k1 < k2 {
        lemma_weight_grows(xs, ys, k1, k2 - 1);
        lemma_products_grow(xs, k2 - 1, 0, xs.len() as int);
        let g = growth(xs, k2 - 1, xs.len() as int);
        let f = 1 + abs(ys[k2 - 1] as int);
        assert(1 <= g * f) by (nonlinear_arith) requires g >= 1, f >= 1;
    }
}

/// `|v|` for an `i64`.
fn abs_of(v: i64) -> (r: i128)
    ensures
        r == abs(v as int),
        0 <= r <= 0x8000_0000_0000_0000,
{
    if v < 0 {
        -(v as i128)
    } else {
        v as i128
    }
}

/// `growth(xs, i, n)` where it fits in `i64`.
fn growth_of(xs: &Vec<i64>, i: usize) -> (r: Option<i128>)
    requires
        i < xs@.len(),
    ensures
        r is Some <==> growth(xs@, i as int, xs@.len() as int) <= i64::MAX,
        r matches Some(g) ==> g == growth(xs@, i as int, xs@.len() as int),
{
    let n = xs.len();
    let mut acc: i128 = 1;
    let mut k: usize = 0;
    while k < n
        invariant
            n == xs@.len(),
            i < n,
            k <= n,
            acc == growth(xs@, i as int, k as int),
            1 <= acc <= i64::MAX,
        decreases n - k,
    {
        if k != i {
            let f = 1 + abs_of(xs[k]);
            assert(acc * f <= 0x4000_0000_0000_0000_4000_0000_0000_0000) by (nonlinear_arith)
                requires 1 <= acc <= 0x7fff_ffff_ffff_ffff, 1 <= f <= 0x8000_0000_0000_0001;
            acc = acc * f;
        }
        proof {
            lemma_products_grow(xs@, i as int, (k + 1) as int, n as int);
        }
        if acc > i64::MAX as i128 {
            return None;
        }
        k = k + 1;
    }
    Some(acc)
}

/// Whether `spread(xs, i, n)` fits in `i64`.
fn spread_checks(xs: &Vec<i64>, i: usize) -> (r: bool)
    requires
        i < xs@.len(),
    ensures
        r == (spread(xs@, i as int, xs@.len() as int) <= i64::MAX),
{
    let n = xs.len();
    let mut acc: i128 = 1;
    let mut k: usize = 0;
    while k < n
        invariant
            n == xs@.len(),
            i < n,
            k <= n,
            acc == spread(xs@, i as int, k as int),
            1 <= acc <= i64::MAX,
        decreases n - k,
    {
        let d = abs_of_difference(xs[i], xs[k]);
        if d > 1 {
            assert(acc * d <= 0x7fff_ffff_ffff_ffff_0000_0000_0000_0000) by (nonlinear_arith)
                requires 1 <= acc <= 0x7fff_ffff_ffff_ffff, 1 <= d <= 0x1_0000_0000_0000_0000;
            acc = acc * d;
        }
        proof {
            lemma_products_grow(xs@, i as int, (k + 1) as int, n as int);
        }
        if acc > i64::MAX as i128 {
            return false;
        }
        k = k + 1;
    }
    true
}

/// `|a - b|` for two `i64`.
fn abs_of_difference(a: i64, b: i64) -> (r: i128)
    ensures
        r == abs(a - b),
        0 <= r <= 0x1_0000_0000_0000_0000,
{
    let d = a as i128 - b as i128;
    if d < 0 {
        -d
    } else {
        d
    }
}

/// Whether the bound of `lagrange_fits` holds.
fn lagrange_checks(xs: &Vec<i64>, ys: &Vec<i64>) -> (r: bool)
    ensures
        r == lagrange_fits(xs@, ys@),
{
    let n = xs.len();
    if n >= 0x7fff_ffff {
        return false;
    }
    let m = if ys.len() < n { ys.len() } else { n };
    assert(m == paired(xs@, ys@));
    let mut i: usize = 0;
    while i < m
        invariant
            n == xs@.len(),
            m == paired(xs@, ys@),
            m <= n,
            i <= m,
            forall|j: int| 0 <= j < i ==> #[trigger] spread(xs@, j, n as int) <= i64::MAX,
        decreases m - i,
    {
        if !spread_checks(xs, i) {
            return false;
        }
        i = i + 1;
    }
    let mut acc: i128 = 0;
    let mut i: usize = 0;
    while i < m
        invariant
            n == xs@.len(),
            m == paired(xs@, ys@),
            m <= n,
            m <= ys@.len(),
            i <= m,
            acc == weight(xs@, ys@, i as int),
            0 <= acc <= i64::MAX,
        decreases m - i,
    {
        proof {
            lemma_weight_grows(xs@, ys@, (i + 1) as int, m as int);
        }
        let g = match growth_of(xs, i) {
            Some(g) => g,
            None => {
                proof {
                    lemma_products_grow(xs@, i as int, 0, n as int);
                    let f = 1 + abs(ys@[i as int] as int);
                    let gg = growth(xs@, i as int, n as int);
                    assert(gg <= gg * f) by (nonlinear_arith) requires gg >= 1, f >= 1;
                }
                return false;
            },
        };
        proof {
            lemma_products_grow(xs@, i as int, 0, n as int);
        }
        let f = 1 + abs_of(ys[i]);
        assert(g * f <= 0x4000_0000_0000_0000_4000_0000_0000_0000) by (nonlinear_arith)
            requires 1 <= g <= 0x7fff_ffff_ffff_ffff, 1 <= f <= 0x8000_0000_0000_0001;
        let term = g * f;
        if term > i64::MAX as i128 {
            return false;
        }
        acc = acc + term;
        if acc > i64::MAX as i128 {
            return false;
        }
    i = i + 1;
    }
    true
}

/// Whether an x-coordinate that is paired with a y-coordinate occurs twice.
fn repeated_checks(xs: &Vec<i64>, ys: &Vec<i64>) -> (r: bool)
    ensures
        r == repeated_x(xs@, ys@.len()),
{
    let n = xs.len();
    let m = if ys.len() < n { ys.len() } else { n };
    for i in 0..m
        invariant
            n == xs@.len(),
            m <= n,
            m <= ys@.len(),
            m == n || m == ys@.len(),
            forall|a: int, b: int|
                0 <= a < i && 0 <= b < n && a != b ==> xs@[a] != xs@[b],
    {
        for j in 0..n
            invariant
                n == xs@.len(),
                i < m,
                m <= n,
                m <= ys@.len(),
                forall|a: int, b: int|
                    0 <= a < i && 0 <= b < n && a != b ==> xs@[a] != xs@[b],
                forall|b: int| 0 <= b < j && i != b ==> xs@[i as int] != xs@[b],
        {
            if i != j && xs[i] == xs[j] {
                assert(xs@[i as int] == xs@[j as int]);
                assert(0 <= i < xs@.len() && i < ys@.len() && 0 <= j < xs@.len() && i != j);
                return true;
            }
        }
    }
    assert forall|a: int, b: int|
        0 <= a < xs@.len() && a < ys@.len() && 0 <= b < xs@.len() && a != b
        implies !(#[trigger] xs@[a] == #[trigger] xs@[b]) by {
        assert(a < m);
    }
    false
}

/// Whether the interpolation through `(xs[i], ys[i])` can be built.
fn interpolation_checks(xs: &Vec<i64>, ys: &Vec<i64>) -> (r: bool)
    ensures
        r == interpolation_req(xs@, ys@),
{
    lagrange_checks(xs, ys) && !repeated_checks(xs, ys)
}

/// Whether the four lists can be measured and interpolated, as
/// `try_get_distorted_environment` needs.
pub fn lists_acceptable(
    list_bottom: &Points<i64>,
    list_top: &Points<i64>,
    list_left: &Points<i64>,
    list_right: &Points<i64>,
) -> (r: bool)
    ensures
        r == lists_req(list_bottom@, list_top@, list_left@, list_right@),
{
    mins_and_deltas_checks(list_bottom) && mins_and_deltas_checks(list_top)
        && mins_and_deltas_checks(list_left) && mins_and_deltas_checks(list_right)
        && interpolation_checks(&get_points_x_coord(list_bottom), &get_points_y_coord(list_bottom))
        && interpolation_checks(&get_points_x_coord(list_top), &get_points_y_coord(list_top))
        && interpolation_checks(&get_points_y_coord(list_left), &get_points_x_coord(list_left))
        && interpolation_checks(&get_points_y_coord(list_right), &get_points_x_coord(list_right))
}

impl Environment<i64> {
    /// Maps `(x, y)` out of the distortion as `from_distorted` does where no
    /// step overflows or divides by zero, and gives `None` elsewhere.
    pub fn checked_from_distorted(&self, x: i64, y: i64) -> (r: Option<Point<i64>>)
        ensures
            r is Some <==> from_distorted_req(self@, x, y),
            r matches Some(p) ==> p == from_distorted_spec(self@, x, y),
    {
        proof {
            lemma_view_fields(self);
        }
        if axis_checks(
            &self.side_left, self.left_y_delta, self.left_y_min,
            &self.side_right, self.right_y_delta, self.right_y_min,
            &self.lagrange_left, &self.lagrange_right, y, x,
        ) && axis_checks(
            &self.side_bottom, self.bottom_x_delta, self.bottom_x_min,
            &self.side_top, self.top_x_delta, self.top_x_min,
            &self.lagrange_bottom, &self.lagrange_top, x, y,
        ) {
            Some(self.from_distorted(x, y))
        } else {
            None
        }
    }

    /// Maps `p_p` into the distortion as `to_distorted` does where every step
    /// stays within `i64`, and gives `None` elsewhere.
    pub fn checked_to_distorted(&self, p_p: Point<i64>, p_q: Point<i64>, iters: Option<u32>) -> (r: Option<Point<i64>>)
        ensures
            r is Some <==> to_distorted_req(self@, p_p, p_q, iters),
            r matches Some(v) ==> v == to_distorted_spec(self@, p_p, p_q, iters),
    {
        let start_x = match self.checked_from_distorted(p_p.x, p_p.y) {
            Some(v) => v,
            None => return None,
        };
        let start_z = match self.checked_from_distorted(p_q.x, p_q.y) {
            Some(v) => v,
            None => return None,
        };
        let n: u32 = match iters {
            Some(k) => k,
            None => 10,
        };
        let ghost total = rounds(iters);
        let mut p_x = start_x;
        let mut p_z = start_z;
        let mut i: u32 = 1;
        while i < n
            invariant
                total == rounds(iters),
                start_x == from_distorted_spec(self@, p_p.x, p_p.y),
                start_z == from_distorted_spec(self@, p_q.x, p_q.y),
                total == (if n >= 1 { (n - 1) as nat } else { 0nat }),
                1 <= i,
                i - 1 <= total,
                iterate(p_p, p_q, p_x, p_z, (total - (i - 1)) as nat) == iterate(
                    p_p,
                    p_q,
                    start_x,
                    start_z,
                    total,
                ),
            decreases n - i,
        {
            if !round_checks(p_p, p_q, p_x, p_z) {
                assert(total - (i - 1) > 0);
                assert(iterate(p_p, p_q, p_x, p_z, (total - (i - 1)) as nat) is None);
                return None;
            }
            let a = get_transformation_matrix_from_points(p_p, p_x, p_q, p_z).invert().unwrap();
            p_x = a * p_p;
            p_z = a * p_q;
            i = i + 1;
        }
        Some(self.to_distorted(p_p, p_q, iters))
    }
}

} // verus!
