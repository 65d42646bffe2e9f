use crate::point::Point;
use std::ops::{Add, Div, Mul, Sub};
use crate::util::fits;
use vstd::prelude::*;
use vstd::std_specs::ops::{AddSpec, DivSpec, MulSpec, SubSpec};

verus! {

/// The 2x2 matrix `[[a b] [c d]]`.
#[derive(Clone, Copy)]
pub struct Matrix2x2<T> where T: Copy {
    pub a: T,
    pub b: T,
    pub c: T,
    pub d: T,
}

/// When the arithmetic of `T` follows its specification and `a * d - b * c`
/// stays in the range of `T`.
pub open spec fn det_req<T>(m: Matrix2x2<T>) -> bool
    where T: Copy + Sub<Output = T> + Mul<Output = T>
{
    &&& T::obeys_mul_spec()
    &&& T::obeys_sub_spec()
    &&& m.a.mul_req(m.d)
    &&& m.b.mul_req(m.c)
    &&& m.a.mul_spec(m.d).sub_req(m.b.mul_spec(m.c))
}

/// The determinant `a * d - b * c`.
pub open spec fn det_spec<T>(m: Matrix2x2<T>) -> T
    where T: Copy + Sub<Output = T> + Mul<Output = T>
{
    m.a.mul_spec(m.d).sub_spec(m.b.mul_spec(m.c))
}

/// When the arithmetic of `T` follows its specification and `x * y + z * w`
/// stays in the range of `T`.
pub open spec fn dot_req<T>(x: T, y: T, z: T, w: T) -> bool
    where T: Copy + Add<T, Output = T> + Mul<T, Output = T>
{
    &&& T::obeys_add_spec()
    &&& T::obeys_mul_spec()
    &&& x.mul_req(y)
    &&& z.mul_req(w)
    &&& x.mul_spec(y).add_req(z.mul_spec(w))
}

/// `x * y + z * w`.
pub open spec fn dot_spec<T>(x: T, y: T, z: T, w: T) -> T
    where T: Copy + Add<T, Output = T> + Mul<T, Output = T>
{
    x.mul_spec(y).add_spec(z.mul_spec(w))
}

impl<T: Copy> Matrix2x2<T> {
    /// The matrix `[[a b] [c d]]`.
    pub fn new(a: T, b: T, c: T, d: T) -> (m: Self)
        ensures
            m.a == a,
            m.b == b,
            m.c == c,
            m.d == d,
    {
        Self { a, b, c, d }
    }

    /// The entries, row by row.
    pub fn extract(&self) -> (r: [T; 4])
        ensures
            r@ == seq![self.a, self.b, self.c, self.d],
    {
        [self.a, self.b, self.c, self.d]
    }
}

impl<T: Copy + Sub<Output = T> + Mul<Output = T>> Matrix2x2<T> {
    /// The determinant `a * d - b * c`.
    pub fn det(&self) -> (r: T)
        requires
            det_req(*self),
        ensures
            r == det_spec(*self),
    {
        self.a * self.d - self.b * self.c
    }
}

impl<T: Copy + Add<T, Output = T>> Add for Matrix2x2<T> {
    type Output = Self;

    /// Entry-wise sum.
    fn add(self, other: Self) -> (r: Self) {
        Self::new(self.a + other.a, self.b + other.b, self.c + other.c, self.d + other.d)
    }
}

impl<T: Copy + Add<T, Output = T>> vstd::std_specs::ops::AddSpecImpl for Matrix2x2<T> {
    open spec fn obeys_add_spec() -> bool {
        T::obeys_add_spec()
    }

    open spec fn add_req(self, rhs: Self) -> bool {
        &&& self.a.add_req(rhs.a)
        &&& self.b.add_req(rhs.b)
        &&& self.c.add_req(rhs.c)
        &&& self.d.add_req(rhs.d)
    }

    open spec fn add_spec(self, rhs: Self) -> Self::Output {
        Matrix2x2 {
            a: self.a.add_spec(rhs.a),
            b: self.b.add_spec(rhs.b),
            c: self.c.add_spec(rhs.c),
            d: self.d.add_spec(rhs.d),
        }
    }
}

impl<T: Copy + Add<T, Output = T> + Mul<T, Output = T>> Mul for Matrix2x2<T> {
    type Output = Self;

    /// The product of `[[a b] [c d]]` and `[[e f] [g h]]`, as this library
    /// computes it: `[[(ae + bg) (af + bh)] [(ce + df) (cg + dh)]]`.
    fn mul(self, rhs: Self) -> (r: Self) {
        let a = self.a;
        let b = self.b;
        let c = self.c;
        let d = self.d;
        let e = rhs.a;
        let f = rhs.b;
        let g = rhs.c;
        let h = rhs.d;
        Self::new(a * e + b * g, a * f + b * h, c * e + d * f, c * g + d * h)
    }
}

impl<T: Copy + Add<T, Output = T> + Mul<T, Output = T>> vstd::std_specs::ops::MulSpecImpl for Matrix2x2<T> {
    open spec fn obeys_mul_spec() -> bool {
        T::obeys_add_spec() && T::obeys_mul_spec()
    }

    open spec fn mul_req(self, rhs: Self) -> bool {
        &&& dot_req(self.a, rhs.a, self.b, rhs.c)
        &&& dot_req(self.a, rhs.b, self.b, rhs.d)
        &&& dot_req(self.c, rhs.a, self.d, rhs.b)
        &&& dot_req(self.c, rhs.c, self.d, rhs.d)
    }

    open spec fn mul_spec(self, rhs: Self) -> Self::Output {
        Matrix2x2 {
            a: dot_spec(self.a, rhs.a, self.b, rhs.c),
            b: dot_spec(self.a, rhs.b, self.b, rhs.d),
            c: dot_spec(self.c, rhs.a, self.d, rhs.b),
            d: dot_spec(self.c, rhs.c, self.d, rhs.d),
        }
    }
}

impl<T: Copy + Add<T, Output = T> + Mul<T, Output = T>> Mul<Point<T>> for Matrix2x2<T> {
    type Output = Point<T>;

    /// The image of a point: `(a x + b y, c x + d y)`.
    fn mul(self, rhs: Point<T>) -> (r: Point<T>) {
        let a = self.a;
        let b = self.b;
        let c = self.c;
        let d = self.d;
        let x = rhs.x;
        let y = rhs.y;
        Point::new(a * x + b * y, c * x + d * y)
    }
}

impl<T: Copy + Add<T, Output = T> + Mul<T, Output = T>> vstd::std_specs::ops::MulSpecImpl<Point<T>> for Matrix2x2<T> {
    open spec fn obeys_mul_spec() -> bool {
        T::obeys_add_spec() && T::obeys_mul_spec()
    }

    open spec fn mul_req(self, rhs: Point<T>) -> bool {
        &&& dot_req(self.a, rhs.x, self.b, rhs.y)
        &&& dot_req(self.c, rhs.x, self.d, rhs.y)
    }

    open spec fn mul_spec(self, rhs: Point<T>) -> Self::Output {
        Point { x: dot_spec(self.a, rhs.x, self.b, rhs.y), y: dot_spec(self.c, rhs.x, self.d, rhs.y) }
    }
}


/// What `1 / det` gives in `i64`: `1` and `-1` are their own reciprocals,
/// and every other nonzero determinant truncates to `0`.
pub open spec fn recip(det: i64) -> i64 {
    if det == 1 {
        1
    } else if det == -1 {
        -1i64
    } else {
        0
    }
}

/// The determinant is defined and, where it is nonzero, so is each entry of
/// `[[d q] [-b q] [-c q] [a q]]` with `q = 1 / det`.
pub open spec fn invert_req(m: Matrix2x2<i64>) -> bool {
    &&& det_req(m)
    &&& det_spec(m) != 0 ==> {
        let q = recip(det_spec(m));
        &&& fits(m.d * q)
        &&& fits(-m.b)
        &&& fits(-m.b * q)
        &&& fits(-m.c)
        &&& fits(-m.c * q)
        &&& fits(m.a * q)
    }
}

/// `[[d q] [-b q] [-c q] [a q]]` with `q = 1 / det`.
pub open spec fn invert_spec(m: Matrix2x2<i64>) -> Matrix2x2<i64> {
    let q = recip(det_spec(m));
    Matrix2x2 {
        a: (m.d * q) as i64,
        b: (-m.b * q) as i64,
        c: (-m.c * q) as i64,
        d: (m.a * q) as i64,
    }
}

impl Matrix2x2<i64> {
    /// The inverse `[[d q] [-b q] [-c q] [a q]]` with `q = 1 / det`, or `None`
    /// where the determinant is zero.
    pub fn invert(self) -> (r: Option<Self>)
        requires
            invert_req(self),
        ensures
            r is None <==> det_spec(self) == 0,
            r matches Some(m) ==> m == invert_spec(self),
    {
        let det = self.det();
        if det == 0 {
            return None;
        }
        let one: i64 = 1;
        let q = one / det;
        proof {
            lemma_recip(det);
        }
        Some(Self::new(self.d * q, -self.b * q, -self.c * q, self.a * q))
    }

    /// The identity matrix `[[1 0] [0 1]]`.
    pub fn one() -> (m: Self)
        ensures
            m == (Matrix2x2 { a: 1i64, b: 0i64, c: 0i64, d: 1i64 }),
    {
        Self::new(1, 0, 0, 1)
    }

    /// The matrix of zeros.
    pub fn zero() -> (m: Self)
        ensures
            m == (Matrix2x2 { a: 0i64, b: 0i64, c: 0i64, d: 0i64 }),
    {
        Self::new(0, 0, 0, 0)
    }

    /// Whether the determinant is zero.
    pub fn is_zero(&self) -> (r: bool)
        requires
            det_req(*self),
        ensures
            r == (det_spec(*self) == 0),
    {
        self.det() == 0
    }
}

impl Div for Matrix2x2<i64> {
    type Output = Option<Matrix2x2<i64>>;

    /// `self` times the inverse of `rhs`, or `None` where `rhs` has determinant zero.
    fn div(self, rhs: Self) -> (r: Self::Output) {
        if let Some(div) = rhs.invert() {
            Some(self * div)
        } else {
            None
        }
    }
}

impl vstd::std_specs::ops::DivSpecImpl for Matrix2x2<i64> {
    open spec fn obeys_div_spec() -> bool {
        true
    }

    open spec fn div_req(self, rhs: Self) -> bool {
        &&& invert_req(rhs)
        &&& det_spec(rhs) != 0 ==> self.mul_req(invert_spec(rhs))
    }

    open spec fn div_spec(self, rhs: Self) -> Self::Output {
        if det_spec(rhs) == 0 {
            None
        } else {
            Some(self.mul_spec(invert_spec(rhs)))
        }
    }
}

/// With `s = a d - b c` and `s * s == 1`, the matrix `[[d s] [-b s] [-c s] [a s]]`
/// undoes `[[a b] [c d]]` on `(x, y)`, and the other way round.
pub(crate) proof fn lemma_cancel(a: int, b: int, c: int, d: int, x: int, y: int, s: int)
    requires
        s == a * d - b * c,
        s * s == 1,
    ensures
        (d * s) * (a * x + b * y) + (-b * s) * (c * x + d * y) == x,
        (-c * s) * (a * x + b * y) + (a * s) * (c * x + d * y) == y,
        a * ((d * s) * x + (-b * s) * y) + b * ((-c * s) * x + (a * s) * y) == x,
        c * ((d * s) * x + (-b * s) * y) + d * ((-c * s) * x + (a * s) * y) == y,
{
    let u = a * x + b * y;
    let v = c * x + d * y;
    assert(d * u - b * v == s * x) by (nonlinear_arith)
        requires s == a * d - b * c, u == a * x + b * y, v == c * x + d * y;
    assert(a * v - c * u == s * y) by (nonlinear_arith)
        requires s == a * d - b * c, u == a * x + b * y, v == c * x + d * y;
    assert((d * s) * u + (-b * s) * v == s * (d * u - b * v)) by (nonlinear_arith);
    assert((-c * s) * u + (a * s) * v == s * (a * v - c * u)) by (nonlinear_arith);
    assert(s * (s * x) == x) by (nonlinear_arith) requires s * s == 1;
    assert(s * (s * y) == y) by (nonlinear_arith) requires s * s == 1;
    let w1 = (d * s) * x + (-b * s) * y;
    let w2 = (-c * s) * x + (a * s) * y;
    assert(w1 == s * (d * x - b * y)) by (nonlinear_arith)
        requires w1 == (d * s) * x + (-b * s) * y;
    assert(w2 == s * (a * y - c * x)) by (nonlinear_arith)
        requires w2 == (-c * s) * x + (a * s) * y;
    assert(a * (d * x - b * y) + b * (a * y - c * x) == s * x) by (nonlinear_arith)
        requires s == a * d - b * c;
    assert(c * (d * x - b * y) + d * (a * y - c * x) == s * y) by (nonlinear_arith)
        requires s == a * d - b * c;
    assert(a * w1 + b * w2 == s * (a * (d * x - b * y) + b * (a * y - c * x))) by (nonlinear_arith)
        requires w1 == s * (d * x - b * y), w2 == s * (a * y - c * x);
    assert(c * w1 + d * w2 == s * (c * (d * x - b * y) + d * (a * y - c * x))) by (nonlinear_arith)
        requires w1 == s * (d * x - b * y), w2 == s * (a * y - c * x);
}

/// `1 / det` in `i64` is `recip(det)`.
proof fn lemma_recip(det: i64)
    requires
        det != 0,
    ensures
        (1int / (det as int)) as i64 == recip(det),
{
    if det >= 2 {
        vstd::arithmetic::div_mod::lemma_basic_div(1, det as int);
    } else if det <= -2 {
        let d = det as int;
        vstd::arithmetic::div_mod::lemma_fundamental_div_mod(1, d);
        let q = 1int / d;
        let r = 1int % d;
        assert(q == 0) by (nonlinear_arith)
            requires 1 == d * q + r, 0 <= r, r < -d, d <= -2;
    }
}

/// The inverse of a matrix of determinant `1` or `-1` undoes it on every point,
/// in both orders.
pub proof fn lemma_invert_undoes(m: Matrix2x2<i64>, p: Point<i64>)
    requires
        invert_req(m),
        det_spec(m) == 1 || det_spec(m) == -1,
        m.mul_req(p),
        invert_spec(m).mul_req(m.mul_spec(p)),
        invert_spec(m).mul_req(p),
        m.mul_req(invert_spec(m).mul_spec(p)),
    ensures
        invert_spec(m).mul_spec(m.mul_spec(p)) == p,
        m.mul_spec(invert_spec(m).mul_spec(p)) == p,
{
    let (a, b, c, d, x, y) = (m.a as int, m.b as int, m.c as int, m.d as int, p.x as int, p.y as int);
    let s = det_spec(m) as int;
    assert(recip(det_spec(m)) == s);
    lemma_cancel(a, b, c, d, x, y, s);
}

/// The identity matrix has determinant one and fixes every point.
pub proof fn lemma_one_fixes(p: Point<i64>)
    ensures
        det_req(Matrix2x2 { a: 1i64, b: 0i64, c: 0i64, d: 1i64 }),
        det_spec(Matrix2x2 { a: 1i64, b: 0i64, c: 0i64, d: 1i64 }) == 1,
        (Matrix2x2 { a: 1i64, b: 0i64, c: 0i64, d: 1i64 }).mul_req(p),
        (Matrix2x2 { a: 1i64, b: 0i64, c: 0i64, d: 1i64 }).mul_spec(p) == p,
{
}


/// The sum of matrices is taken entry by entry, so it does not depend on the
/// order, and adding the zero matrix changes nothing.
pub proof fn lemma_add_commutes(m: Matrix2x2<i64>, n: Matrix2x2<i64>)
    requires
        m.add_req(n),
    ensures
        n.add_req(m),
        m.add_spec(n) == n.add_spec(m),
        m.add_req(Matrix2x2 { a: 0i64, b: 0i64, c: 0i64, d: 0i64 }),
        m.add_spec(Matrix2x2 { a: 0i64, b: 0i64, c: 0i64, d: 0i64 }) == m,
{
}

/// Swapping the rows negates the determinant; transposing keeps it.
pub proof fn lemma_det_swap_transpose(m: Matrix2x2<i64>)
    requires
        det_req(m),
        det_spec(m) != i64::MIN,
    ensures
        det_req(Matrix2x2 { a: m.c, b: m.d, c: m.a, d: m.b }),
        det_spec(Matrix2x2 { a: m.c, b: m.d, c: m.a, d: m.b }) == -det_spec(m),
        det_req(Matrix2x2 { a: m.a, b: m.c, c: m.b, d: m.d }),
        det_spec(Matrix2x2 { a: m.a, b: m.c, c: m.b, d: m.d }) == det_spec(m),
{
    assert(m.c * m.b == m.b * m.c) by (nonlinear_arith);
    assert(m.d * m.a == m.a * m.d) by (nonlinear_arith);
}

/// The image of a sum of points is the sum of the images, and the image of
/// a scaled point is the scaled image.
pub proof fn lemma_apply_linear(m: Matrix2x2<i64>, p: Point<i64>, q: Point<i64>, k: i64)
    requires
        p.add_req(q),
        m.mul_req(p),
        m.mul_req(q),
        m.mul_req(p.add_spec(q)),
        m.mul_spec(p).add_req(m.mul_spec(q)),
        p.mul_req(k),
        m.mul_req(p.mul_spec(k)),
        m.mul_spec(p).mul_req(k),
    ensures
        m.mul_spec(p.add_spec(q)) == m.mul_spec(p).add_spec(m.mul_spec(q)),
        m.mul_spec(p.mul_spec(k)) == m.mul_spec(p).mul_spec(k),
{
    let (a, b, c, d) = (m.a as int, m.b as int, m.c as int, m.d as int);
    let (x1, y1, x2, y2) = (p.x as int, p.y as int, q.x as int, q.y as int);
    let kk = k as int;
    assert(a * (x1 + x2) + b * (y1 + y2) == (a * x1 + b * y1) + (a * x2 + b * y2)) by (nonlinear_arith);
    assert(c * (x1 + x2) + d * (y1 + y2) == (c * x1 + d * y1) + (c * x2 + d * y2)) by (nonlinear_arith);
    assert(a * (x1 * kk) + b * (y1 * kk) == (a * x1 + b * y1) * kk) by (nonlinear_arith);
    assert(c * (x1 * kk) + d * (y1 * kk) == (c * x1 + d * y1) * kk) by (nonlinear_arith);
}

} // verus!
