use std::ops::{Add, Mul, Sub};
use vstd::prelude::*;
use vstd::std_specs::ops::{AddSpec, MulSpec, SubSpec};

verus! {

/// A point (or vector) of the plane.
#[derive(Clone, Copy)]
pub struct Point<T> where T: Copy {
    pub x: T,
    pub y: T,
}

/// A list of points.
pub type Points<T> = Vec<Point<T>>;

impl<T: Copy> Point<T> {
    /// The point `(x, y)`.
    pub fn new(x: T, y: T) -> (p: Point<T>)
        ensures
            p.x == x,
            p.y == y,
    {
        Point { x, y }
    }

    /// The coordinates as an array `[x, y]`.
    pub fn extract(self) -> (r: [T; 2])
        ensures
            r@ == seq![self.x, self.y],
    {
        [self.x, self.y]
    }
}

impl Point<i64> {
    /// The origin.
    pub fn zero() -> (p: Point<i64>)
        ensures
            p.x == 0,
            p.y == 0,
    {
        Point::new(0, 0)
    }

    /// Whether both coordinates are zero.
    pub fn is_zero(&self) -> (r: bool)
        ensures
            r == (self.x == 0 && self.y == 0),
    {
        self.x == 0 && self.y == 0
    }
}

impl<T: Copy + Add<T, Output = T>> Add for Point<T> {
    type Output = Point<T>;

    /// Coordinate-wise sum.
    fn add(self, rhs: Self) -> (r: Self::Output) {
        Point::new(self.x + rhs.x, self.y + rhs.y)
    }
}

impl<T: Copy + Add<T, Output = T>> vstd::std_specs::ops::AddSpecImpl for Point<T> {
    open spec fn obeys_add_spec() -> bool {
        T::obeys_add_spec()
    }

    open spec fn add_req(self, rhs: Self) -> bool {
        self.x.add_req(rhs.x) && self.y.add_req(rhs.y)
    }

    open spec fn add_spec(self, rhs: Self) -> Self::Output {
        Point { x: self.x.add_spec(rhs.x), y: self.y.add_spec(rhs.y) }
    }
}

impl<T: Copy + Sub<T, Output = T>> Sub for Point<T> {
    type Output = Point<T>;

    /// Coordinate-wise difference.
    fn sub(self, rhs: Self) -> (r: Self::Output) {
        Point::new(self.x - rhs.x, self.y - rhs.y)
    }
}

impl<T: Copy + Sub<T, Output = T>> vstd::std_specs::ops::SubSpecImpl for Point<T> {
    open spec fn obeys_sub_spec() -> bool {
        T::obeys_sub_spec()
    }

    open spec fn sub_req(self, rhs: Self) -> bool {
        self.x.sub_req(rhs.x) && self.y.sub_req(rhs.y)
    }

    open spec fn sub_spec(self, rhs: Self) -> Self::Output {
        Point { x: self.x.sub_spec(rhs.x), y: self.y.sub_spec(rhs.y) }
    }
}

impl<T: Copy + Mul<T, Output = T>> Mul<T> for Point<T> {
    type Output = Point<T>;

    /// Scaling by a scalar.
    fn mul(self, rhs: T) -> (r: Self::Output) {
        Point::new(self.x * rhs, self.y * rhs)
    }
}

impl<T: Copy + Mul<T, Output = T>> vstd::std_specs::ops::MulSpecImpl<T> for Point<T> {
    open spec fn obeys_mul_spec() -> bool {
        T::obeys_mul_spec()
    }

    open spec fn mul_req(self, rhs: T) -> bool {
        self.x.mul_req(rhs) && self.y.mul_req(rhs)
    }

    open spec fn mul_spec(self, rhs: T) -> Self::Output {
        Point { x: self.x.mul_spec(rhs), y: self.y.mul_spec(rhs) }
    }
}

/// Subtracting what was added gives the point back.
pub proof fn lemma_add_then_sub(p: Point<i64>, q: Point<i64>)
    requires
        p.add_req(q),
    ensures
        p.add_spec(q).sub_req(q),
        p.add_spec(q).sub_spec(q) == p,
{
}

/// A point less itself is the origin.
pub proof fn lemma_sub_self(p: Point<i64>)
    ensures
        p.sub_req(p),
        p.sub_spec(p) == (Point { x: 0i64, y: 0i64 }),
{
}

/// Adding the origin changes nothing.
pub proof fn lemma_add_zero(p: Point<i64>)
    ensures
        p.add_req(Point { x: 0i64, y: 0i64 }),
        p.add_spec(Point { x: 0i64, y: 0i64 }) == p,
{
}

/// Scaling by one changes nothing, scaling by zero gives the origin.
pub proof fn lemma_scale_one_zero(p: Point<i64>)
    ensures
        p.mul_req(1i64),
        p.mul_spec(1i64) == p,
        p.mul_req(0i64),
        p.mul_spec(0i64).x == 0 && p.mul_spec(0i64).y == 0,
{
}

} // verus!
