use std::ops::{Add, Div, Mul, Sub};
use vstd::prelude::*;
use vstd::std_specs::ops::{AddSpec, DivSpec, MulSpec, SubSpec};

verus! {

/// `v` lies in the range of `i64`.
pub open spec fn fits(v: int) -> bool {
    i64::MIN <= v <= i64::MAX
}

/// Whether `v` lies in the range of `i64`.
pub(crate) fn in_range(v: i128) -> (r: bool)
    ensures
        r == fits(v as int),
{
    i64::MIN as i128 <= v && v <= i64::MAX as i128
}

/// When the arithmetic of `T` follows its specification and no step of
/// `a + (b - a) * t` leaves the range of `T`.
pub open spec fn lerp_req<T>(a: T, b: T, t: T) -> bool
    where T: Copy + Add<T, Output = T> + Sub<T, Output = T> + Mul<T, Output = T>
{
    &&& T::obeys_add_spec()
    &&& T::obeys_sub_spec()
    &&& T::obeys_mul_spec()
    &&& b.sub_req(a)
    &&& b.sub_spec(a).mul_req(t)
    &&& a.add_req(b.sub_spec(a).mul_spec(t))
}

/// The point at parameter `t` on the way from `a` to `b`: `a + (b - a) * t`.
pub open spec fn lerp_spec<T>(a: T, b: T, t: T) -> T
    where T: Copy + Add<T, Output = T> + Sub<T, Output = T> + Mul<T, Output = T>
{
    a.add_spec(b.sub_spec(a).mul_spec(t))
}

/// When the arithmetic of `T` follows its specification and `(c - a) / (b - a)`
/// is defined in `T`.
pub open spec fn unlerp_req<T>(a: T, b: T, c: T) -> bool
    where T: Copy + Sub<T, Output = T> + Div<T, Output = T>
{
    &&& T::obeys_sub_spec()
    &&& T::obeys_div_spec()
    &&& c.sub_req(a)
    &&& b.sub_req(a)
    &&& c.sub_spec(a).div_req(b.sub_spec(a))
}

/// The parameter of `c` on the way from `a` to `b`: `(c - a) / (b - a)`.
pub open spec fn unlerp_spec<T>(a: T, b: T, c: T) -> T
    where T: Copy + Sub<T, Output = T> + Div<T, Output = T>
{
    c.sub_spec(a).div_spec(b.sub_spec(a))
}

/// Linear interpolation: `a + (b - a) * t`.
pub fn lerp<T>(a: T, b: T, t: T) -> (r: T)
    where T: Copy + Add<T, Output = T> + Sub<T, Output = T> + Mul<T, Output = T>
    requires
        lerp_req(a, b, t),
    ensures
        r == lerp_spec(a, b, t),
{
    a + (b - a) * t
}

/// Inverse linear interpolation: `(c - a) / (b - a)`.
pub fn unlerp<T>(a: T, b: T, c: T) -> (r: T)
    where T: Copy + Sub<T, Output = T> + Div<T, Output = T>
    requires
        unlerp_req(a, b, c),
    ensures
        r == unlerp_spec(a, b, c),
{
    (c - a) / (b - a)
}

/// An exact quotient is found by the division of `i64`.
pub(crate) proof fn lemma_exact_quotient(d: i64, t: i64)
    requires
        d != 0,
        i64::MIN <= d * t <= i64::MAX,
    ensures
        ((d * t) as i64).div_spec(d) == t,
{
    let x: int = d * t;
    if x >= 0 {
        let q = x / (d as int);
        let r = x % (d as int);
        vstd::arithmetic::div_mod::lemma_fundamental_div_mod(x, d as int);
        assert(q == t) by (nonlinear_arith)
            requires x == d * q + r, x == d * t, d != 0, 0 <= r, r < d || r < -d;
    } else {
        let q = (-x) / (d as int);
        let r = (-x) % (d as int);
        vstd::arithmetic::div_mod::lemma_fundamental_div_mod(-x, d as int);
        assert(q == -t) by (nonlinear_arith)
            requires -x == d * q + r, x == d * t, d != 0, 0 <= r, r < d || r < -d;
    }
}

/// Where `d` divides `x`, the division of `i64` is exact.
pub proof fn lemma_exact_div(x: i64, d: i64)
    requires
        x.div_req(d),
        (x as int) % (d as int) == 0,
    ensures
        x.div_spec(d) * d == x,
{
    let (xi, di) = (x as int, d as int);
    vstd::arithmetic::div_mod::lemma_fundamental_div_mod(xi, di);
    let q = xi / di;
    assert(xi == di * q);
    if x >= 0 {
        assert(-xi <= q <= xi) by (nonlinear_arith)
            requires xi == di * q, xi >= 0, di != 0;
    } else {
        let nx = -xi;
        vstd::arithmetic::div_mod::lemma_fundamental_div_mod(nx, di);
        let q2 = nx / di;
        let r2 = nx % di;
        assert(nx == di * (-q)) by (nonlinear_arith)
            requires xi == di * q, nx == -xi;
        assert(q2 == -q) by (nonlinear_arith)
            requires nx == di * q2 + r2, nx == di * (-q), di != 0, 0 <= r2, r2 < di || r2 < -di;
        assert(xi <= q <= -xi) by (nonlinear_arith)
            requires xi == di * q, xi < 0, di != 0;
        if q == -xi {
            assert(di == -1) by (nonlinear_arith)
                requires xi == di * q, q == -xi, xi < 0;
        }
        assert(x.div_spec(d) == q);
    }
    assert(q * di == xi) by (nonlinear_arith)
        requires xi == di * q;
}

/// Interpolating at `0` gives the start and at `1` gives the end.
pub proof fn lemma_lerp_endpoints(a: i64, b: i64)
    requires
        i64::MIN <= b - a <= i64::MAX,
    ensures
        lerp_req(a, b, 0i64),
        lerp_spec(a, b, 0i64) == a,
        lerp_req(a, b, 1i64),
        lerp_spec(a, b, 1i64) == b,
{
}

/// The start has parameter `0` and the end has parameter `1`.
pub proof fn lemma_unlerp_endpoints(a: i64, b: i64)
    requires
        a != b,
        i64::MIN <= b - a <= i64::MAX,
    ensures
        unlerp_req(a, b, a),
        unlerp_spec(a, b, a) == 0,
        unlerp_req(a, b, b),
        unlerp_spec(a, b, b) == 1,
{
    lemma_exact_quotient((b - a) as i64, 1);
    assert((b - a) as i64 * 1 == b - a);
}

/// Inverse interpolation undoes interpolation.
pub proof fn lemma_unlerp_lerp(a: i64, b: i64, t: i64)
    requires
        a != b,
        lerp_req(a, b, t),
    ensures
        unlerp_req(a, b, lerp_spec(a, b, t)),
        unlerp_spec(a, b, lerp_spec(a, b, t)) == t,
{
    let d = (b - a) as i64;
    lemma_exact_quotient(d, t);
}

} // verus!
