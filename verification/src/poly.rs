//! Polynomials with `i64` coefficients, as the `polynomial` crate keeps them,
//! and the operations of that crate that the library calls.
use polynomial::Polynomial;
use crate::util::fits;
use vstd::prelude::*;

verus! {

#[verifier::external_type_specification]
#[verifier::external_body]
#[verifier::reject_recursive_types(T)]
pub struct ExPolynomial<T>(Polynomial<T>);

/// The coefficients that a polynomial holds, lowest degree first.
pub uninterp spec fn coeffs(p: Polynomial<i64>) -> Seq<i64>;

/// The coefficients of what `Polynomial::lagrange` builds from these coordinates.
pub uninterp spec fn lagrange_coeffs(xs: Seq<i64>, ys: Seq<i64>) -> Option<Seq<i64>>;

/// The coefficients without their trailing zeros.
pub open spec fn trim(s: Seq<i64>) -> Seq<i64>
    decreases s.len(),
{
    if s.len() > 0 && s.last() == 0 {
        trim(s.drop_last())
    } else {
        s
    }
}

/// The coefficient of degree `i`, zero beyond the end.
pub open spec fn coeff(s: Seq<i64>, i: int) -> int {
    if 0 <= i < s.len() {
        s[i] as int
    } else {
        0
    }
}

/// The value at `x` of the polynomial with coefficients `c`,
/// `c[0] + x * (c[1] + x * (c[2] + ...))`.
pub open spec fn horner(c: Seq<i64>, x: int) -> int
    decreases c.len(),
{
    if c.len() == 0 {
        0
    } else {
        c[0] + horner(c.drop_first(), x) * x
    }
}

/// Evaluating from the highest coefficient down stays in the range of `i64`:
/// each product `(value so far) * x` and each sum with the next coefficient fit.
pub open spec fn eval_fits(c: Seq<i64>, x: int) -> bool {
    forall|k: int|
        0 <= k < c.len() ==> {
            &&& fits(#[trigger] horner(c.subrange(k + 1, c.len() as int), x) * x)
            &&& fits(c[k] + horner(c.subrange(k + 1, c.len() as int), x) * x)
        }
}

/// The larger of the two lengths.
pub open spec fn max_len(a: Seq<i64>, b: Seq<i64>) -> nat {
    if a.len() >= b.len() {
        a.len()
    } else {
        b.len()
    }
}

/// Each coefficient of `a - b` fits in `i64`.
pub open spec fn sub_fits(a: Seq<i64>, b: Seq<i64>) -> bool {
    forall|i: int| 0 <= i < max_len(a, b) ==> fits(#[trigger] coeff(a, i) - coeff(b, i))
}

/// The coefficients of `a - b`.
pub open spec fn sub_coeffs(a: Seq<i64>, b: Seq<i64>) -> Seq<i64> {
    trim(Seq::new(max_len(a, b), |i: int| (coeff(a, i) - coeff(b, i)) as i64))
}

/// Each coefficient of `a + b` fits in `i64`.
pub open spec fn add_fits(a: Seq<i64>, b: Seq<i64>) -> bool {
    forall|i: int| 0 <= i < max_len(a, b) ==> fits(#[trigger] coeff(a, i) + coeff(b, i))
}

/// The coefficients of `a + b`.
pub open spec fn add_coeffs(a: Seq<i64>, b: Seq<i64>) -> Seq<i64> {
    trim(Seq::new(max_len(a, b), |i: int| (coeff(a, i) + coeff(b, i)) as i64))
}

/// `k` is a constant polynomial and each coefficient of `a * k` fits in `i64`.
pub open spec fn scale_fits(a: Seq<i64>, k: Seq<i64>) -> bool {
    &&& k.len() <= 1
    &&& forall|i: int| 0 <= i < a.len() ==> fits(#[trigger] a[i] * coeff(k, 0))
}

/// The coefficients of `a * k` for a constant polynomial `k`.
pub open spec fn scale_coeffs(a: Seq<i64>, k: Seq<i64>) -> Seq<i64> {
    if a.len() == 0 || k.len() == 0 {
        Seq::empty()
    } else {
        trim(Seq::new(a.len(), |i: int| (a[i] * k[0]) as i64))
    }
}

/// The absolute value.
pub open spec fn abs(v: int) -> int {
    if v < 0 {
        -v
    } else {
        v
    }
}

/// `(1 + |xs[j]|)` multiplied over `j < k`, `j != i`: a bound on the
/// coefficients of the product of the factors `(X - xs[j])`.
pub open spec fn growth(xs: Seq<i64>, i: int, k: int) -> int
    decreases k,
{
    if k <= 0 {
        1
    } else if k - 1 == i {
        growth(xs, i, k - 1)
    } else {
        growth(xs, i, k - 1) * (1 + abs(xs[k - 1] as int))
    }
}

/// `|xs[i] - xs[j]|` multiplied over `j < k` where it exceeds one: a bound on
/// the denominators.
pub open spec fn spread(xs: Seq<i64>, i: int, k: int) -> int
    decreases k,
{
    if k <= 0 {
        1
    } else if abs(xs[i] - xs[k - 1]) <= 1 {
        spread(xs, i, k - 1)
    } else {
        spread(xs, i, k - 1) * abs(xs[i] - xs[k - 1])
    }
}

/// `growth(xs, i, n) * (1 + |ys[i]|)` summed over `i < k`: a bound on the
/// coefficients of the partial sums.
pub open spec fn weight(xs: Seq<i64>, ys: Seq<i64>, k: int) -> int
    decreases k,
{
    if k <= 0 {
        0
    } else {
        weight(xs, ys, k - 1) + growth(xs, k - 1, xs.len() as int) * (1 + abs(ys[k - 1] as int))
    }
}

/// The number of points that `Polynomial::lagrange` pairs.
pub open spec fn paired(xs: Seq<i64>, ys: Seq<i64>) -> int {
    if ys.len() < xs.len() {
        ys.len() as int
    } else {
        xs.len() as int
    }
}

/// A bound under which no step of `Polynomial::lagrange` leaves the range of
/// `i64`, and its `i32` counters do not overflow: for each paired point `i`,
/// the product of its distances `|xs[i] - xs[j]|` (those above one) fits, and
/// the sum over the paired points of `(1 + |ys[i]|)` times the product of
/// `(1 + |xs[j]|)` over `j != i` fits.
pub open spec fn lagrange_fits(xs: Seq<i64>, ys: Seq<i64>) -> bool {
    &&& xs.len() < 0x7fff_ffff
    &&& forall|i: int| 0 <= i < paired(xs, ys) ==> #[trigger] spread(xs, i, xs.len() as int) <= i64::MAX
    &&& weight(xs, ys, paired(xs, ys)) <= i64::MAX
}

/// Some x-coordinate that is paired with a y-coordinate occurs twice among `xs`.
pub open spec fn repeated_x(xs: Seq<i64>, n_ys: nat) -> bool {
    exists|i: int, j: int|
        0 <= i < xs.len() && i < n_ys && 0 <= j < xs.len() && i != j && #[trigger] xs[i]
            == #[trigger] xs[j]
}

/// `Polynomial::new`: keeps the coefficients, less the trailing zeros.
#[verifier::external_body]
pub(crate) fn poly_new(data: Vec<i64>) -> (p: Polynomial<i64>)
    ensures
        coeffs(p) == trim(data@),
{
    Polynomial::new(data)
}

/// `Polynomial::clone` (derived): the same coefficients.
#[verifier::external_body]
pub(crate) fn poly_clone(p: &Polynomial<i64>) -> (r: Polynomial<i64>)
    ensures
        coeffs(r) == coeffs(*p),
{
    p.clone()
}

/// `Polynomial::data`: the coefficients.
#[verifier::external_body]
pub(crate) fn poly_data(p: &Polynomial<i64>) -> (r: &[i64])
    ensures
        r@ == coeffs(*p),
{
    p.data()
}

/// `Polynomial::eval`: Horner's rule from the highest coefficient down, which
/// gives the value of the polynomial at `x` where no step overflows.
#[verifier::external_body]
pub(crate) fn poly_eval(p: &Polynomial<i64>, x: i64) -> (r: i64)
    requires
        eval_fits(coeffs(*p), x as int),
    ensures
        r == horner(coeffs(*p), x as int),
{
    p.eval(x)
}

/// `Polynomial - Polynomial`: coefficient-wise difference, trailing zeros removed.
#[verifier::external_body]
pub(crate) fn poly_sub(a: Polynomial<i64>, b: Polynomial<i64>) -> (r: Polynomial<i64>)
    requires
        sub_fits(coeffs(a), coeffs(b)),
    ensures
        coeffs(r) == sub_coeffs(coeffs(a), coeffs(b)),
{
    a - b
}

/// `Polynomial + Polynomial`: coefficient-wise sum, trailing zeros removed.
#[verifier::external_body]
pub(crate) fn poly_add(a: Polynomial<i64>, b: Polynomial<i64>) -> (r: Polynomial<i64>)
    requires
        add_fits(coeffs(a), coeffs(b)),
    ensures
        coeffs(r) == add_coeffs(coeffs(a), coeffs(b)),
{
    a + b
}

/// `Polynomial * Polynomial` where the right factor is constant: empty when
/// either factor is zero, else each coefficient times the constant, trailing
/// zeros removed. Products by longer polynomials are not stated here.
#[verifier::external_body]
pub(crate) fn poly_mul(a: Polynomial<i64>, b: Polynomial<i64>) -> (r: Polynomial<i64>)
    requires
        scale_fits(coeffs(a), coeffs(b)),
    ensures
        coeffs(r) == scale_coeffs(coeffs(a), coeffs(b)),
{
    a * b
}

/// `Polynomial::lagrange`: `None` exactly where an x-coordinate that is paired
/// with a y-coordinate occurs twice; what it builds otherwise is named by
/// `lagrange_coeffs` and not stated further.
#[verifier::external_body]
pub(crate) fn poly_lagrange(xs: &[i64], ys: &[i64]) -> (r: Option<Polynomial<i64>>)
    requires
        lagrange_fits(xs@, ys@),
    ensures
        r is None <==> repeated_x(xs@, ys@.len()),
        match r {
            Some(p) => lagrange_coeffs(xs@, ys@) == Some(coeffs(p)),
            None => lagrange_coeffs(xs@, ys@) is None,
        },
{
    Polynomial::lagrange(xs, ys)
}

} // verus!
