//! The value of a polynomial given by its coefficients, and how it follows the
//! operations on coefficients.
use crate::poly::{
    add_coeffs, add_fits, coeff, horner, max_len, scale_coeffs, scale_fits, sub_coeffs,
    sub_fits, trim,
};
use vstd::prelude::*;

verus! {

/// `b` to the power `e`.
pub open spec fn power(b: int, e: nat) -> int
    decreases e,
{
    if e == 0 {
        1
    } else {
        b * power(b, (e - 1) as nat)
    }
}

/// `coeff(s, i) * x^i` summed over `i < k`.
pub open spec fn sum_to(s: Seq<i64>, x: int, k: int) -> int
    decreases k,
{
    if k <= 0 {
        0
    } else {
        sum_to(s, x, k - 1) + coeff(s, k - 1) * power(x, (k - 1) as nat)
    }
}

/// Splitting off the constant coefficient: `sum_to(s, k) = s_0 + x * sum_to(tail, k - 1)`.
proof fn lemma_sum_shift(s: Seq<i64>, x: int, k: int)
    requires
        s.len() > 0,
        k >= 1,
    ensures
        sum_to(s, x, k) == coeff(s, 0) + x * sum_to(s.drop_first(), x, k - 1),
    decreases k,
{
    if k > 1 {
        lemma_sum_shift(s, x, k - 1);
        let t = s.drop_first();
        assert(coeff(s, k - 1) == coeff(t, k - 2));
        let p = power(x, (k - 2) as nat);
        assert(power(x, (k - 1) as nat) == x * p);
        let a = sum_to(t, x, k - 2);
        let c = coeff(t, k - 2);
        assert(x * a + c * (x * p) == x * (a + c * p)) by (nonlinear_arith);
        assert(sum_to(s, x, k) == sum_to(s, x, k - 1) + coeff(s, k - 1) * power(x, (k - 1) as nat));
        assert(sum_to(t, x, k - 1) == a + c * p);
        assert(sum_to(s, x, k - 1) == coeff(s, 0) + x * a);
        assert(coeff(s, k - 1) * power(x, (k - 1) as nat) == c * (x * p));
    } else {
        assert(x * sum_to(s.drop_first(), x, 0) == 0) by (nonlinear_arith)
            requires sum_to(s.drop_first(), x, 0) == 0;
        assert(power(x, 0) == 1);
        assert(sum_to(s, x, 1) == sum_to(s, x, 0) + coeff(s, 0) * power(x, 0));
    }
}

/// Coefficients beyond the end add nothing.
proof fn lemma_sum_beyond(s: Seq<i64>, x: int, k: int)
    requires
        k >= s.len(),
    ensures
        sum_to(s, x, k) == sum_to(s, x, s.len() as int),
    decreases k,
{
    if k > s.len() {
        lemma_sum_beyond(s, x, k - 1);
    }
}

/// Horner's rule computes the sum of the terms.
pub proof fn lemma_horner_sum(s: Seq<i64>, x: int)
    ensures
        horner(s, x) == sum_to(s, x, s.len() as int),
    decreases s.len(),
{
    if s.len() > 0 {
        lemma_horner_sum(s.drop_first(), x);
        lemma_sum_shift(s, x, s.len() as int);
        assert(horner(s.drop_first(), x) * x == x * horner(s.drop_first(), x)) by (nonlinear_arith);
    }
}

/// Sequences with the same coefficients at every degree below `k` have the
/// same partial sum.
proof fn lemma_sum_same(a: Seq<i64>, b: Seq<i64>, x: int, k: int)
    requires
        forall|i: int| 0 <= i < k ==> coeff(a, i) == coeff(b, i),
    ensures
        sum_to(a, x, k) == sum_to(b, x, k),
    decreases k,
{
    if k > 0 {
        lemma_sum_same(a, b, x, k - 1);
    }
}

/// Removing trailing zeros changes no coefficient.
proof fn lemma_trim_coeff(s: Seq<i64>)
    ensures
        forall|i: int| #[trigger] coeff(trim(s), i) == coeff(s, i),
        trim(s).len() <= s.len(),
    decreases s.len(),
{
    if s.len() > 0 && s.last() == 0 {
        lemma_trim_coeff(s.drop_last());
        assert forall|i: int| #[trigger] coeff(trim(s), i) == coeff(s, i) by {
            if 0 <= i < s.len() - 1 {
                assert(s.drop_last()[i] == s[i]);
            }
        }
    }
}

/// The value of the coefficients with trailing zeros removed is the same.
pub proof fn lemma_trim_value(s: Seq<i64>, x: int)
    ensures
        horner(trim(s), x) == horner(s, x),
{
    lemma_trim_coeff(s);
    lemma_horner_sum(s, x);
    lemma_horner_sum(trim(s), x);
    lemma_sum_same(trim(s), s, x, s.len() as int);
    lemma_sum_beyond(trim(s), x, s.len() as int);
}

/// Sums term by term: where `coeff(c, i) == coeff(a, i) + sign * coeff(b, i)`
/// at every degree below `k`, the partial sums relate the same way.
proof fn lemma_sum_linear(a: Seq<i64>, b: Seq<i64>, c: Seq<i64>, x: int, k: int, sign: int)
    requires
        forall|i: int| 0 <= i < k ==> #[trigger] coeff(c, i) == coeff(a, i) + sign * coeff(b, i),
    ensures
        sum_to(c, x, k) == sum_to(a, x, k) + sign * sum_to(b, x, k),
    decreases k,
{
    if k > 0 {
        lemma_sum_linear(a, b, c, x, k - 1, sign);
        let p = power(x, (k - 1) as nat);
        let (ca, cb) = (coeff(a, k - 1), coeff(b, k - 1));
        let (sa, sb) = (sum_to(a, x, k - 1), sum_to(b, x, k - 1));
        assert(sa + sign * sb + (ca + sign * cb) * p == (sa + ca * p) + sign * (sb + cb * p))
            by (nonlinear_arith);
    }
}

/// Where `coeff(c, i) == coeff(a, i) * f` at every degree below `k`, the
/// partial sums relate the same way.
proof fn lemma_sum_scaled(a: Seq<i64>, c: Seq<i64>, x: int, k: int, f: int)
    requires
        forall|i: int| 0 <= i < k ==> #[trigger] coeff(c, i) == coeff(a, i) * f,
    ensures
        sum_to(c, x, k) == sum_to(a, x, k) * f,
    decreases k,
{
    if k > 0 {
        lemma_sum_scaled(a, c, x, k - 1, f);
        let p = power(x, (k - 1) as nat);
        let ca = coeff(a, k - 1);
        let sa = sum_to(a, x, k - 1);
        assert(sa * f + (ca * f) * p == (sa + ca * p) * f) by (nonlinear_arith);
    }
}

/// The value of `a - b` is the difference of the values.
pub proof fn lemma_sub_value(a: Seq<i64>, b: Seq<i64>, x: int)
    requires
        sub_fits(a, b),
    ensures
        horner(sub_coeffs(a, b), x) == horner(a, x) - horner(b, x),
{
    let n = max_len(a, b) as int;
    let c = Seq::new(max_len(a, b), |i: int| (coeff(a, i) - coeff(b, i)) as i64);
    assert forall|i: int| 0 <= i < n implies #[trigger] coeff(c, i) == coeff(a, i) + (-1) * coeff(b, i) by {
        assert(crate::util::fits(coeff(a, i) - coeff(b, i)));
    }
    lemma_sum_linear(a, b, c, x, n, -1);
    lemma_trim_value(c, x);
    lemma_horner_sum(c, x);
    lemma_horner_sum(a, x);
    lemma_horner_sum(b, x);
    lemma_sum_beyond(a, x, n);
    lemma_sum_beyond(b, x, n);
}

/// The value of `a + b` is the sum of the values.
pub proof fn lemma_add_value(a: Seq<i64>, b: Seq<i64>, x: int)
    requires
        add_fits(a, b),
    ensures
        horner(add_coeffs(a, b), x) == horner(a, x) + horner(b, x),
{
    let n = max_len(a, b) as int;
    let c = Seq::new(max_len(a, b), |i: int| (coeff(a, i) + coeff(b, i)) as i64);
    assert forall|i: int| 0 <= i < n implies #[trigger] coeff(c, i) == coeff(a, i) + 1 * coeff(b, i) by {
        assert(crate::util::fits(coeff(a, i) + coeff(b, i)));
    }
    lemma_sum_linear(a, b, c, x, n, 1);
    lemma_trim_value(c, x);
    lemma_horner_sum(c, x);
    lemma_horner_sum(a, x);
    lemma_horner_sum(b, x);
    lemma_sum_beyond(a, x, n);
    lemma_sum_beyond(b, x, n);
}

/// The value of `a * k` for a constant `k` is the value of `a` times the constant.
pub proof fn lemma_scale_value(a: Seq<i64>, k: Seq<i64>, x: int)
    requires
        scale_fits(a, k),
    ensures
        horner(scale_coeffs(a, k), x) == horner(a, x) * coeff(k, 0),
{
    lemma_horner_sum(a, x);
    if a.len() == 0 || k.len() == 0 {
        assert(horner(a, x) * coeff(k, 0) == 0) by {
            if a.len() == 0 {
                assert(horner(a, x) == 0);
            }
        }
    } else {
        let n = a.len() as int;
        let c = Seq::new(a.len(), |i: int| (a[i] * k[0]) as i64);
        assert forall|i: int| 0 <= i < n implies #[trigger] coeff(c, i) == coeff(a, i) * coeff(k, 0) by {
            assert(crate::util::fits(a[i] * coeff(k, 0)));
        }
        lemma_sum_scaled(a, c, x, n, coeff(k, 0));
        lemma_trim_value(c, x);
        lemma_horner_sum(c, x);
    }
}

/// The constant polynomial `k` has the value `k` everywhere.
pub proof fn lemma_constant_value(k: i64, x: int)
    ensures
        horner(trim(seq![k]), x) == k,
        trim(seq![k]).len() <= 1,
        coeff(trim(seq![k]), 0) == k,
{
    lemma_trim_value(seq![k], x);
    lemma_trim_coeff(seq![k]);
    assert(seq![k].drop_first().len() == 0);
    assert(horner(seq![k].drop_first(), x) == 0);
}

} // verus!
