use vstd::prelude::*;
use rug::Rational;
use crate::frac::{Frac, frac_eq, frac_add, frac_sub, frac_mul, frac_div};

verus! {

#[verifier::external_type_specification]
#[verifier::external_body]
pub struct ExRational(Rational);

/// The numerator of a `rug::Rational`'s canonical form. rug documents that a
/// `Rational` is always kept canonical: the denominator is greater than zero,
/// numerator and denominator share no factor, and zero is stored as `0/1`.
/// The canonical pair is therefore a function of the number's value alone.
pub uninterp spec fn rat_num(r: Rational) -> int;

/// The denominator of a `rug::Rational`'s canonical form; see `rat_num`.
pub uninterp spec fn rat_den(r: Rational) -> int;

/// The canonical numerator/denominator pair of a `rug::Rational`, as a `Frac`.
pub open spec fn rat_v(r: Rational) -> Frac {
    Frac { n: rat_num(r), d: rat_den(r) }
}

/// Relies on rug's `From<i64> for Rational`: stores `n/1`, which is canonical.
#[verifier::external_body]
pub(crate) fn rat_from_int(n: i64) -> (r: Rational)
    ensures
        rat_num(r) == n as int,
        rat_den(r) == 1,
{
    Rational::from(n)
}

/// Relies on rug's `From<(i64, i64)> for Rational`: canonicalizes `n/d`, and
/// panics only when the denominator is zero.
#[verifier::external_body]
pub(crate) fn rat_from_pair(n: i64, d: i64) -> (r: Rational)
    requires
        d != 0,
    ensures
        rat_den(r) > 0,
        frac_eq(rat_v(r), Frac { n: n as int, d: d as int }),
{
    Rational::from((n, d))
}

/// Relies on rug's `Add` for `&Rational`: the exact sum, in canonical form.
#[verifier::external_body]
pub(crate) fn rat_add(a: &Rational, b: &Rational) -> (r: Rational)
    ensures
        rat_den(r) > 0,
        frac_eq(rat_v(r), frac_add(rat_v(*a), rat_v(*b))),
{
    Rational::from(a + b)
}

/// Relies on rug's `Sub` for `&Rational`: the exact difference, in canonical
/// form.
#[verifier::external_body]
pub(crate) fn rat_sub(a: &Rational, b: &Rational) -> (r: Rational)
    ensures
        rat_den(r) > 0,
        frac_eq(rat_v(r), frac_sub(rat_v(*a), rat_v(*b))),
{
    Rational::from(a - b)
}

/// Relies on rug's `Mul` for `&Rational`: the exact product, in canonical
/// form.
#[verifier::external_body]
pub(crate) fn rat_mul(a: &Rational, b: &Rational) -> (r: Rational)
    ensures
        rat_den(r) > 0,
        frac_eq(rat_v(r), frac_mul(rat_v(*a), rat_v(*b))),
{
    Rational::from(a * b)
}

/// Relies on rug's `Div` for `&Rational`: the exact quotient, in canonical
/// form; division panics only when the divisor is zero.
#[verifier::external_body]
pub(crate) fn rat_div(a: &Rational, b: &Rational) -> (r: Rational)
    requires
        rat_num(*b) != 0,
    ensures
        rat_den(r) > 0,
        frac_eq(rat_v(r), frac_div(rat_v(*a), rat_v(*b))),
{
    Rational::from(a / b)
}

/// Relies on rug's `Ord for Rational`: an exact value comparison, which on
/// canonical forms (positive denominators) agrees with cross-multiplication.
#[verifier::external_body]
pub(crate) fn rat_lt(a: &Rational, b: &Rational) -> (r: bool)
    ensures
        r == (rat_num(*a) * rat_den(*b) < rat_num(*b) * rat_den(*a)),
{
    a < b
}

/// Relies on rug's `PartialEq for Rational`: exact value equality, which on
/// canonical forms agrees with cross-multiplication.
#[verifier::external_body]
pub(crate) fn rat_eq(a: &Rational, b: &Rational) -> (r: bool)
    ensures
        r == (rat_num(*a) * rat_den(*b) == rat_num(*b) * rat_den(*a)),
{
    a == b
}

/// Relies on rug's `Clone for Rational`: an exact copy, canonical like its
/// source.
#[verifier::external_body]
pub(crate) fn rat_clone(a: &Rational) -> (r: Rational)
    ensures
        rat_num(r) == rat_num(*a),
        rat_den(r) == rat_den(*a),
        rat_den(r) > 0,
{
    a.clone()
}

} // verus!
