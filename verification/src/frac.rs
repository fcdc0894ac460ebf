use vstd::prelude::*;

verus! {

/// A rational value in specification land: the fraction `n / d`.
/// A `Frac` is not required to be reduced; two fractions denote the same
/// rational exactly when `frac_eq` holds. Every fraction that actually
/// denotes a value has a nonzero denominator, and all fractions produced
/// by the executable layer have a positive one.
pub ghost struct Frac {
    pub n: int,
    pub d: int,
}

/// `a` and `b` denote the same rational: `a.n / a.d == b.n / b.d`,
/// stated by cross-multiplication.
pub open spec fn frac_eq(a: Frac, b: Frac) -> bool {
    a.n * b.d == b.n * a.d
}

/// `a <= b` as rationals; meaningful when both denominators are positive.
pub open spec fn frac_le(a: Frac, b: Frac) -> bool {
    a.n * b.d <= b.n * a.d
}

pub open spec fn frac_zero() -> Frac {
    Frac { n: 0, d: 1 }
}

pub open spec fn frac_add(a: Frac, b: Frac) -> Frac {
    Frac { n: a.n * b.d + b.n * a.d, d: a.d * b.d }
}

pub open spec fn frac_sub(a: Frac, b: Frac) -> Frac {
    Frac { n: a.n * b.d - b.n * a.d, d: a.d * b.d }
}

pub open spec fn frac_mul(a: Frac, b: Frac) -> Frac {
    Frac { n: a.n * b.n, d: a.d * b.d }
}

pub open spec fn frac_div(a: Frac, b: Frac) -> Frac {
    Frac { n: a.n * b.d, d: a.d * b.n }
}

/// The product of two positive integers is positive.
pub proof fn lemma_mul_pos(a: int, b: int)
    by (nonlinear_arith)
    requires
        a > 0,
        b > 0,
    ensures
        a * b > 0,
{
}

/// Multiplication commutes.
pub proof fn lemma_mul_comm(p: int, q: int)
    by (nonlinear_arith)
    ensures
        p * q == q * p,
{
}

/// Reassociations and commutations of a product of three factors.
pub proof fn lemma_mul3(p: int, q: int, r: int)
    by (nonlinear_arith)
    ensures
        p * (q * r) == p * (r * q),
        p * (q * r) == q * (p * r),
        p * (q * r) == q * (r * p),
        p * (q * r) == r * (p * q),
        p * (q * r) == r * (q * p),
        p * (q * r) == (p * q) * r,
{
}

/// Pairings of a product of four factors.
pub proof fn lemma_mul4(p: int, q: int, r: int, s: int)
    by (nonlinear_arith)
    ensures
        (p * q) * (r * s) == (p * r) * (q * s),
        (p * q) * (r * s) == (p * s) * (q * r),
        (p * q) * (r * s) == (q * r) * (p * s),
        (p * q) * (r * s) == (q * s) * (p * r),
        (p * q) * (r * s) == (r * s) * (p * q),
{
}

/// The product of two nonnegative integers is nonnegative.
pub proof fn lemma_mul_nonneg(a: int, b: int)
    by (nonlinear_arith)
    requires
        a >= 0,
        b >= 0,
    ensures
        a * b >= 0,
{
}

/// Multiplication distributes over a difference on the left.
pub proof fn lemma_mul_distrib_sub_left(k: int, p: int, q: int)
    by (nonlinear_arith)
    ensures
        k * (p - q) == k * p - k * q,
{
}

/// A product of two differences, fully expanded.
pub proof fn lemma_mul_expand2(p: int, q: int, r: int, s: int)
    by (nonlinear_arith)
    ensures
        (p - q) * (r - s) == p * r - p * s - q * r + q * s,
{
}

/// A factor distributed over a six-term alternating sum.
pub proof fn lemma_mul_distrib6(k: int, t1: int, t2: int, t3: int, t4: int, t5: int, t6: int)
    by (nonlinear_arith)
    ensures
        k * (t1 - t2 - t3 + t4 + t5 - t6) == k * t1 - k * t2 - k * t3 + k * t4 + k * t5 - k * t6,
{
}

/// Multiplication distributes over subtraction.
pub proof fn lemma_mul_distrib_sub(p: int, q: int, k: int)
    by (nonlinear_arith)
    ensures
        (p - q) * k == p * k - q * k,
{
}

/// Multiplication distributes over addition.
pub proof fn lemma_mul_distrib_add(p: int, q: int, k: int)
    by (nonlinear_arith)
    ensures
        (p + q) * k == p * k + q * k,
{
}

/// `frac_eq` is transitive as long as the middle fraction has a nonzero
/// denominator.
pub proof fn lemma_frac_eq_trans(a: Frac, b: Frac, c: Frac)
    by (nonlinear_arith)
    requires
        frac_eq(a, b),
        frac_eq(b, c),
        b.d != 0,
    ensures
        frac_eq(a, c),
{
}

/// Scaling numerator and denominator by a common factor preserves the value.
pub proof fn lemma_frac_eq_scale(a: Frac, k: int)
    by (nonlinear_arith)
    ensures
        frac_eq(Frac { n: a.n * k, d: a.d * k }, a),
        frac_eq(a, Frac { n: a.n * k, d: a.d * k }),
{
}

/// Subtraction respects `frac_eq`.
pub proof fn lemma_frac_sub_cong(a: Frac, b: Frac, a2: Frac, b2: Frac)
    requires
        frac_eq(a, a2),
        frac_eq(b, b2),
    ensures
        frac_eq(frac_sub(a, b), frac_sub(a2, b2)),
{
    assert((a.n * b.d) * (a2.d * b2.d) == (a2.n * b2.d) * (a.d * b.d)) by (nonlinear_arith)
        requires
            a.n * a2.d == a2.n * a.d,
    ;
    assert((b.n * a.d) * (a2.d * b2.d) == (b2.n * a2.d) * (a.d * b.d)) by (nonlinear_arith)
        requires
            b.n * b2.d == b2.n * b.d,
    ;
    assert((a.n * b.d - b.n * a.d) * (a2.d * b2.d) == (a.n * b.d) * (a2.d * b2.d) - (b.n * a.d)
        * (a2.d * b2.d)) by (nonlinear_arith);
    assert((a2.n * b2.d - b2.n * a2.d) * (a.d * b.d) == (a2.n * b2.d) * (a.d * b.d) - (b2.n * a2.d)
        * (a.d * b.d)) by (nonlinear_arith);
}

/// Addition respects `frac_eq`.
pub proof fn lemma_frac_add_cong(a: Frac, b: Frac, a2: Frac, b2: Frac)
    requires
        frac_eq(a, a2),
        frac_eq(b, b2),
    ensures
        frac_eq(frac_add(a, b), frac_add(a2, b2)),
{
    assert((a.n * b.d) * (a2.d * b2.d) == (a2.n * b2.d) * (a.d * b.d)) by (nonlinear_arith)
        requires
            a.n * a2.d == a2.n * a.d,
    ;
    assert((b.n * a.d) * (a2.d * b2.d) == (b2.n * a2.d) * (a.d * b.d)) by (nonlinear_arith)
        requires
            b.n * b2.d == b2.n * b.d,
    ;
    assert((a.n * b.d + b.n * a.d) * (a2.d * b2.d) == (a.n * b.d) * (a2.d * b2.d) + (b.n * a.d)
        * (a2.d * b2.d)) by (nonlinear_arith);
    assert((a2.n * b2.d + b2.n * a2.d) * (a.d * b.d) == (a2.n * b2.d) * (a.d * b.d) + (b2.n * a2.d)
        * (a.d * b.d)) by (nonlinear_arith);
}

/// Division respects `frac_eq`.
pub proof fn lemma_frac_div_cong(a: Frac, b: Frac, a2: Frac, b2: Frac)
    requires
        frac_eq(a, a2),
        frac_eq(b, b2),
    ensures
        frac_eq(frac_div(a, b), frac_div(a2, b2)),
{
    assert((a.n * b.d) * (a2.d * b2.n) == (a2.n * b2.d) * (a.d * b.n)) by (nonlinear_arith)
        requires
            a.n * a2.d == a2.n * a.d,
            b.n * b2.d == b2.n * b.d,
    ;
}

/// Two fractions with positive denominators that denote the same rational
/// have numerators of the same sign.
pub proof fn lemma_frac_sign(a: Frac, b: Frac)
    by (nonlinear_arith)
    requires
        frac_eq(a, b),
        a.d > 0,
        b.d > 0,
    ensures
        (a.n > 0) == (b.n > 0),
        (a.n < 0) == (b.n < 0),
        (a.n == 0) == (b.n == 0),
{
}

/// Comparison against the unit interval transfers through an exact quotient:
/// if `p` denotes `dvd / nrm` with `nrm` positive, then `p` lies in `[0, 1]`
/// exactly when `dvd` lies between zero and `nrm`.
pub proof fn lemma_frac_div_unit(p: Frac, dvd: Frac, nrm: Frac)
    by (nonlinear_arith)
    requires
        frac_eq(p, frac_div(dvd, nrm)),
        p.d > 0,
        dvd.d > 0,
        nrm.d > 0,
        nrm.n > 0,
    ensures
        (0 <= p.n) == frac_le(frac_zero(), dvd),
        (p.n <= p.d) == frac_le(dvd, nrm),
{
}

} // verus!
