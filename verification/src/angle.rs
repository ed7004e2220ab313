//! Angles: degrees to radians, and the sine, cosine and tangent as
//! truncated power series in fixed-point arithmetic.

use vstd::prelude::*;
use crate::scalar::{lemma_quotient_bounded, lemma_times_one, Scalar, SCALE};

verus! {

/// How many terms of each power series are summed.
pub const SERIES_TERMS: u32 = 12;

/// Pi, to the millionth.
pub open spec fn spec_pi() -> Scalar {
    Scalar { raw: 3_141_593 }
}

/// The angle `deg` degrees in radians: `deg * pi / 180`.
pub open spec fn spec_deg2rad(deg: Scalar) -> Scalar {
    deg.mul(spec_pi()).div(Scalar::from_int(180))
}

/// Converts degrees to radians.
pub fn deg2rad(deg: &Scalar) -> (r: Scalar)
    ensures
        r == spec_deg2rad(*deg),
{
    deg.mul(Scalar::from_raw(3_141_593)).div(Scalar::from_int(180))
}

/// Term `k` of the sine series: `(-1)^k x^(2k+1) / (2k+1)!`, each factor
/// rounded as it is applied.
pub open spec fn sine_term(x: Scalar, k: nat) -> Scalar
    decreases k,
{
    if k == 0 {
        x
    } else {
        sine_term(x, (k - 1) as nat).mul(x.mul(x)).div(
            Scalar::from_int((2 * k * (2 * k + 1)) as i64),
        ).neg()
    }
}

/// The first `n` terms of the sine series, summed in order.
pub open spec fn sine_sum(x: Scalar, n: nat) -> Scalar
    decreases n,
{
    if n == 0 {
        Scalar::spec_zero()
    } else {
        sine_sum(x, (n - 1) as nat).add(sine_term(x, (n - 1) as nat))
    }
}

/// Term `k` of the cosine series: `(-1)^k x^(2k) / (2k)!`, each factor
/// rounded as it is applied.
pub open spec fn cosine_term(x: Scalar, k: nat) -> Scalar
    decreases k,
{
    if k == 0 {
        Scalar::spec_one()
    } else {
        cosine_term(x, (k - 1) as nat).mul(x.mul(x)).div(
            Scalar::from_int(((2 * k - 1) * (2 * k)) as i64),
        ).neg()
    }
}

/// The first `n` terms of the cosine series, summed in order.
pub open spec fn cosine_sum(x: Scalar, n: nat) -> Scalar
    decreases n,
{
    if n == 0 {
        Scalar::spec_zero()
    } else {
        cosine_sum(x, (n - 1) as nat).add(cosine_term(x, (n - 1) as nat))
    }
}

pub open spec fn spec_sin(x: Scalar) -> Scalar {
    sine_sum(x, SERIES_TERMS as nat)
}

/// The sine of `x` radians: the first twelve terms of its power series.
/// Meant for angles of at most a quarter turn.
pub fn sin(x: &Scalar) -> (r: Scalar)
    ensures
        r == spec_sin(*x),
{
    let square = x.mul(*x);
    let mut term: Scalar = *x;
    let mut sum: Scalar = Scalar::zero();
    let mut k: u32 = 0;
    while k < SERIES_TERMS
        invariant
            k <= SERIES_TERMS,
            square == x.spec_mul(*x),
            term == sine_term(*x, k as nat),
            sum == sine_sum(*x, k as nat),
        decreases SERIES_TERMS - k,
    {
        sum = sum.add(term);
        k = k + 1;
        let next: i64 = (k as i64) * 2;
        assert(0 <= next * (next + 1) <= 600 && next * (next + 1) == 2 * k * (2 * k + 1))
            by (nonlinear_arith)
            requires
                next == 2 * k,
                0 <= k <= 12,
        ;
        term = term.mul(square).div(Scalar::from_int(next * (next + 1))).neg();
    }
    sum
}

pub open spec fn spec_cos(x: Scalar) -> Scalar {
    cosine_sum(x, SERIES_TERMS as nat)
}

/// The cosine of `x` radians: the first twelve terms of its power series.
/// Meant for angles of at most a quarter turn.
pub fn cos(x: &Scalar) -> (r: Scalar)
    ensures
        r == spec_cos(*x),
{
    let square = x.mul(*x);
    let mut term: Scalar = Scalar::one();
    let mut sum: Scalar = Scalar::zero();
    let mut k: u32 = 0;
    while k < SERIES_TERMS
        invariant
            k <= SERIES_TERMS,
            square == x.spec_mul(*x),
            term == cosine_term(*x, k as nat),
            sum == cosine_sum(*x, k as nat),
        decreases SERIES_TERMS - k,
    {
        sum = sum.add(term);
        k = k + 1;
        let next: i64 = (k as i64) * 2;
        assert(0 <= (next - 1) * next <= 600 && (next - 1) * next == (2 * k - 1) * (2 * k))
            by (nonlinear_arith)
            requires
                next == 2 * k,
                1 <= k <= 12,
        ;
        term = term.mul(square).div(Scalar::from_int((next - 1) * next)).neg();
    }
    sum
}

pub open spec fn spec_tan(x: Scalar) -> Scalar {
    spec_sin(x).div(spec_cos(x))
}

/// The tangent of `x` radians: the sine over the cosine.
pub fn tan(x: &Scalar) -> (r: Scalar)
    ensures
        r == spec_tan(*x),
{
    sin(x).div(cos(x))
}

/// One step of either series: for a square `x2` of at most two and a
/// divisor of at least two, the next term is no larger than the term before
/// it and has the opposite sign.
proof fn lemma_series_step(term: Scalar, x2: Scalar, den: int)
    requires
        0 <= x2@ <= 2 * SCALE,
        2 <= den <= 600,
        -2 * SCALE <= term@ <= 2 * SCALE,
    ensures
        ({
            let next = term.mul(x2).div(Scalar::from_int(den as i64)).neg();
            &&& term@ >= 0 ==> -term@ <= next@ <= 0
            &&& term@ <= 0 ==> 0 <= next@ <= -term@
        }),
{
    let m = term.mul(x2);
    let size = if term@ >= 0 {
        term@
    } else {
        -term@
    };
    assert(-(1_000_000 * (2 * size)) <= term@ * x2@ <= 1_000_000 * (2 * size)) by (nonlinear_arith)
        requires
            -size <= term@ <= size,
            0 <= x2@ <= 2_000_000,
    ;
    lemma_quotient_bounded(term@ * x2@, 1_000_000, 2 * size);
    assert(term@ >= 0 ==> term@ * x2@ >= 0) by (nonlinear_arith)
        requires
            x2@ >= 0,
    ;
    assert(term@ <= 0 ==> term@ * x2@ <= 0) by (nonlinear_arith)
        requires
            x2@ >= 0,
    ;
    assert(-2 * size <= m@ <= 2 * size);
    assert(term@ >= 0 ==> m@ >= 0);
    assert(term@ <= 0 ==> m@ <= 0);
    let divisor = Scalar::from_int(den as i64);
    assert(divisor@ == den * 1_000_000);
    assert(-(divisor@ * size) <= m@ * 1_000_000 <= divisor@ * size) by (nonlinear_arith)
        requires
            -2 * size <= m@ <= 2 * size,
            divisor@ == den * 1_000_000,
            den >= 2,
            size >= 0,
    ;
    lemma_quotient_bounded(m@ * 1_000_000, divisor@, size);
    let q = m.div(divisor);
    assert(m@ >= 0 ==> (m@ * 1_000_000) / divisor@ >= 0) by (nonlinear_arith)
        requires
            divisor@ > 0,
    ;
    assert(m@ <= 0 ==> (-(m@ * 1_000_000)) / divisor@ >= 0) by (nonlinear_arith)
        requires
            divisor@ > 0,
    ;
    assert(-size <= q@ <= size);
    assert(m@ >= 0 ==> q@ >= 0);
    assert(m@ <= 0 ==> q@ <= 0);
}

/// The terms of the cosine series alternate and do not grow, where the
/// square of the angle is at most two.
pub proof fn lemma_cosine_terms(x: Scalar, k: nat)
    requires
        0 <= x.mul(x)@ <= 2 * SCALE,
        k <= 12,
    ensures
        k % 2 == 0 ==> 0 <= cosine_term(x, k)@ <= SCALE,
        k % 2 == 1 ==> -SCALE <= cosine_term(x, k)@ <= 0,
        k >= 1 ==> (if k % 2 == 1 {
            -cosine_term(x, k)@ <= cosine_term(x, (k - 1) as nat)@
        } else {
            cosine_term(x, k)@ <= -cosine_term(x, (k - 1) as nat)@
        }),
    decreases k,
{
    if k >= 1 {
        lemma_cosine_terms(x, (k - 1) as nat);
        let den = (2 * k - 1) * (2 * k);
        assert(2 <= den <= 600) by (nonlinear_arith)
            requires
                den == (2 * k - 1) * (2 * k),
                1 <= k <= 12,
        ;
        lemma_series_step(cosine_term(x, (k - 1) as nat), x.mul(x), den as int);
    }
}

/// The terms of the sine series alternate and do not grow, where the angle
/// is between zero and two and its square at most two.
pub proof fn lemma_sine_terms(x: Scalar, k: nat)
    requires
        0 <= x@ <= 2 * SCALE,
        0 <= x.mul(x)@ <= 2 * SCALE,
        k <= 12,
    ensures
        k % 2 == 0 ==> 0 <= sine_term(x, k)@ <= x@,
        k % 2 == 1 ==> -x@ <= sine_term(x, k)@ <= 0,
        k >= 1 ==> (if k % 2 == 1 {
            -sine_term(x, k)@ <= sine_term(x, (k - 1) as nat)@
        } else {
            sine_term(x, k)@ <= -sine_term(x, (k - 1) as nat)@
        }),
    decreases k,
{
    if k >= 1 {
        lemma_sine_terms(x, (k - 1) as nat);
        let den = 2 * k * (2 * k + 1);
        assert(2 <= den <= 600) by (nonlinear_arith)
            requires
                den == 2 * k * (2 * k + 1),
                1 <= k <= 12,
        ;
        lemma_series_step(sine_term(x, (k - 1) as nat), x.mul(x), den as int);
    }
}

/// The first two terms of the cosine series are `1` and `-x^2 / 2`.
proof fn lemma_first_cosine_terms(x: Scalar)
    requires
        0 <= x.mul(x)@ <= 2 * SCALE,
    ensures
        cosine_term(x, 0) == Scalar::spec_one(),
        cosine_term(x, 1)@ == -(x.mul(x)@ / 2),
{
    let x2 = x.mul(x);
    lemma_times_one(x2);
    assert(cosine_term(x, 1) == cosine_term(x, 0).mul(x2).div(Scalar::from_int(2)).neg()) by {
        reveal_with_fuel(cosine_term, 2);
    }
    assert(Scalar::from_int(2)@ == 2_000_000);
    assert((x2@ * 1_000_000) / 2_000_000 == x2@ / 2);
}

/// The sum of an even number of terms of the cosine series is at least the
/// sum of the first two, `1 - x^2 / 2`: every later pair adds something.
pub proof fn lemma_cosine_sum(x: Scalar, pairs: nat)
    requires
        0 <= x.mul(x)@ <= 2 * SCALE,
        1 <= pairs <= 6,
    ensures
        SCALE - x.mul(x)@ / 2 <= cosine_sum(x, 2 * pairs)@ <= 2 * pairs * SCALE,
    decreases pairs,
{
    reveal_with_fuel(cosine_sum, 3);
    lemma_cosine_terms(x, (2 * pairs - 2) as nat);
    lemma_cosine_terms(x, (2 * pairs - 1) as nat);
    if pairs == 1 {
        lemma_first_cosine_terms(x);
    } else {
        lemma_cosine_sum(x, (pairs - 1) as nat);
    }
}

/// The sum of an even number of terms of the sine series lies between zero
/// and that many times the angle.
pub proof fn lemma_sine_sum(x: Scalar, pairs: nat)
    requires
        0 <= x@ <= 2 * SCALE,
        0 <= x.mul(x)@ <= 2 * SCALE,
        pairs <= 6,
    ensures
        0 <= sine_sum(x, 2 * pairs)@ <= 2 * pairs * x@,
    decreases pairs,
{
    reveal_with_fuel(sine_sum, 3);
    if pairs >= 1 {
        lemma_sine_terms(x, (2 * pairs - 2) as nat);
        lemma_sine_terms(x, (2 * pairs - 1) as nat);
        lemma_sine_sum(x, (pairs - 1) as nat);
        assert(2 * pairs * x@ == 2 * (pairs - 1) * x@ + 2 * x@) by (nonlinear_arith);
        assert(0 <= 2 * (pairs - 1) * x@ <= 12 * x@) by (nonlinear_arith)
            requires
                1 <= pairs <= 6,
                x@ >= 0,
        ;
    }
}

/// The tangent of an angle of at most seventy-five degrees is not negative
/// and at most a hundred and ten. (The true tangent is at most 3.74; the
/// bound is a coarse one, taken from the first two terms of the cosine.)
pub proof fn lemma_tangent_bounded(x: Scalar)
    requires
        0 <= x@ <= 1_308_997,
    ensures
        0 <= spec_tan(x)@ <= 110_000_000,
        spec_cos(x)@ >= 143_263,
{
    assert(0 <= x@ * x@ <= 1_308_997 * 1_308_997) by (nonlinear_arith)
        requires
            0 <= x@ <= 1_308_997,
    ;
    let x2 = x.mul(x);
    assert(0 <= x2@ <= 1_713_473);
    lemma_cosine_sum(x, 6);
    lemma_sine_sum(x, 6);
    let sine = spec_sin(x);
    let cosine = spec_cos(x);
    assert(cosine@ >= 143_263);
    assert(0 <= sine@ <= 15_707_964);
    assert(0 <= sine@ * 1_000_000 <= cosine@ * 110_000_000) by (nonlinear_arith)
        requires
            0 <= sine@ <= 15_707_964,
            cosine@ >= 143_263,
    ;
    lemma_quotient_bounded(sine@ * 1_000_000, cosine@, 110_000_000);
    assert((sine@ * 1_000_000) / cosine@ >= 0) by (nonlinear_arith)
        requires
            sine@ >= 0,
            cosine@ > 0,
    ;
}

} // verus!
