//! Directions of reflected and refracted rays, and the Fresnel reflectance
//! of a dielectric surface.

use vstd::prelude::*;
use crate::scalar::{
    lemma_mul_remainder, lemma_product_bounded, lemma_product_nonnegative, lemma_quotient_bounded,
    lemma_sqrt, lemma_square_bounded, quotient, Scalar, SCALE,
};
use crate::vector::{
    is_unit, lemma_distribute, lemma_long_vector_normalizes, lemma_unit_components,
    lemma_unit_dot_bounded,
    squared_length, Vector3f,
};

verus! {

/// The mirror image of the incoming direction `d` about the normal `n`:
/// `d - 2 (d . n) n`.
pub open spec fn spec_reflect(d: Vector3f, n: Vector3f) -> Vector3f {
    d.sub(n.scale(Scalar::from_int(2).mul(d.dot(n))))
}

/// The direction in which a ray that arrives along `input` leaves a mirror
/// with normal `normal`. The caller normalises it.
pub fn reflect(input: &Vector3f, normal: &Vector3f) -> (r: Vector3f)
    ensures
        r == spec_reflect(*input, *normal),
{
    input.sub(normal.scale(Scalar::from_int(2).mul(input.dot(*normal))))
}

/// One component of the reflected direction times the same component of
/// the normal, with what the three roundings on the way dropped.
proof fn lemma_reflected_component(d: Scalar, n: Scalar, m: Scalar) -> (r: (int, int))
    requires
        -(SCALE + 8) <= d@ <= SCALE + 8,
        -(SCALE + 8) <= n@ <= SCALE + 8,
        -(6 * SCALE + 102) <= m@ <= 6 * SCALE + 102,
    ensures
        -SCALE < r.0 < SCALE,
        -SCALE < r.1 < SCALE,
        SCALE * SCALE * d.sub(n.mul(m)).mul(n)@ == SCALE * (d@ * n@) - m@ * (n@ * n@) + r.0 * n@
            - SCALE * r.1,
{
    lemma_product_bounded(n@, m@, 1_000_008, 6_000_102);
    let f = lemma_mul_remainder(n, m);
    let c = n.mul(m);
    assert(-7_000_000 <= c@ <= 7_000_000);
    let r = d.sub(c);
    assert(r@ == d@ - c@);
    lemma_product_bounded(r@, n@, 8_000_008, 1_000_008);
    let g = lemma_mul_remainder(r, n);
    let u = r.mul(n);
    assert(SCALE * SCALE * u@ == SCALE * (d@ * n@) - m@ * (n@ * n@) + f * n@ - SCALE * g)
        by (nonlinear_arith)
        requires
            SCALE * u@ == r@ * n@ - g,
            r@ == d@ - c@,
            SCALE * c@ == n@ * m@ - f,
    ;
    (f, g)
}

/// The angle of reflection is the angle of incidence: for unit vectors `d`
/// and `n`, the reflected direction has along the normal the component
/// `-(d . n)`, up to 105 millionths of rounding; up to nine millionths where
/// the squared length of the normal is exactly one.
pub proof fn lemma_reflection_mirrors_incidence(d: Vector3f, n: Vector3f)
    requires
        is_unit(d),
        is_unit(n),
    ensures
        -105 <= spec_reflect(d, n).dot(n)@ + d.dot(n)@ <= 105,
        squared_length(n) == SCALE * SCALE ==> -9 <= spec_reflect(d, n).dot(n)@ + d.dot(n)@ <= 9,
{
    lemma_unit_components(d);
    lemma_unit_components(n);
    lemma_product_bounded(d.x@, n.x@, 1_000_008, 1_000_008);
    lemma_product_bounded(d.y@, n.y@, 1_000_008, 1_000_008);
    lemma_product_bounded(d.z@, n.z@, 1_000_008, 1_000_008);
    let e1 = lemma_mul_remainder(d.x, n.x);
    let e2 = lemma_mul_remainder(d.y, n.y);
    let e3 = lemma_mul_remainder(d.z, n.z);
    let dn = d.dot(n);
    assert(dn@ == d.x.mul(n.x)@ + d.y.mul(n.y)@ + d.z.mul(n.z)@);
    assert(-(3 * SCALE + 51) <= dn@ <= 3 * SCALE + 51);
    let m = Scalar::from_int(2).mul(dn);
    assert(m@ == 2 * dn@) by {
        assert((2_000_000 * dn@) / 1_000_000 == 2 * dn@);
        assert((-(2_000_000 * dn@)) / 1_000_000 == -(2 * dn@));
    }
    let (f1, g1) = lemma_reflected_component(d.x, n.x, m);
    let (f2, g2) = lemma_reflected_component(d.y, n.y, m);
    let (f3, g3) = lemma_reflected_component(d.z, n.z, m);
    let r = spec_reflect(d, n);
    let u1 = r.x.mul(n.x)@;
    let u2 = r.y.mul(n.y)@;
    let u3 = r.z.mul(n.z)@;
    assert(-9_000_000 <= u1 <= 9_000_000) by (nonlinear_arith)
        requires
            SCALE * SCALE * u1 == SCALE * (d.x@ * n.x@) - m@ * (n.x@ * n.x@) + f1 * n.x@ - SCALE * g1,
            -(SCALE + 8) * (SCALE + 8) <= d.x@ * n.x@ <= (SCALE + 8) * (SCALE + 8),
            -(SCALE + 8) <= n.x@ <= SCALE + 8,
            -(6 * SCALE + 102) <= m@ <= 6 * SCALE + 102,
            -SCALE < f1 < SCALE,
            -SCALE < g1 < SCALE,
            SCALE == 1_000_000,
    ;
    assert(-9_000_000 <= u2 <= 9_000_000) by (nonlinear_arith)
        requires
            SCALE * SCALE * u2 == SCALE * (d.y@ * n.y@) - m@ * (n.y@ * n.y@) + f2 * n.y@ - SCALE * g2,
            -(SCALE + 8) * (SCALE + 8) <= d.y@ * n.y@ <= (SCALE + 8) * (SCALE + 8),
            -(SCALE + 8) <= n.y@ <= SCALE + 8,
            -(6 * SCALE + 102) <= m@ <= 6 * SCALE + 102,
            -SCALE < f2 < SCALE,
            -SCALE < g2 < SCALE,
            SCALE == 1_000_000,
    ;
    assert(-9_000_000 <= u3 <= 9_000_000) by (nonlinear_arith)
        requires
            SCALE * SCALE * u3 == SCALE * (d.z@ * n.z@) - m@ * (n.z@ * n.z@) + f3 * n.z@ - SCALE * g3,
            -(SCALE + 8) * (SCALE + 8) <= d.z@ * n.z@ <= (SCALE + 8) * (SCALE + 8),
            -(SCALE + 8) <= n.z@ <= SCALE + 8,
            -(6 * SCALE + 102) <= m@ <= 6 * SCALE + 102,
            -SCALE < f3 < SCALE,
            -SCALE < g3 < SCALE,
            SCALE == 1_000_000,
    ;
    let rn = r.dot(n);
    assert(rn@ == u1 + u2 + u3);
    let delta = squared_length(n) - SCALE * SCALE;
    let rounding = SCALE * (e1 + e2 + e3) + (f1 * n.x@ + f2 * n.y@ + f3 * n.z@) - SCALE * (g1 + g2
        + g3);
    assert(SCALE * SCALE * (rn@ + dn@) == rounding - 2 * (dn@ * delta)) by (nonlinear_arith)
        requires
            rn@ == u1 + u2 + u3,
            SCALE * SCALE * u1 == SCALE * (d.x@ * n.x@) - m@ * (n.x@ * n.x@) + f1 * n.x@ - SCALE * g1,
            SCALE * SCALE * u2 == SCALE * (d.y@ * n.y@) - m@ * (n.y@ * n.y@) + f2 * n.y@ - SCALE * g2,
            SCALE * SCALE * u3 == SCALE * (d.z@ * n.z@) - m@ * (n.z@ * n.z@) + f3 * n.z@ - SCALE * g3,
            SCALE * dn@ == d.x@ * n.x@ + d.y@ * n.y@ + d.z@ * n.z@ - (e1 + e2 + e3),
            m@ == 2 * dn@,
            delta == n.x@ * n.x@ + n.y@ * n.y@ + n.z@ * n.z@ - SCALE * SCALE,
            rounding == SCALE * (e1 + e2 + e3) + (f1 * n.x@ + f2 * n.y@ + f3 * n.z@) - SCALE * (g1
                + g2 + g3),
    ;
    lemma_product_bounded(f1, n.x@, 999_999, 1_000_008);
    lemma_product_bounded(f2, n.y@, 999_999, 1_000_008);
    lemma_product_bounded(f3, n.z@, 999_999, 1_000_008);
    lemma_product_bounded(dn@, delta, 3_000_051, 16_000_000);
    assert(-105 <= rn@ + dn@ <= 105) by (nonlinear_arith)
        requires
            1_000_000 * 1_000_000 * (rn@ + dn@) == rounding - 2 * (dn@ * delta),
            -9_000_021_000_000 <= rounding <= 9_000_021_000_000,
            -48_000_816_000_000 <= dn@ * delta <= 48_000_816_000_000,
    ;
    if delta == 0 {
        assert(dn@ * delta == 0) by (nonlinear_arith)
            requires
                delta == 0,
        ;
        assert(-9 <= rn@ + dn@ <= 9);
    }
}

/// The square of `S d - n m`, term by term.
proof fn lemma_binomial_square(d: int, n: int, m: int)
    ensures
        (SCALE * d - n * m) * (SCALE * d - n * m) == 1_000_000_000_000 * (d * d) - 2_000_000 * (m * (d
            * n)) + (m * m) * (n * n),
{
    assert((1_000_000 * d - n * m) * (1_000_000 * d - n * m) == 1_000_000_000_000 * (d * d) - 2_000_000
        * (m * (d * n)) + (m * m) * (n * n)) by (nonlinear_arith);
}

/// A mirror keeps rays unit: for unit vectors `d` and `n`, the reflected
/// direction, once normalised, is a unit vector again.
pub proof fn lemma_reflection_is_unit(d: Vector3f, n: Vector3f)
    requires
        is_unit(d),
        is_unit(n),
    ensures
        is_unit(spec_reflect(d, n).normalize()),
{
    lemma_unit_components(d);
    lemma_unit_components(n);
    lemma_product_bounded(d.x@, n.x@, 1_000_008, 1_000_008);
    lemma_product_bounded(d.y@, n.y@, 1_000_008, 1_000_008);
    lemma_product_bounded(d.z@, n.z@, 1_000_008, 1_000_008);
    let e1 = lemma_mul_remainder(d.x, n.x);
    let e2 = lemma_mul_remainder(d.y, n.y);
    let e3 = lemma_mul_remainder(d.z, n.z);
    let dn = d.dot(n)@;
    assert(dn == d.x.mul(n.x)@ + d.y.mul(n.y)@ + d.z.mul(n.z)@);
    let m = Scalar::from_int(2).mul(d.dot(n));
    assert(m@ == 2 * dn) by {
        assert((2_000_000 * dn) / 1_000_000 == 2 * dn);
        assert((-(2_000_000 * dn)) / 1_000_000 == -(2 * dn));
    }
    lemma_product_bounded(n.x@, m@, 1_000_008, 6_000_102);
    lemma_product_bounded(n.y@, m@, 1_000_008, 6_000_102);
    lemma_product_bounded(n.z@, m@, 1_000_008, 6_000_102);
    let f1 = lemma_mul_remainder(n.x, m);
    let f2 = lemma_mul_remainder(n.y, m);
    let f3 = lemma_mul_remainder(n.z, m);
    let r = spec_reflect(d, n);
    assert(r.x@ == d.x@ - n.x.mul(m)@);
    assert(r.y@ == d.y@ - n.y.mul(m)@);
    assert(r.z@ == d.z@ - n.z.mul(m)@);
    // The exact part of each component, a million times over.
    let a1 = SCALE * d.x@ - n.x@ * m@;
    let a2 = SCALE * d.y@ - n.y@ * m@;
    let a3 = SCALE * d.z@ - n.z@ * m@;
    assert(SCALE * r.x@ == a1 + f1 && SCALE * r.y@ == a2 + f2 && SCALE * r.z@ == a3 + f3);
    let exact = a1 * a1 + a2 * a2 + a3 * a3;
    let mixed = a1 * f1 + a2 * f2 + a3 * f3;
    let dropped = f1 * f1 + f2 * f2 + f3 * f3;
    let length2 = squared_length(r);
    assert(SCALE * SCALE * (r.x@ * r.x@) == a1 * a1 + 2 * (a1 * f1) + f1 * f1) by (nonlinear_arith)
        requires
            SCALE * r.x@ == a1 + f1,
    ;
    assert(SCALE * SCALE * (r.y@ * r.y@) == a2 * a2 + 2 * (a2 * f2) + f2 * f2) by (nonlinear_arith)
        requires
            SCALE * r.y@ == a2 + f2,
    ;
    assert(SCALE * SCALE * (r.z@ * r.z@) == a3 * a3 + 2 * (a3 * f3) + f3 * f3) by (nonlinear_arith)
        requires
            SCALE * r.z@ == a3 + f3,
    ;
    assert(SCALE * SCALE * length2 == exact + 2 * mixed + dropped) by (nonlinear_arith)
        requires
            length2 == r.x@ * r.x@ + r.y@ * r.y@ + r.z@ * r.z@,
            SCALE * SCALE * (r.x@ * r.x@) == a1 * a1 + 2 * (a1 * f1) + f1 * f1,
            SCALE * SCALE * (r.y@ * r.y@) == a2 * a2 + 2 * (a2 * f2) + f2 * f2,
            SCALE * SCALE * (r.z@ * r.z@) == a3 * a3 + 2 * (a3 * f3) + f3 * f3,
            exact == a1 * a1 + a2 * a2 + a3 * a3,
            mixed == a1 * f1 + a2 * f2 + a3 * f3,
            dropped == f1 * f1 + f2 * f2 + f3 * f3,
    ;
    let delta_d = squared_length(d) - SCALE * SCALE;
    let delta_n = squared_length(n) - SCALE * SCALE;
    let e = e1 + e2 + e3;
    let q = dn * dn;
    let mm = m@ * m@;
    let dots = d.x@ * n.x@ + d.y@ * n.y@ + d.z@ * n.z@;
    lemma_binomial_square(d.x@, n.x@, m@);
    lemma_binomial_square(d.y@, n.y@, m@);
    lemma_binomial_square(d.z@, n.z@, m@);
    lemma_distribute(m@, d.x@ * n.x@, d.y@ * n.y@, d.z@ * n.z@);
    lemma_distribute(mm, n.x@ * n.x@, n.y@ * n.y@, n.z@ * n.z@);
    assert(m@ * dots == 2_000_000 * q + 2 * (dn * e)) by (nonlinear_arith)
        requires
            m@ == 2 * dn,
            dots == 1_000_000 * dn + e,
            q == dn * dn,
    ;
    assert(mm == 4 * q) by (nonlinear_arith)
        requires
            mm == m@ * m@,
            m@ == 2 * dn,
            q == dn * dn,
    ;
    assert(mm * squared_length(n) == 4_000_000_000_000 * q + 4 * (q * delta_n)) by (nonlinear_arith)
        requires
            mm == 4 * q,
            squared_length(n) == 1_000_000 * 1_000_000 + delta_n,
    ;
    assert(exact == 1_000_000_000_000 * (1_000_000_000_000 + delta_d) - 4_000_000 * (dn * e) + 4 * (q
        * delta_n));
    assert(-3_000_051 <= dn <= 3_000_051);
    lemma_product_bounded(dn, e, 3_000_051, 3_000_000);
    lemma_product_bounded(dn, dn, 3_000_051, 3_000_051);
    assert(dn * dn >= 0) by (nonlinear_arith);
    lemma_product_bounded(q, delta_n, 9_000_306_002_601, 16_000_000);
    lemma_product_bounded(n.x@, m@, 1_000_008, 6_000_102);
    assert(-7_000_200_000_000 <= a1 <= 7_000_200_000_000);
    assert(-7_000_200_000_000 <= a2 <= 7_000_200_000_000);
    assert(-7_000_200_000_000 <= a3 <= 7_000_200_000_000);
    lemma_product_bounded(a1, f1, 7_000_200_000_000, 1_000_000);
    lemma_product_bounded(a2, f2, 7_000_200_000_000, 1_000_000);
    lemma_product_bounded(a3, f3, 7_000_200_000_000, 1_000_000);
    assert(f1 * f1 >= 0 && f2 * f2 >= 0 && f3 * f3 >= 0) by (nonlinear_arith);
    assert(length2 >= 990_000_000_000) by (nonlinear_arith)
        requires
            1_000_000 * 1_000_000 * length2 == exact + 2 * mixed + dropped,
            exact == 1_000_000_000_000 * (1_000_000_000_000 + delta_d) - 4_000_000 * (dn * e) + 4 * (q
                * delta_n),
            -16_000_000 <= delta_d,
            -9_000_153_000_000 <= dn * e <= 9_000_153_000_000,
            -144_004_896_041_616_000_000 <= q * delta_n,
            -21_000_600_000_000_000_000 <= mixed,
            dropped >= 0,
    ;
    // From the squared length to the length.
    assert(-8_001_000 <= r.x@ <= 8_001_000);
    assert(-8_001_000 <= r.y@ <= 8_001_000);
    assert(-8_001_000 <= r.z@ <= 8_001_000);
    lemma_long_vector_normalizes(r);
}

/// The cosine of the angle of incidence: `d . n` held within [-1, 1].
/// It is negative where the ray enters the surface from outside.
pub open spec fn incidence_cosine(d: Vector3f, n: Vector3f) -> Scalar {
    d.dot(n).clamp(Scalar::one().neg(), Scalar::one())
}

/// The ratio of the refractive index on the side the ray comes from to
/// the index on the side it goes to, for a surface of index `ior` in vacuum.
pub open spec fn index_ratio(d: Vector3f, n: Vector3f, ior: Scalar) -> Scalar {
    if incidence_cosine(d, n).raw < 0 {
        Scalar::one().div(ior)
    } else {
        ior.div(Scalar::one())
    }
}

/// The greatest ratio of refractive indices for which the laws on refracted
/// directions are stated: sixty-four.
pub const MAX_INDEX_RATIO: i64 = 64_000_000;

/// The refractive index is positive, and the index on the side the ray comes
/// from is at most sixty-four times the index on the side it goes to.
///
/// The bound is a limit of the arithmetic, not of the machine. A unit vector
/// is unit only up to sixteen millionths, and the refracted direction carries
/// that error multiplied by the square of the ratio: at a ratio of five
/// hundred a refracted direction can round to the zero vector although the
/// discriminant is not negative. Every ray that enters a medium of index one
/// or more is within the limit, whatever the index.
pub open spec fn index_within_limit(d: Vector3f, n: Vector3f, ior: Scalar) -> bool {
    ior@ > 0 && index_ratio(d, n, ior)@ <= MAX_INDEX_RATIO
}

/// The discriminant `k = 1 - eta^2 (1 - cos^2)` of Snell's law. No refracted
/// ray exists where it is negative.
pub open spec fn refract_discriminant(d: Vector3f, n: Vector3f, ior: Scalar) -> Scalar {
    let cosi = incidence_cosine(d, n).abs();
    let eta = index_ratio(d, n, ior);
    Scalar::one().sub(eta.mul(eta).mul(Scalar::one().sub(cosi.mul(cosi))))
}

/// The surface reflects the ray `d` totally: Snell's law has no solution.
pub open spec fn total_internal_reflection(d: Vector3f, n: Vector3f, ior: Scalar) -> bool {
    refract_discriminant(d, n, ior).raw < 0
}

/// The refracted direction `eta d + (eta cos - sqrt(k)) n'`, where `n'` is
/// the normal turned against the ray, or the zero vector under total
/// internal reflection.
pub open spec fn spec_refract(d: Vector3f, n: Vector3f, ior: Scalar) -> Vector3f {
    let signed = incidence_cosine(d, n);
    let cosi = signed.abs();
    let facing = if signed.raw < 0 {
        n
    } else {
        n.neg()
    };
    let eta = index_ratio(d, n, ior);
    let k = refract_discriminant(d, n, ior);
    if k.raw < 0 {
        Vector3f::spec_zero()
    } else {
        d.scale(eta).add(facing.scale(eta.mul(cosi).sub(k.sqrt())))
    }
}

/// The direction of the ray `input` after it crosses a surface with normal
/// `normal` and refractive index `ior`. Where the discriminant of Snell's law
/// is negative the surface reflects totally: the result is then the zero
/// vector, there is no refracted ray, and the caller casts none. For unit
/// vectors and a ratio of indices within the limit the result is the zero
/// vector in that case only.
pub fn refract(input: &Vector3f, normal: &Vector3f, ior: &Scalar) -> (r: Vector3f)
    ensures
        r == spec_refract(*input, *normal, *ior),
        total_internal_reflection(*input, *normal, *ior) ==> r == Vector3f::spec_zero(),
        is_unit(*input) && is_unit(*normal) && index_within_limit(*input, *normal, *ior) ==> (r
            == Vector3f::spec_zero() <==> total_internal_reflection(*input, *normal, *ior)),
{
    proof {
        if is_unit(*input) && is_unit(*normal) && index_within_limit(*input, *normal, *ior)
            && !total_internal_reflection(*input, *normal, *ior) {
            lemma_refraction_exists(*input, *normal, *ior);
        }
    }
    let signed = input.dot(*normal).clamp(Scalar::one().neg(), Scalar::one());
    let cosi = signed.abs();
    let entering = signed.raw < 0;
    let facing = if entering {
        *normal
    } else {
        normal.neg()
    };
    let eta = if entering {
        Scalar::one().div(*ior)
    } else {
        ior.div(Scalar::one())
    };
    let k = Scalar::one().sub(eta.mul(eta).mul(Scalar::one().sub(cosi.mul(cosi))));
    if k.raw < 0 {
        Vector3f::zero()
    } else {
        input.scale(eta).add(facing.scale(eta.mul(cosi).sub(k.sqrt())))
    }
}

/// The square of `d eta + f c`, term by term.
proof fn lemma_blend_square(d: int, eta: int, f: int, c: int)
    ensures
        (d * eta + f * c) * (d * eta + f * c) == (eta * eta) * (d * d) + 2 * ((eta * c) * (d * f)) + (c
            * c) * (f * f),
{
    let p = d * eta;
    let q = f * c;
    assert((p + q) * (p + q) == p * p + 2 * (p * q) + q * q) by (nonlinear_arith);
    assert((d * eta) * (d * eta) == (eta * eta) * (d * d)) by (nonlinear_arith);
    assert((f * c) * (f * c) == (c * c) * (f * f)) by (nonlinear_arith);
    assert((d * eta) * (f * c) == (eta * c) * (d * f)) by (nonlinear_arith);
}

/// A square loses at most twice the mixed product when its base is moved:
/// `(a - x)^2 >= a^2 - 2 a x`.
proof fn lemma_square_moved(a: int, x: int)
    ensures
        (a - x) * (a - x) >= a * a - 2 * (a * x),
{
    assert((a - x) * (a - x) >= a * a - 2 * (a * x)) by (nonlinear_arith);
}

/// The heart of Snell's law: with `X = eta C - t - S root` the three main
/// terms of the squared length of the refracted direction come to
/// `eta^2 (S^2 - C^2) + (t + S root)^2`.
proof fn lemma_snell_identity(eta: int, cc: int, t: int, rk: int, c: int) -> (main: int)
    requires
        SCALE * c == eta * cc - t - SCALE * rk,
    ensures
        main == 1_000_000_000_000 * (eta * eta) - 2_000_000 * ((eta * c) * cc) + 1_000_000_000_000
            * (c * c),
        main == (eta * eta) * (1_000_000_000_000 - cc * cc) + (t + 1_000_000 * rk) * (t + 1_000_000
            * rk),
{
    let x = 1_000_000 * c;
    let g = eta * cc;
    assert(1_000_000_000_000 * (c * c) == x * x) by (nonlinear_arith)
        requires
            x == 1_000_000 * c,
    ;
    assert(1_000_000 * ((eta * c) * cc) == g * x) by (nonlinear_arith)
        requires
            x == 1_000_000 * c,
            g == eta * cc,
    ;
    assert(x * x - 2 * (g * x) == (x - g) * (x - g) - g * g) by (nonlinear_arith);
    assert(g * g == (eta * eta) * (cc * cc)) by (nonlinear_arith)
        requires
            g == eta * cc,
    ;
    assert((x - g) * (x - g) == (t + 1_000_000 * rk) * (t + 1_000_000 * rk)) by (nonlinear_arith)
        requires
            x - g == -(t + 1_000_000 * rk),
    ;
    assert((eta * eta) * (1_000_000_000_000 - cc * cc) == 1_000_000_000_000 * (eta * eta) - (eta
        * eta) * (cc * cc)) by (nonlinear_arith);
    1_000_000_000_000 * (eta * eta) - 2_000_000 * ((eta * c) * cc) + 1_000_000_000_000 * (c * c)
}

/// For unit vectors `d` and `n` and a ratio of indices within the limit, the
/// refracted direction has a length near one wherever the discriminant is not
/// negative: its squared length is at least 0.68.
proof fn lemma_refraction_is_long(d: Vector3f, n: Vector3f, ior: Scalar)
    requires
        is_unit(d),
        is_unit(n),
        index_within_limit(d, n, ior),
        !total_internal_reflection(d, n, ior),
    ensures
        squared_length(spec_refract(d, n, ior)) >= 680_000_000_000,
        -129_000_000 <= spec_refract(d, n, ior).x@ <= 129_000_000,
        -129_000_000 <= spec_refract(d, n, ior).y@ <= 129_000_000,
        -129_000_000 <= spec_refract(d, n, ior).z@ <= 129_000_000,
{
    lemma_unit_components(d);
    lemma_unit_components(n);
    lemma_unit_dot_bounded(d, n);
    lemma_product_bounded(d.x@, n.x@, 1_000_008, 1_000_008);
    lemma_product_bounded(d.y@, n.y@, 1_000_008, 1_000_008);
    lemma_product_bounded(d.z@, n.z@, 1_000_008, 1_000_008);
    let e = lemma_mul_remainder(d.x, n.x) + lemma_mul_remainder(d.y, n.y) + lemma_mul_remainder(
        d.z,
        n.z,
    );
    let dots = d.x@ * n.x@ + d.y@ * n.y@ + d.z@ * n.z@;
    let dn = d.dot(n)@;
    assert(dn == d.x.mul(n.x)@ + d.y.mul(n.y)@ + d.z.mul(n.z)@);
    assert(SCALE * dn == dots - e);
    let signed = incidence_cosine(d, n);
    let cosi = signed.abs();
    let cc = cosi@;
    let entering = signed.raw < 0;
    let kappa = if dn < 0 {
        -dn - cc
    } else {
        dn - cc
    };
    assert(0 <= kappa <= 19 && 0 <= cc <= SCALE);
    let f = if entering {
        n
    } else {
        n.neg()
    };
    let fd = d.x@ * f.x@ + d.y@ * f.y@ + d.z@ * f.z@;
    let ff = f.x@ * f.x@ + f.y@ * f.y@ + f.z@ * f.z@;
    let ep = if entering {
        e
    } else {
        -e
    };
    let delta_n = squared_length(n) - SCALE * SCALE;
    let delta_d = squared_length(d) - SCALE * SCALE;
    assert(fd == -SCALE * (cc + kappa) + ep && ff == SCALE * SCALE + delta_n) by {
        if !entering {
            assert(d.x@ * (-n.x@) == -(d.x@ * n.x@) && d.y@ * (-n.y@) == -(d.y@ * n.y@) && d.z@ * (
            -n.z@) == -(d.z@ * n.z@)) by (nonlinear_arith);
            assert((-n.x@) * (-n.x@) == n.x@ * n.x@ && (-n.y@) * (-n.y@) == n.y@ * n.y@ && (-n.z@)
                * (-n.z@) == n.z@ * n.z@) by (nonlinear_arith);
        }
    }
    // The ratio of the indices is not negative and at most sixty-four.
    let eta = index_ratio(d, n, ior);
    assert(0 <= eta@ <= 64_000_000) by {
        if entering {
            assert(0 <= 1_000_000_000_000int / ior@ <= 1_000_000_000_000) by (nonlinear_arith)
                requires
                    ior@ > 0,
            ;
        } else {
            assert((ior@ * 1_000_000) / 1_000_000 == ior@);
        }
    }
    // The discriminant, piece by piece.
    lemma_product_bounded(cc, cc, 1_000_000, 1_000_000);
    let rho = lemma_mul_remainder(cosi, cosi);
    assert(cc * cc >= 0) by (nonlinear_arith);
    assert(rho >= 0);
    let c2 = cosi.mul(cosi);
    lemma_square_bounded(cosi);
    let s2 = Scalar::one().sub(c2);
    assert(s2@ == SCALE - c2@ && 0 <= s2@ <= SCALE);
    lemma_product_bounded(eta@, eta@, 64_000_000, 64_000_000);
    let rho2 = lemma_mul_remainder(eta, eta);
    assert(eta@ * eta@ >= 0) by (nonlinear_arith);
    let eta2 = eta.mul(eta);
    assert(0 <= eta2@ <= 4_096_000_000);
    lemma_product_bounded(eta2@, s2@, 4_096_000_000, 1_000_000);
    let rho3 = lemma_mul_remainder(eta2, s2);
    assert(eta2@ * s2@ >= 0) by (nonlinear_arith)
        requires
            eta2@ >= 0,
            s2@ >= 0,
    ;
    let w = eta2.mul(s2);
    assert(0 <= w@ <= 4_096_000_000);
    let k = refract_discriminant(d, n, ior);
    assert(k@ == SCALE - w@);
    assert(0 <= k@ <= SCALE);
    lemma_sqrt(k);
    let rk = k.sqrt()@;
    assert(0 <= rk <= SCALE) by {
        if k@ > 0 && rk > SCALE {
            assert(rk * rk > 1_000_000 * 1_000_000) by (nonlinear_arith)
                requires
                    rk > 1_000_000,
            ;
        }
    }
    lemma_product_bounded(eta@, cc, 64_000_000, 1_000_000);
    let t = lemma_mul_remainder(eta, cosi);
    assert(eta@ * cc >= 0) by (nonlinear_arith)
        requires
            eta@ >= 0,
            cc >= 0,
    ;
    let c0 = eta.mul(cosi);
    let c = c0.sub(k.sqrt());
    assert(c@ == c0@ - rk && -1_000_000 <= c@ <= 64_000_000 && 0 <= t < SCALE);
    // The refracted direction, component by component.
    let r = spec_refract(d, n, ior);
    assert(r == d.scale(eta).add(f.scale(c)));
    lemma_product_bounded(d.x@, eta@, 1_000_008, 64_000_000);
    lemma_product_bounded(d.y@, eta@, 1_000_008, 64_000_000);
    lemma_product_bounded(d.z@, eta@, 1_000_008, 64_000_000);
    lemma_product_bounded(f.x@, c@, 1_000_008, 64_000_000);
    lemma_product_bounded(f.y@, c@, 1_000_008, 64_000_000);
    lemma_product_bounded(f.z@, c@, 1_000_008, 64_000_000);
    let u1 = lemma_mul_remainder(d.x, eta);
    let u2 = lemma_mul_remainder(d.y, eta);
    let u3 = lemma_mul_remainder(d.z, eta);
    let v1 = lemma_mul_remainder(f.x, c);
    let v2 = lemma_mul_remainder(f.y, c);
    let v3 = lemma_mul_remainder(f.z, c);
    assert(SCALE * r.x@ == d.x@ * eta@ - u1 + f.x@ * c@ - v1);
    assert(SCALE * r.y@ == d.y@ * eta@ - u2 + f.y@ * c@ - v2);
    assert(SCALE * r.z@ == d.z@ * eta@ - u3 + f.z@ * c@ - v3);
    let a1 = d.x@ * eta@ + f.x@ * c@;
    let a2 = d.y@ * eta@ + f.y@ * c@;
    let a3 = d.z@ * eta@ + f.z@ * c@;
    let (x1, x2, x3) = (u1 + v1, u2 + v2, u3 + v3);
    // The squared length loses little to the rounding of the components.
    lemma_square_moved(a1, x1);
    lemma_square_moved(a2, x2);
    lemma_square_moved(a3, x3);
    lemma_product_bounded(a1, x1, 128_001_024_000_000, 2_000_000);
    lemma_product_bounded(a2, x2, 128_001_024_000_000, 2_000_000);
    lemma_product_bounded(a3, x3, 128_001_024_000_000, 2_000_000);
    assert((SCALE * r.x@) * (SCALE * r.x@) == 1_000_000_000_000 * (r.x@ * r.x@) && (SCALE * r.y@) * (
    SCALE * r.y@) == 1_000_000_000_000 * (r.y@ * r.y@) && (SCALE * r.z@) * (SCALE * r.z@)
        == 1_000_000_000_000 * (r.z@ * r.z@)) by (nonlinear_arith)
        requires
            SCALE == 1_000_000,
    ;
    let exact = a1 * a1 + a2 * a2 + a3 * a3;
    assert(1_000_000_000_000 * squared_length(r) >= exact - 1_536_012_288_000_000_000_000);
    // The exact part: eta^2 |d|^2 + 2 eta c (d . f) + c^2 |f|^2.
    let hh = eta@ * eta@;
    let hc = eta@ * c@;
    let c2 = c@ * c@;
    lemma_blend_square(d.x@, eta@, f.x@, c@);
    lemma_blend_square(d.y@, eta@, f.y@, c@);
    lemma_blend_square(d.z@, eta@, f.z@, c@);
    lemma_distribute(hh, d.x@ * d.x@, d.y@ * d.y@, d.z@ * d.z@);
    lemma_distribute(hc, d.x@ * f.x@, d.y@ * f.y@, d.z@ * f.z@);
    lemma_distribute(c2, f.x@ * f.x@, f.y@ * f.y@, f.z@ * f.z@);
    assert(exact == hh * squared_length(d) + 2 * (hc * fd) + c2 * ff);
    assert(hh * squared_length(d) == 1_000_000_000_000 * hh + hh * delta_d) by (nonlinear_arith)
        requires
            squared_length(d) == 1_000_000_000_000 + delta_d,
    ;
    assert(hc * fd == -1_000_000 * (hc * cc) - 1_000_000 * (hc * kappa) + hc * ep)
        by (nonlinear_arith)
        requires
            fd == -1_000_000 * (cc + kappa) + ep,
    ;
    assert(c2 * ff == 1_000_000_000_000 * c2 + c2 * delta_n) by (nonlinear_arith)
        requires
            ff == 1_000_000_000_000 + delta_n,
    ;
    let main = lemma_snell_identity(eta@, cc, t, rk, c@);
    assert(exact == main + hh * delta_d - 2_000_000 * (hc * kappa) + 2 * (hc * ep) + c2 * delta_n);
    // The main part is one, up to rounding: eta^2 sin^2 + k.
    assert((t + 1_000_000 * rk) * (t + 1_000_000 * rk) >= 1_000_000_000_000 * (rk * rk))
        by (nonlinear_arith)
        requires
            t >= 0,
            rk >= 0,
    ;
    assert(rk * rk >= k@ * 1_000_000 - 2 * rk) by {
        if k@ > 0 {
            assert((rk + 1) * (rk + 1) == rk * rk + 2 * rk + 1) by (nonlinear_arith);
        }
    }
    assert(hh * (1_000_000_000_000 - cc * cc) == 1_000_000 * (hh * s2@) - hh * rho)
        by (nonlinear_arith)
        requires
            1_000_000 * s2@ == 1_000_000_000_000 - cc * cc + rho,
    ;
    assert(hh * s2@ >= 1_000_000 * (eta2@ * s2@)) by (nonlinear_arith)
        requires
            hh == 1_000_000 * eta2@ + rho2,
            rho2 >= 0,
            s2@ >= 0,
    ;
    assert(hh >= 0 && c2 >= 0) by (nonlinear_arith)
        requires
            hh == eta@ * eta@,
            c2 == c@ * c@,
    ;
    lemma_product_bounded(c@, c@, 64_000_000, 64_000_000);
    lemma_product_bounded(eta@, c@, 64_000_000, 64_000_000);
    lemma_product_bounded(hh, rho, 4_096_000_000_000_000, 1_000_000);
    lemma_product_bounded(hh, delta_d, 4_096_000_000_000_000, 16_000_000);
    lemma_product_bounded(hc, kappa, 4_096_000_000_000_000, 19);
    lemma_product_bounded(hc, ep, 4_096_000_000_000_000, 3_000_000);
    lemma_product_bounded(c2, delta_n, 4_096_000_000_000_000, 16_000_000);
    assert(main >= 1_000_000_000_000_000_000_000_000 - 4_099_000_000_000_000_000_000);
    assert(exact >= 1_000_000_000_000_000_000_000_000 - 315_400_000_000_000_000_000_000);
}

/// Under Snell's law a ray is refracted wherever it is not reflected
/// totally: for unit vectors `d` and `n` and a ratio of indices within the
/// limit, the refracted direction is not the zero vector unless the
/// discriminant is negative.
pub proof fn lemma_refraction_exists(d: Vector3f, n: Vector3f, ior: Scalar)
    requires
        is_unit(d),
        is_unit(n),
        index_within_limit(d, n, ior),
        !total_internal_reflection(d, n, ior),
    ensures
        spec_refract(d, n, ior) != Vector3f::spec_zero(),
{
    lemma_refraction_is_long(d, n, ior);
}

/// A dielectric keeps rays unit: for unit vectors `d` and `n` and a ratio of
/// indices within the limit, the refracted direction, once normalised, is a
/// unit vector wherever there is one.
pub proof fn lemma_refraction_is_unit(d: Vector3f, n: Vector3f, ior: Scalar)
    requires
        is_unit(d),
        is_unit(n),
        index_within_limit(d, n, ior),
        !total_internal_reflection(d, n, ior),
    ensures
        is_unit(spec_refract(d, n, ior).normalize()),
{
    lemma_refraction_is_long(d, n, ior);
    let r = spec_refract(d, n, ior);
    lemma_long_vector_normalizes(r);
}

/// No ray is reflected totally on its way into a denser medium: where the
/// ray enters and the index is one or more, the discriminant is not
/// negative; and for unit vectors the refracted direction is then not the
/// zero vector, however large the index.
pub proof fn lemma_entering_a_denser_medium_refracts(d: Vector3f, n: Vector3f, ior: Scalar)
    requires
        incidence_cosine(d, n)@ < 0,
        ior@ >= SCALE,
    ensures
        !total_internal_reflection(d, n, ior),
        index_within_limit(d, n, ior),
        is_unit(d) && is_unit(n) ==> spec_refract(d, n, ior) != Vector3f::spec_zero(),
{
    let cosi = incidence_cosine(d, n).abs();
    let eta = index_ratio(d, n, ior);
    assert(0 <= eta@ <= SCALE) by {
        assert(0 <= 1_000_000_000_000int / ior@ <= 1_000_000) by (nonlinear_arith)
            requires
                ior@ >= 1_000_000,
        ;
    }
    lemma_square_bounded(cosi);
    lemma_square_bounded(eta);
    let rest = Scalar::one().sub(cosi.mul(cosi));
    lemma_product_bounded(eta.mul(eta)@, rest@, 1_000_000, 1_000_000);
    lemma_quotient_bounded(eta.mul(eta)@ * rest@, 1_000_000, 1_000_000);
    if is_unit(d) && is_unit(n) {
        lemma_refraction_exists(d, n, ior);
    }
}

/// The sine of the angle of the transmitted ray, by Snell's law:
/// `eta sqrt(max(0, 1 - cos^2))`.
pub open spec fn transmission_sine(d: Vector3f, n: Vector3f, ior: Scalar) -> Scalar {
    let cosi = incidence_cosine(d, n);
    index_ratio(d, n, ior).mul(Scalar::spec_zero().max(Scalar::one().sub(cosi.mul(cosi))).sqrt())
}

/// One of the two Fresnel amplitude ratios `(a - b) / (a + b)`.
pub open spec fn amplitude_ratio(a: Scalar, b: Scalar) -> Scalar {
    a.sub(b).div(a.add(b))
}

/// The share of the light that a dielectric surface reflects, by the exact
/// Fresnel equations for unpolarised light. It is one under total internal
/// reflection, which shows in either of two ways: the discriminant of Snell's
/// law is negative, as `refract` finds it, or the sine of the transmitted
/// angle reaches one. In exact arithmetic the two agree; rounded, either may
/// show first, and both count.
pub open spec fn spec_fresnel(d: Vector3f, n: Vector3f, ior: Scalar) -> Scalar {
    let signed = incidence_cosine(d, n);
    let (etai, etat) = if signed.raw < 0 {
        (Scalar::spec_one(), ior)
    } else {
        (ior, Scalar::spec_one())
    };
    let sint = transmission_sine(d, n, ior);
    if total_internal_reflection(d, n, ior) || sint.raw >= Scalar::spec_one().raw {
        Scalar::spec_one()
    } else {
        let cost = Scalar::spec_zero().max(Scalar::one().sub(sint.mul(sint))).sqrt();
        let cosi = signed.abs();
        let rs = amplitude_ratio(etat.mul(cosi), etai.mul(cost));
        let rp = amplitude_ratio(etai.mul(cosi), etat.mul(cost));
        rs.mul(rs).add(rp.mul(rp)).div(Scalar::from_int(2))
    }
}

/// The amplitude ratio of two non-negative numbers lies between minus one
/// and one.
proof fn lemma_amplitude_ratio_bounded(a: Scalar, b: Scalar)
    requires
        a@ >= 0,
        b@ >= 0,
    ensures
        -SCALE <= amplitude_ratio(a, b)@ <= SCALE,
{
    let num = a.sub(b);
    let den = a.add(b);
    if den@ != 0 {
        assert(-(den@ * SCALE) <= num@ * SCALE <= den@ * SCALE) by (nonlinear_arith)
            requires
                -den@ <= num@ <= den@,
                SCALE > 0,
        ;
        lemma_quotient_bounded(num@ * SCALE, den@, SCALE as int);
    }
}

/// The Fresnel reflectance of a surface whose refractive index is not
/// negative is a share: it lies between zero and one.
pub proof fn lemma_fresnel_is_a_share(d: Vector3f, n: Vector3f, ior: Scalar)
    requires
        ior@ >= 0,
    ensures
        0 <= spec_fresnel(d, n, ior)@ <= SCALE,
{
    let signed = incidence_cosine(d, n);
    let (etai, etat) = if signed.raw < 0 {
        (Scalar::spec_one(), ior)
    } else {
        (ior, Scalar::spec_one())
    };
    let sint = transmission_sine(d, n, ior);
    if !total_internal_reflection(d, n, ior) && sint.raw < Scalar::spec_one().raw {
        let cost = Scalar::spec_zero().max(Scalar::one().sub(sint.mul(sint))).sqrt();
        let cosi = signed.abs();
        lemma_sqrt(Scalar::spec_zero().max(Scalar::one().sub(sint.mul(sint))));
        lemma_product_nonnegative(etat, cosi);
        lemma_product_nonnegative(etai, cost);
        lemma_product_nonnegative(etai, cosi);
        lemma_product_nonnegative(etat, cost);
        let rs = amplitude_ratio(etat.mul(cosi), etai.mul(cost));
        let rp = amplitude_ratio(etai.mul(cosi), etat.mul(cost));
        lemma_amplitude_ratio_bounded(etat.mul(cosi), etai.mul(cost));
        lemma_amplitude_ratio_bounded(etai.mul(cosi), etat.mul(cost));
        lemma_square_bounded(rs);
        lemma_square_bounded(rp);
        let sum = rs.mul(rs).add(rp.mul(rp));
        assert(0 <= sum@ <= 2 * SCALE);
        lemma_quotient_bounded(sum@ * SCALE, 2 * SCALE, SCALE as int);
        assert(quotient(sum@ * SCALE, 2 * SCALE) >= 0) by (nonlinear_arith)
            requires
                sum@ >= 0,
                SCALE > 0,
        ;
    }
}

fn ratio(a: Scalar, b: Scalar) -> (r: Scalar)
    ensures
        r == amplitude_ratio(a, b),
{
    a.sub(b).div(a.add(b))
}

/// The Fresnel reflectance of a surface with normal `normal` and refractive
/// index `ior` for a ray that arrives along `input`. It is exactly one
/// wherever `refract` finds no refracted ray, and wherever the sine of the
/// transmitted angle reaches one: at and beyond the critical angle all light
/// is reflected, and the share `1 - kr` of the refracted ray is zero.
pub fn fresnel(input: &Vector3f, normal: &Vector3f, ior: &Scalar) -> (r: Scalar)
    ensures
        r == spec_fresnel(*input, *normal, *ior),
        total_internal_reflection(*input, *normal, *ior) ==> r == Scalar::spec_one(),
        transmission_sine(*input, *normal, *ior)@ >= SCALE ==> r == Scalar::spec_one(),
        ior@ >= 0 ==> 0 <= r@ <= SCALE,
{
    proof {
        if ior@ >= 0 {
            lemma_fresnel_is_a_share(*input, *normal, *ior);
        }
    }
    let signed = input.dot(*normal).clamp(Scalar::one().neg(), Scalar::one());
    let entering = signed.raw < 0;
    let etai = if entering {
        Scalar::one()
    } else {
        *ior
    };
    let etat = if entering {
        *ior
    } else {
        Scalar::one()
    };
    let eta = if entering {
        Scalar::one().div(*ior)
    } else {
        ior.div(Scalar::one())
    };
    let cosi = signed.abs();
    let k = Scalar::one().sub(eta.mul(eta).mul(Scalar::one().sub(cosi.mul(cosi))));
    let sint = eta.mul(Scalar::zero().max(Scalar::one().sub(signed.mul(signed))).sqrt());
    if k.raw < 0 || sint.raw >= Scalar::one().raw {
        Scalar::one()
    } else {
        let cost = Scalar::zero().max(Scalar::one().sub(sint.mul(sint))).sqrt();
        let rs = ratio(etat.mul(cosi), etai.mul(cost));
        let rp = ratio(etai.mul(cosi), etat.mul(cost));
        rs.mul(rs).add(rp.mul(rp)).div(Scalar::from_int(2))
    }
}

} // verus!
