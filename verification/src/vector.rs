//! Vectors of fixed-point numbers: points, directions and colours.

use vstd::prelude::*;
use crate::scalar::{
    lemma_div_remainder, lemma_mul_remainder, lemma_product_bounded, lemma_sqrt,
    lemma_square_remainder, Scalar, SCALE,
};

verus! {

/// A pair of surface coordinates.
#[derive(Clone, Copy, Debug, PartialEq, Eq, Structural)]
pub struct Vector2f {
    pub x: Scalar,
    pub y: Scalar,
}

impl Vector2f {
    pub open spec fn spec_zero() -> Vector2f {
        Vector2f { x: Scalar::spec_zero(), y: Scalar::spec_zero() }
    }

    /// The origin of the surface coordinates.
    #[verifier::when_used_as_spec(spec_zero)]
    pub fn zero() -> (r: Vector2f)
        ensures
            r == Self::spec_zero(),
    {
        Vector2f { x: Scalar::zero(), y: Scalar::zero() }
    }
}

/// A point, a direction or a colour: three fixed-point components.
#[derive(Clone, Copy, Debug, PartialEq, Eq, Structural)]
pub struct Vector3f {
    pub x: Scalar,
    pub y: Scalar,
    pub z: Scalar,
}

impl Vector3f {
    /// The vector with the given components.
    pub fn new(x: Scalar, y: Scalar, z: Scalar) -> (r: Vector3f)
        ensures
            r == (Vector3f { x, y, z }),
    {
        Vector3f { x, y, z }
    }

    pub open spec fn spec_zero() -> Vector3f {
        Vector3f { x: Scalar::spec_zero(), y: Scalar::spec_zero(), z: Scalar::spec_zero() }
    }

    /// The zero vector: no direction, no light.
    #[verifier::when_used_as_spec(spec_zero)]
    pub fn zero() -> (r: Vector3f)
        ensures
            r == Self::spec_zero(),
    {
        Vector3f { x: Scalar::zero(), y: Scalar::zero(), z: Scalar::zero() }
    }

    pub open spec fn spec_add(self, rhs: Vector3f) -> Vector3f {
        Vector3f { x: self.x.add(rhs.x), y: self.y.add(rhs.y), z: self.z.add(rhs.z) }
    }

    /// The sum, component by component.
    #[verifier::when_used_as_spec(spec_add)]
    pub fn add(self, rhs: Vector3f) -> (r: Vector3f)
        ensures
            r == self.spec_add(rhs),
    {
        Vector3f { x: self.x.add(rhs.x), y: self.y.add(rhs.y), z: self.z.add(rhs.z) }
    }

    pub open spec fn spec_sub(self, rhs: Vector3f) -> Vector3f {
        Vector3f { x: self.x.sub(rhs.x), y: self.y.sub(rhs.y), z: self.z.sub(rhs.z) }
    }

    /// The difference, component by component.
    #[verifier::when_used_as_spec(spec_sub)]
    pub fn sub(self, rhs: Vector3f) -> (r: Vector3f)
        ensures
            r == self.spec_sub(rhs),
    {
        Vector3f { x: self.x.sub(rhs.x), y: self.y.sub(rhs.y), z: self.z.sub(rhs.z) }
    }

    pub open spec fn spec_neg(self) -> Vector3f {
        Vector3f { x: self.x.neg(), y: self.y.neg(), z: self.z.neg() }
    }

    /// The opposite vector.
    #[verifier::when_used_as_spec(spec_neg)]
    pub fn neg(self) -> (r: Vector3f)
        ensures
            r == self.spec_neg(),
    {
        Vector3f { x: self.x.neg(), y: self.y.neg(), z: self.z.neg() }
    }

    pub open spec fn spec_scale(self, k: Scalar) -> Vector3f {
        Vector3f { x: self.x.mul(k), y: self.y.mul(k), z: self.z.mul(k) }
    }

    /// Every component multiplied by `k`.
    #[verifier::when_used_as_spec(spec_scale)]
    pub fn scale(self, k: Scalar) -> (r: Vector3f)
        ensures
            r == self.spec_scale(k),
    {
        Vector3f { x: self.x.mul(k), y: self.y.mul(k), z: self.z.mul(k) }
    }

    pub open spec fn spec_wise_product(self, rhs: Vector3f) -> Vector3f {
        Vector3f { x: self.x.mul(rhs.x), y: self.y.mul(rhs.y), z: self.z.mul(rhs.z) }
    }

    /// The product, component by component.
    #[verifier::when_used_as_spec(spec_wise_product)]
    pub fn wise_product(self, rhs: Vector3f) -> (r: Vector3f)
        ensures
            r == self.spec_wise_product(rhs),
    {
        Vector3f { x: self.x.mul(rhs.x), y: self.y.mul(rhs.y), z: self.z.mul(rhs.z) }
    }

    pub open spec fn spec_dot(self, rhs: Vector3f) -> Scalar {
        self.x.mul(rhs.x).add(self.y.mul(rhs.y)).add(self.z.mul(rhs.z))
    }

    /// The inner product: the three rounded products, summed in order.
    #[verifier::when_used_as_spec(spec_dot)]
    pub fn dot(self, rhs: Vector3f) -> (r: Scalar)
        ensures
            r == self.spec_dot(rhs),
    {
        self.x.mul(rhs.x).add(self.y.mul(rhs.y)).add(self.z.mul(rhs.z))
    }

    pub open spec fn spec_norm(self) -> Scalar {
        self.dot(self).sqrt()
    }

    /// The length of the vector.
    #[verifier::when_used_as_spec(spec_norm)]
    pub fn norm(self) -> (r: Scalar)
        ensures
            r == self.spec_norm(),
    {
        self.dot(self).sqrt()
    }

    pub open spec fn spec_normalize(self) -> Vector3f {
        let len = self.norm();
        if len.raw == 0 {
            Vector3f::spec_zero()
        } else {
            Vector3f { x: self.x.div(len), y: self.y.div(len), z: self.z.div(len) }
        }
    }

    /// The vector divided by its length. A vector whose length rounds to
    /// zero has no direction: the result is then the zero vector.
    #[verifier::when_used_as_spec(spec_normalize)]
    pub fn normalize(self) -> (r: Vector3f)
        ensures
            r == self.spec_normalize(),
            self == Self::spec_zero() ==> r == Self::spec_zero(),
    {
        let len = self.norm();
        if len.raw == 0 {
            Vector3f::zero()
        } else {
            Vector3f { x: self.x.div(len), y: self.y.div(len), z: self.z.div(len) }
        }
    }
}

/// The squared length of a vector, in squared raw units.
pub open spec fn squared_length(v: Vector3f) -> int {
    v.x@ * v.x@ + v.y@ * v.y@ + v.z@ * v.z@
}

/// The vector has length one, up to sixteen millionths in its squared
/// length.
pub open spec fn is_unit(v: Vector3f) -> bool {
    -16 * SCALE <= squared_length(v) - SCALE * SCALE <= 16 * SCALE
}

/// The components of a unit vector are at most one and eight millionths in
/// size.
pub(crate) proof fn lemma_unit_components(v: Vector3f)
    requires
        is_unit(v),
    ensures
        -(SCALE + 8) <= v.x@ <= SCALE + 8,
        -(SCALE + 8) <= v.y@ <= SCALE + 8,
        -(SCALE + 8) <= v.z@ <= SCALE + 8,
{
    let (x, y, z) = (v.x@, v.y@, v.z@);
    assert(x * x >= 0 && y * y >= 0 && z * z >= 0) by (nonlinear_arith);
    assert(-1_000_008 <= x <= 1_000_008) by (nonlinear_arith)
        requires
            x * x <= 1_000_000 * 1_000_000 + 16 * 1_000_000,
    ;
    assert(-1_000_008 <= y <= 1_000_008) by (nonlinear_arith)
        requires
            y * y <= 1_000_000 * 1_000_000 + 16 * 1_000_000,
    ;
    assert(-1_000_008 <= z <= 1_000_008) by (nonlinear_arith)
        requires
            z * z <= 1_000_000 * 1_000_000 + 16 * 1_000_000,
    ;
}

/// Normalising yields a unit vector: a vector with components of at most a
/// million in size and a length of at least three quarters normalises to a
/// vector whose squared length is one up to sixteen millionths.
pub proof fn lemma_normalize_is_unit(v: Vector3f)
    requires
        -1_000_000_000_000 <= v.x@ <= 1_000_000_000_000,
        -1_000_000_000_000 <= v.y@ <= 1_000_000_000_000,
        -1_000_000_000_000 <= v.z@ <= 1_000_000_000_000,
        v.norm()@ >= 750_000,
    ensures
        is_unit(v.normalize()),
{
    let e1 = lemma_square_remainder(v.x);
    let e2 = lemma_square_remainder(v.y);
    let e3 = lemma_square_remainder(v.z);
    let dd = v.dot(v);
    assert(dd@ == v.x.mul(v.x)@ + v.y.mul(v.y)@ + v.z.mul(v.z)@);
    let len = v.norm();
    assert(len == dd.sqrt());
    lemma_sqrt(dd);
    assert(dd@ > 0);
    let l = len@;
    let squares = v.x@ * v.x@ + v.y@ * v.y@ + v.z@ * v.z@;
    let e = e1 + e2 + e3;
    let h = dd@ * SCALE - l * l;
    assert(squares == l * l + h + e);
    assert(0 <= h <= 2 * l) by (nonlinear_arith)
        requires
            l * l <= dd@ * SCALE < (l + 1) * (l + 1),
            h == dd@ * SCALE - l * l,
    ;
    // No component is much longer than the whole vector.
    assert(squares < (l + 5) * (l + 5)) by (nonlinear_arith)
        requires
            squares == l * l + h + e,
            0 <= h <= 2 * l,
            0 <= e < 3_000_000,
            l >= 750_000,
    ;
    assert(v.x@ * v.x@ >= 0 && v.y@ * v.y@ >= 0 && v.z@ * v.z@ >= 0) by (nonlinear_arith);
    assert(-(l + 4) <= v.x@ <= l + 4) by (nonlinear_arith)
        requires
            v.x@ * v.x@ < (l + 5) * (l + 5),
            l >= 0,
    ;
    assert(-(l + 4) <= v.y@ <= l + 4) by (nonlinear_arith)
        requires
            v.y@ * v.y@ < (l + 5) * (l + 5),
            l >= 0,
    ;
    assert(-(l + 4) <= v.z@ <= l + 4) by (nonlinear_arith)
        requires
            v.z@ * v.z@ < (l + 5) * (l + 5),
            l >= 0,
    ;
    let rest_x = lemma_div_remainder(v.x, len);
    let rest_y = lemma_div_remainder(v.y, len);
    let rest_z = lemma_div_remainder(v.z, len);
    let n = v.normalize();
    assert(n.x == v.x.div(len) && n.y == v.y.div(len) && n.z == v.z.div(len));
    let products = v.x@ * rest_x + v.y@ * rest_y + v.z@ * rest_z;
    let rests = rest_x * rest_x + rest_y * rest_y + rest_z * rest_z;
    assert(l * l * (n.x@ * n.x@) == SCALE * SCALE * (v.x@ * v.x@) - 2 * SCALE * (v.x@ * rest_x) + rest_x * rest_x)
        by (nonlinear_arith)
        requires
            SCALE * v.x@ == l * n.x@ + rest_x,
    ;
    assert(l * l * (n.y@ * n.y@) == SCALE * SCALE * (v.y@ * v.y@) - 2 * SCALE * (v.y@ * rest_y) + rest_y * rest_y)
        by (nonlinear_arith)
        requires
            SCALE * v.y@ == l * n.y@ + rest_y,
    ;
    assert(l * l * (n.z@ * n.z@) == SCALE * SCALE * (v.z@ * v.z@) - 2 * SCALE * (v.z@ * rest_z) + rest_z * rest_z)
        by (nonlinear_arith)
        requires
            SCALE * v.z@ == l * n.z@ + rest_z,
    ;
    let delta = squared_length(n) - SCALE * SCALE;
    assert(l * l * delta == SCALE * SCALE * (h + e) - 2 * SCALE * products + rests)
        by (nonlinear_arith)
        requires
            delta == n.x@ * n.x@ + n.y@ * n.y@ + n.z@ * n.z@ - SCALE * SCALE,
            l * l * (n.x@ * n.x@) == SCALE * SCALE * (v.x@ * v.x@) - 2 * SCALE * (v.x@ * rest_x) + rest_x
                * rest_x,
            l * l * (n.y@ * n.y@) == SCALE * SCALE * (v.y@ * v.y@) - 2 * SCALE * (v.y@ * rest_y) + rest_y
                * rest_y,
            l * l * (n.z@ * n.z@) == SCALE * SCALE * (v.z@ * v.z@) - 2 * SCALE * (v.z@ * rest_z) + rest_z
                * rest_z,
            v.x@ * v.x@ + v.y@ * v.y@ + v.z@ * v.z@ == l * l + h + e,
            products == v.x@ * rest_x + v.y@ * rest_y + v.z@ * rest_z,
            rests == rest_x * rest_x + rest_y * rest_y + rest_z * rest_z,
    ;
    lemma_product_bounded(v.x@, rest_x, l + 4, l);
    lemma_product_bounded(v.y@, rest_y, l + 4, l);
    lemma_product_bounded(v.z@, rest_z, l + 4, l);
    lemma_product_bounded(rest_x, rest_x, l, l);
    lemma_product_bounded(rest_y, rest_y, l, l);
    lemma_product_bounded(rest_z, rest_z, l, l);
    assert(rest_x * rest_x >= 0 && rest_y * rest_y >= 0 && rest_z * rest_z >= 0) by (nonlinear_arith);
    assert(0 <= products <= 3 * ((l + 4) * l));
    assert(0 <= rests <= 3 * (l * l));
    // At most: S^2 (2 l + 3 S) + 3 l^2 <= 16 S l^2 for l >= 3 S / 4.
    assert(1_000_000 * 1_000_000 * (2 * l + 3_000_000) + 3 * (l * l) <= 16_000_000 * (l * l))
        by (nonlinear_arith)
        requires
            l >= 750_000,
    ;
    // At least: 6 S (l + 4) l <= 16 S l^2.
    assert(2_000_000 * (3 * ((l + 4) * l)) <= 16_000_000 * (l * l)) by (nonlinear_arith)
        requires
            l >= 750_000,
    ;
    assert(-16_000_000 <= delta <= 16_000_000) by (nonlinear_arith)
        requires
            l * l * delta == 1_000_000 * 1_000_000 * (h + e) - 2_000_000 * products + rests,
            0 <= h <= 2 * l,
            0 <= e < 3_000_000,
            0 <= products <= 3 * ((l + 4) * l),
            0 <= rests <= 3 * (l * l),
            1_000_000 * 1_000_000 * (2 * l + 3_000_000) + 3 * (l * l) <= 16_000_000 * (l * l),
            2_000_000 * (3 * ((l + 4) * l)) <= 16_000_000 * (l * l),
            l >= 750_000,
    ;
}

/// A vector with components of at most a million in size and a squared
/// length of at least 0.6 normalises to a unit vector.
pub proof fn lemma_long_vector_normalizes(v: Vector3f)
    requires
        -1_000_000_000_000 <= v.x@ <= 1_000_000_000_000,
        -1_000_000_000_000 <= v.y@ <= 1_000_000_000_000,
        -1_000_000_000_000 <= v.z@ <= 1_000_000_000_000,
        squared_length(v) >= 600_000_000_000,
    ensures
        is_unit(v.normalize()),
{
    let g1 = lemma_square_remainder(v.x);
    let g2 = lemma_square_remainder(v.y);
    let g3 = lemma_square_remainder(v.z);
    let vv = v.dot(v);
    assert(vv@ == v.x.mul(v.x)@ + v.y.mul(v.y)@ + v.z.mul(v.z)@);
    assert(SCALE * vv@ == squared_length(v) - (g1 + g2 + g3));
    assert(vv@ >= 599_997);
    lemma_sqrt(vv);
    let len = v.norm()@;
    if len < 750_000 {
        assert((len + 1) * (len + 1) <= 750_000 * 750_000) by (nonlinear_arith)
            requires
                0 <= len < 750_000,
        ;
    }
    lemma_normalize_is_unit(v);
}

/// The product of two squares is the square of the product.
proof fn lemma_square_of_product(a: int, b: int)
    ensures
        (a * a) * (b * b) == (a * b) * (a * b),
{
    assert((a * a) * (b * b) == (a * b) * (a * b)) by (nonlinear_arith);
}

/// A product does not depend on the order of its factors.
proof fn lemma_commute(a: int, b: int)
    ensures
        a * b == b * a,
{
    assert(a * b == b * a) by (nonlinear_arith);
}

/// A product distributes over a sum of three.
pub(crate) proof fn lemma_distribute(k: int, a: int, b: int, c: int)
    ensures
        k * (a + b + c) == k * a + k * b + k * c,
{
    assert(k * (a + b + c) == k * a + k * b + k * c) by (nonlinear_arith);
}

/// The square of a sum of three, term by term.
proof fn lemma_square_of_sum(a: int, b: int, c: int)
    ensures
        (a + b + c) * (a + b + c) == a * a + b * b + c * c + 2 * (a * b) + 2 * (a * c) + 2 * (b * c),
{
    assert((a + b + c) * (a + b + c) == a * a + b * b + c * c + 2 * (a * b) + 2 * (a * c) + 2 * (b
        * c)) by (nonlinear_arith);
}

/// The square of a difference, term by term.
proof fn lemma_square_of_difference(a: int, b: int)
    ensures
        (a - b) * (a - b) == a * a + b * b - 2 * (a * b),
{
    assert((a - b) * (a - b) == a * a + b * b - 2 * (a * b)) by (nonlinear_arith);
}

/// Two products keep their product when they trade a factor.
proof fn lemma_swap_factors(a: int, b: int, c: int, d: int)
    ensures
        (a * b) * (c * d) == (a * d) * (c * b),
{
    assert((a * b) * (c * d) == (a * d) * (c * b)) by (nonlinear_arith);
}

/// The inequality of Cauchy and Schwarz for unit vectors: their exact inner
/// product is at most one and sixteen millionths in size, and the rounded
/// one at most one and nineteen millionths.
pub proof fn lemma_unit_dot_bounded(d: Vector3f, n: Vector3f)
    requires
        is_unit(d),
        is_unit(n),
    ensures
        -(1_000_000 * 1_000_000 + 16_000_000) <= d.x@ * n.x@ + d.y@ * n.y@ + d.z@ * n.z@
            <= 1_000_000 * 1_000_000 + 16_000_000,
        -1_000_019 <= d.dot(n)@ <= 1_000_019,
{
    lemma_unit_components(d);
    lemma_unit_components(n);
    let (d1, d2, d3) = (d.x@, d.y@, d.z@);
    let (n1, n2, n3) = (n.x@, n.y@, n.z@);
    let dots = d1 * n1 + d2 * n2 + d3 * n3;
    let dd = squared_length(d);
    let nn = squared_length(n);
    // The identity of Lagrange, over the nine products of the components:
    // |d|^2 |n|^2 - (d . n)^2 is the sum of the squares of the three minors.
    let (a11, a12, a13) = (d1 * n1, d1 * n2, d1 * n3);
    let (a21, a22, a23) = (d2 * n1, d2 * n2, d2 * n3);
    let (a31, a32, a33) = (d3 * n1, d3 * n2, d3 * n3);
    lemma_square_of_product(d1, n1);
    lemma_square_of_product(d1, n2);
    lemma_square_of_product(d1, n3);
    lemma_square_of_product(d2, n1);
    lemma_square_of_product(d2, n2);
    lemma_square_of_product(d2, n3);
    lemma_square_of_product(d3, n1);
    lemma_square_of_product(d3, n2);
    lemma_square_of_product(d3, n3);
    lemma_distribute(dd, n1 * n1, n2 * n2, n3 * n3);
    lemma_distribute(n1 * n1, d1 * d1, d2 * d2, d3 * d3);
    lemma_distribute(n2 * n2, d1 * d1, d2 * d2, d3 * d3);
    lemma_distribute(n3 * n3, d1 * d1, d2 * d2, d3 * d3);
    lemma_commute(dd, n1 * n1);
    lemma_commute(dd, n2 * n2);
    lemma_commute(dd, n3 * n3);
    lemma_commute(n1 * n1, d1 * d1);
    lemma_commute(n1 * n1, d2 * d2);
    lemma_commute(n1 * n1, d3 * d3);
    lemma_commute(n2 * n2, d1 * d1);
    lemma_commute(n2 * n2, d2 * d2);
    lemma_commute(n2 * n2, d3 * d3);
    lemma_commute(n3 * n3, d1 * d1);
    lemma_commute(n3 * n3, d2 * d2);
    lemma_commute(n3 * n3, d3 * d3);
    assert(dd * nn == a11 * a11 + a12 * a12 + a13 * a13 + a21 * a21 + a22 * a22 + a23 * a23 + a31
        * a31 + a32 * a32 + a33 * a33);
    lemma_square_of_sum(a11, a22, a33);
    lemma_swap_factors(d1, n1, d2, n2);
    lemma_swap_factors(d1, n1, d3, n3);
    lemma_swap_factors(d2, n2, d3, n3);
    let x = a12 - a21;
    let y = a13 - a31;
    let z = a23 - a32;
    lemma_square_of_difference(a12, a21);
    lemma_square_of_difference(a13, a31);
    lemma_square_of_difference(a23, a32);
    assert(dd * nn - dots * dots == x * x + y * y + z * z);
    assert(x * x >= 0 && y * y >= 0 && z * z >= 0) by (nonlinear_arith);
    let bound = 1_000_000 * 1_000_000 + 16_000_000;
    assert(dd * nn <= bound * bound) by (nonlinear_arith)
        requires
            0 <= dd <= bound,
            0 <= nn <= bound,
    ;
    assert(-bound <= dots <= bound) by (nonlinear_arith)
        requires
            dots * dots <= bound * bound,
            bound >= 0,
    ;
    lemma_product_bounded(d1, n1, 1_000_008, 1_000_008);
    lemma_product_bounded(d2, n2, 1_000_008, 1_000_008);
    lemma_product_bounded(d3, n3, 1_000_008, 1_000_008);
    let e1 = lemma_mul_remainder(d.x, n.x);
    let e2 = lemma_mul_remainder(d.y, n.y);
    let e3 = lemma_mul_remainder(d.z, n.z);
    assert(d.dot(n)@ == d.x.mul(n.x)@ + d.y.mul(n.y)@ + d.z.mul(n.z)@);
}

} // verus!
