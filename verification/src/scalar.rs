//! Fixed-point real numbers.
//!
//! A [`Scalar`] holds a real number as a whole count of millionths. Sums,
//! products and quotients are rounded toward zero to the nearest millionth
//! and saturate at the ends of the 64-bit range, so every operation is total.

use vstd::prelude::*;

verus! {

/// How many raw units make up the number one.
pub const SCALE: i64 = 1_000_000;

/// The nearest value to `x` that fits in 64 bits.
pub open spec fn saturate(x: int) -> int {
    if x < i64::MIN {
        i64::MIN as int
    } else if x > i64::MAX {
        i64::MAX as int
    } else {
        x
    }
}

/// The quotient of `x` by `d` rounded toward zero (`d` is not zero).
pub open spec fn quotient(x: int, d: int) -> int
    recommends
        d != 0,
{
    if d > 0 {
        if x >= 0 {
            x / d
        } else {
            -((-x) / d)
        }
    } else {
        if x >= 0 {
            -(x / (-d))
        } else {
            (-x) / (-d)
        }
    }
}

/// `r` is the integer square root of `x`: the largest `r` whose square does
/// not exceed `x`.
pub open spec fn is_root(x: int, r: int) -> bool {
    r >= 0 && r * r <= x < (r + 1) * (r + 1)
}

/// The integer square root of `x` (meaningful for `x >= 0`).
pub open spec fn root(x: int) -> int {
    choose|r: int| is_root(x, r)
}

/// A number has at most one integer square root.
pub proof fn lemma_root_unique(x: int, r1: int, r2: int)
    requires
        is_root(x, r1),
        is_root(x, r2),
    ensures
        r1 == r2,
{
    if r1 < r2 {
        assert((r1 + 1) * (r1 + 1) <= r2 * r2) by (nonlinear_arith)
            requires
                0 <= r1 + 1 <= r2,
        ;
    } else if r2 < r1 {
        assert((r2 + 1) * (r2 + 1) <= r1 * r1) by (nonlinear_arith)
            requires
                0 <= r2 + 1 <= r1,
        ;
    }
}

/// Whatever passes for the integer square root of `x` is `root(x)`.
pub proof fn lemma_root_is(x: int, r: int)
    requires
        is_root(x, r),
    ensures
        root(x) == r,
{
    lemma_root_unique(x, r, root(x));
}

/// Every number that is not negative has an integer square root.
pub proof fn lemma_root_exists(x: int)
    requires
        x >= 0,
    ensures
        is_root(x, root(x)),
    decreases x,
{
    if x == 0 {
        assert(is_root(0, 0));
    } else {
        lemma_root_exists(x - 1);
        let r = root(x - 1);
        if (r + 1) * (r + 1) <= x {
            assert((r + 1) * (r + 1) < (r + 2) * (r + 2)) by (nonlinear_arith)
                requires
                    r >= 0,
            ;
            assert(x == (r + 1) * (r + 1));
            assert(is_root(x, r + 1));
        } else {
            assert(is_root(x, r));
        }
    }
}

/// The square root of a scalar is not negative, and for a positive scalar
/// it is the integer square root of a million times its raw value.
pub proof fn lemma_sqrt(x: Scalar)
    ensures
        x.sqrt()@ >= 0,
        x@ > 0 ==> is_root(x@ * SCALE, x.sqrt()@),
{
    if x@ > 0 {
        let wide = x@ * SCALE;
        lemma_root_exists(wide);
        let r = root(wide);
        if r >= 0x400_0000_0000 {
            assert(r * r >= 0x10_0000_0000_0000_0000_0000int) by (nonlinear_arith)
                requires
                    r >= 0x400_0000_0000,
            ;
        }
    }
}

/// A fixed-point real number: `raw` millionths.
#[derive(Clone, Copy, Debug, PartialEq, Eq, Structural)]
pub struct Scalar {
    pub raw: i64,
}

impl View for Scalar {
    type V = int;

    /// The number of millionths the scalar stands for.
    open spec fn view(&self) -> int {
        self.raw as int
    }
}

fn saturate_wide(x: i128) -> (r: i64)
    ensures
        r == saturate(x as int),
{
    if x > i64::MAX as i128 {
        i64::MAX
    } else if x < i64::MIN as i128 {
        i64::MIN
    } else {
        x as i64
    }
}

/// The integer square root of a number below 2^84, by bisection.
fn root_wide(x: i128) -> (r: i128)
    requires
        0 <= x < 0x10_0000_0000_0000_0000_0000,
    ensures
        is_root(x as int, r as int),
        r == root(x as int),
        r < 0x400_0000_0000,
{
    let mut lo: i128 = 0;
    let mut hi: i128 = 0x400_0000_0000;
    assert(0x400_0000_0000int * 0x400_0000_0000int == 0x10_0000_0000_0000_0000_0000int)
        by (nonlinear_arith);
    while hi - lo > 1
        invariant
            0 <= lo < hi <= 0x400_0000_0000,
            lo * lo <= x < hi * hi,
        decreases hi - lo,
    {
        let mid: i128 = lo + (hi - lo) / 2;
        assert(0 <= mid * mid <= 0x10_0000_0000_0000_0000_0000) by (nonlinear_arith)
            requires
                0 <= mid <= 0x400_0000_0000,
        ;
        if mid * mid <= x {
            lo = mid;
        } else {
            hi = mid;
        }
    }
    proof {
        assert(hi == lo + 1);
        lemma_root_is(x as int, lo as int);
    }
    lo
}

impl Scalar {
    /// The scalar that holds `raw` millionths.
    pub fn from_raw(raw: i64) -> (r: Scalar)
        ensures
            r@ == raw,
    {
        Scalar { raw }
    }

    pub open spec fn spec_zero() -> Scalar {
        Scalar { raw: 0 }
    }

    /// The number zero.
    #[verifier::when_used_as_spec(spec_zero)]
    pub fn zero() -> (r: Scalar)
        ensures
            r == Self::spec_zero(),
    {
        Scalar { raw: 0 }
    }

    pub open spec fn spec_one() -> Scalar {
        Scalar { raw: SCALE }
    }

    /// The number one.
    #[verifier::when_used_as_spec(spec_one)]
    pub fn one() -> (r: Scalar)
        ensures
            r == Self::spec_one(),
    {
        Scalar { raw: SCALE }
    }

    pub open spec fn spec_from_int(n: i64) -> Scalar {
        Scalar { raw: saturate(n * SCALE) as i64 }
    }

    /// The whole number `n`, saturated.
    #[verifier::when_used_as_spec(spec_from_int)]
    pub fn from_int(n: i64) -> (r: Scalar)
        ensures
            r == Self::spec_from_int(n),
    {
        let wide: i128 = n as i128 * 1_000_000;
        Scalar { raw: saturate_wide(wide) }
    }

    pub open spec fn spec_add(self, rhs: Scalar) -> Scalar {
        Scalar { raw: saturate(self.raw + rhs.raw) as i64 }
    }

    /// The saturated sum.
    #[verifier::when_used_as_spec(spec_add)]
    pub fn add(self, rhs: Scalar) -> (r: Scalar)
        ensures
            r == self.spec_add(rhs),
    {
        let wide: i128 = self.raw as i128 + rhs.raw as i128;
        Scalar { raw: saturate_wide(wide) }
    }

    pub open spec fn spec_sub(self, rhs: Scalar) -> Scalar {
        Scalar { raw: saturate(self.raw - rhs.raw) as i64 }
    }

    /// The saturated difference.
    #[verifier::when_used_as_spec(spec_sub)]
    pub fn sub(self, rhs: Scalar) -> (r: Scalar)
        ensures
            r == self.spec_sub(rhs),
    {
        let wide: i128 = self.raw as i128 - rhs.raw as i128;
        Scalar { raw: saturate_wide(wide) }
    }

    pub open spec fn spec_neg(self) -> Scalar {
        Scalar { raw: saturate(-self.raw) as i64 }
    }

    /// The saturated negation.
    #[verifier::when_used_as_spec(spec_neg)]
    pub fn neg(self) -> (r: Scalar)
        ensures
            r == self.spec_neg(),
    {
        let wide: i128 = -(self.raw as i128);
        Scalar { raw: saturate_wide(wide) }
    }

    pub open spec fn spec_abs(self) -> Scalar {
        if self.raw < 0 {
            self.spec_neg()
        } else {
            self
        }
    }

    /// The saturated absolute value.
    #[verifier::when_used_as_spec(spec_abs)]
    pub fn abs(self) -> (r: Scalar)
        ensures
            r == self.spec_abs(),
    {
        if self.raw < 0 {
            self.neg()
        } else {
            self
        }
    }

    pub open spec fn spec_max(self, rhs: Scalar) -> Scalar {
        if self.raw < rhs.raw {
            rhs
        } else {
            self
        }
    }

    /// The larger of two scalars.
    #[verifier::when_used_as_spec(spec_max)]
    pub fn max(self, rhs: Scalar) -> (r: Scalar)
        ensures
            r == self.spec_max(rhs),
    {
        if self.raw < rhs.raw {
            rhs
        } else {
            self
        }
    }

    pub open spec fn spec_clamp(self, lo: Scalar, hi: Scalar) -> Scalar {
        if self.raw < lo.raw {
            lo
        } else if self.raw > hi.raw {
            hi
        } else {
            self
        }
    }

    /// The scalar held between `lo` and `hi`.
    #[verifier::when_used_as_spec(spec_clamp)]
    pub fn clamp(self, lo: Scalar, hi: Scalar) -> (r: Scalar)
        ensures
            r == self.spec_clamp(lo, hi),
    {
        if self.raw < lo.raw {
            lo
        } else if self.raw > hi.raw {
            hi
        } else {
            self
        }
    }

    pub open spec fn spec_mul(self, rhs: Scalar) -> Scalar {
        Scalar { raw: saturate(quotient(self.raw * rhs.raw, SCALE as int)) as i64 }
    }

    /// The product, rounded toward zero and saturated.
    #[verifier::when_used_as_spec(spec_mul)]
    pub fn mul(self, rhs: Scalar) -> (r: Scalar)
        ensures
            r == self.spec_mul(rhs),
    {
        let a: i128 = self.raw as i128;
        let b: i128 = rhs.raw as i128;
        assert(-0x4000_0000_0000_0000_0000_0000_0000_0000 <= a * b
            <= 0x4000_0000_0000_0000_0000_0000_0000_0000) by (nonlinear_arith)
            requires
                -0x8000_0000_0000_0000 <= a <= 0x8000_0000_0000_0000,
                -0x8000_0000_0000_0000 <= b <= 0x8000_0000_0000_0000,
        ;
        let wide: i128 = a * b / 1_000_000;
        Scalar { raw: saturate_wide(wide) }
    }

    pub open spec fn spec_div(self, rhs: Scalar) -> Scalar {
        if rhs.raw == 0 {
            if self.raw > 0 {
                Scalar { raw: i64::MAX }
            } else if self.raw < 0 {
                Scalar { raw: i64::MIN }
            } else {
                Scalar { raw: 0 }
            }
        } else {
            Scalar { raw: saturate(quotient(self.raw * SCALE, rhs.raw as int)) as i64 }
        }
    }

    /// The quotient, rounded toward zero and saturated. A division by zero
    /// saturates by the sign of the dividend, and zero by zero is zero.
    #[verifier::when_used_as_spec(spec_div)]
    pub fn div(self, rhs: Scalar) -> (r: Scalar)
        ensures
            r == self.spec_div(rhs),
    {
        if rhs.raw == 0 {
            if self.raw > 0 {
                Scalar { raw: i64::MAX }
            } else if self.raw < 0 {
                Scalar { raw: i64::MIN }
            } else {
                Scalar { raw: 0 }
            }
        } else {
            let num: i128 = self.raw as i128 * 1_000_000;
            let den: i128 = rhs.raw as i128;
            let wide: i128 = if den > 0 {
                num / den
            } else {
                -(num / (-den))
            };
            Scalar { raw: saturate_wide(wide) }
        }
    }

    pub open spec fn spec_sqrt(self) -> Scalar {
        if self.raw <= 0 {
            Scalar { raw: 0 }
        } else {
            Scalar { raw: root(self.raw * SCALE) as i64 }
        }
    }

    /// The square root, rounded down. The root of a negative number is zero.
    #[verifier::when_used_as_spec(spec_sqrt)]
    pub fn sqrt(self) -> (r: Scalar)
        ensures
            r == self.spec_sqrt(),
            self@ > 0 ==> is_root(self@ * SCALE, r@),
    {
        if self.raw <= 0 {
            Scalar { raw: 0 }
        } else {
            let wide: i128 = root_wide(self.raw as i128 * 1_000_000);
            Scalar { raw: wide as i64 }
        }
    }

    pub open spec fn spec_powi(self, n: u32) -> Scalar
        decreases n,
    {
        if n == 0 {
            Scalar::spec_one()
        } else {
            self.spec_powi((n - 1) as u32).spec_mul(self)
        }
    }

    /// The `n`-th power, by `n` rounded multiplications.
    #[verifier::when_used_as_spec(spec_powi)]
    pub fn powi(self, n: u32) -> (r: Scalar)
        ensures
            r == self.spec_powi(n),
    {
        let mut acc: Scalar = Scalar::one();
        let mut i: u32 = 0;
        while i < n
            invariant
                i <= n,
                acc == self.spec_powi(i),
            decreases n - i,
        {
            i = i + 1;
            acc = acc.mul(self);
        }
        acc
    }
}

/// Multiplying by a number that is not negative keeps the order.
pub proof fn lemma_mul_is_monotone(a: Scalar, b: Scalar, k: Scalar)
    requires
        k@ >= 0,
        a@ >= b@,
    ensures
        a.mul(k)@ >= b.mul(k)@,
{
    assert(a@ * k@ >= b@ * k@) by (nonlinear_arith)
        requires
            k@ >= 0,
            a@ >= b@,
    ;
}

/// One is the unit of the product, and zero times anything is zero.
pub proof fn lemma_times_one(x: Scalar)
    ensures
        x.mul(Scalar::spec_one()) == x,
        Scalar::spec_one().mul(x) == x,
        x.mul(Scalar::spec_zero()) == Scalar::spec_zero(),
        Scalar::spec_zero().mul(x) == Scalar::spec_zero(),
{
    assert((x@ * 1_000_000) / 1_000_000 == x@);
    assert((-(x@ * 1_000_000)) / 1_000_000 == -x@);
    assert((1_000_000 * x@) / 1_000_000 == x@);
    assert((-(1_000_000 * x@)) / 1_000_000 == -x@);
    assert(x@ * 0 == 0 && 0 * x@ == 0);
}

/// A quotient whose dividend is at most `bound` times the divisor in size
/// is at most `bound` in size.
pub(crate) proof fn lemma_quotient_bounded(x: int, d: int, bound: int)
    requires
        d > 0,
        bound >= 0,
        -(d * bound) <= x <= d * bound,
    ensures
        -bound <= quotient(x, d) <= bound,
{
    if x >= 0 {
        assert(0 <= x / d <= bound) by (nonlinear_arith)
            requires
                d > 0,
                0 <= x <= d * bound,
        ;
    } else {
        assert(0 <= (-x) / d <= bound) by (nonlinear_arith)
            requires
                d > 0,
                0 <= -x <= d * bound,
        ;
    }
}

/// A product of two numbers of bounded size is bounded by the product of
/// the bounds.
pub(crate) proof fn lemma_product_bounded(a: int, b: int, bound_a: int, bound_b: int)
    requires
        -bound_a <= a <= bound_a,
        -bound_b <= b <= bound_b,
    ensures
        -(bound_a * bound_b) <= a * b <= bound_a * bound_b,
{
    assert(-(bound_a * bound_b) <= a * b <= bound_a * bound_b) by (nonlinear_arith)
        requires
            -bound_a <= a <= bound_a,
            -bound_b <= b <= bound_b,
    ;
}

/// The product of two non-negative numbers is not negative.
pub(crate) proof fn lemma_product_nonnegative(a: Scalar, b: Scalar)
    requires
        a@ >= 0,
        b@ >= 0,
    ensures
        a.mul(b)@ >= 0,
{
    assert(a@ * b@ >= 0) by (nonlinear_arith)
        requires
            a@ >= 0,
            b@ >= 0,
    ;
    assert((a@ * b@) / (SCALE as int) >= 0) by (nonlinear_arith)
        requires
            a@ * b@ >= 0,
            SCALE > 0,
    ;
}

/// What the rounding of a product drops: the product of two scalars of
/// moderate size differs from the exact product by less than one raw unit.
pub(crate) proof fn lemma_mul_remainder(a: Scalar, b: Scalar) -> (e: int)
    requires
        -0x7fff_ffff_ffff_ffff <= a@ * b@ <= 0x7fff_ffff_ffff_ffff,
    ensures
        -SCALE < e < SCALE,
        SCALE * a.mul(b)@ == a@ * b@ - e,
{
    let x = a@ * b@;
    if x >= 0 {
        x % 1_000_000
    } else {
        -((-x) % 1_000_000)
    }
}

/// The square of a scalar of moderate size, with what its rounding dropped.
pub(crate) proof fn lemma_square_remainder(a: Scalar) -> (e: int)
    requires
        -1_000_000_000_000 <= a@ <= 1_000_000_000_000,
    ensures
        0 <= e < SCALE,
        SCALE * a.mul(a)@ == a@ * a@ - e,
        0 <= a.mul(a)@ <= 1_000_000_000_000_000_000,
{
    assert(0 <= a@ * a@ <= 1_000_000_000_000 * 1_000_000_000_000) by (nonlinear_arith)
        requires
            -1_000_000_000_000 <= a@ <= 1_000_000_000_000,
    ;
    (a@ * a@) % 1_000_000
}

/// The square of a number between minus one and one lies between zero and
/// one.
pub(crate) proof fn lemma_square_bounded(x: Scalar)
    requires
        -SCALE <= x@ <= SCALE,
    ensures
        0 <= x.mul(x)@ <= SCALE,
{
    assert(0 <= x@ * x@ <= SCALE * SCALE) by (nonlinear_arith)
        requires
            -SCALE <= x@ <= SCALE,
    ;
    lemma_quotient_bounded(x@ * x@, SCALE as int, SCALE as int);
}

/// What the rounding of a quotient drops: `S a = b q + rest` for the
/// quotient `q` of two scalars, where the rest is smaller than the divisor
/// and has the sign of the dividend.
pub(crate) proof fn lemma_div_remainder(a: Scalar, b: Scalar) -> (rest: int)
    requires
        b@ > 0,
        -2 * b@ <= a@ <= 2 * b@,
    ensures
        -b@ < rest < b@,
        rest * a@ >= 0,
        SCALE * a@ == b@ * a.div(b)@ + rest,
{
    let x = a@ * SCALE;
    let d = b@;
    lemma_quotient_bounded(x, d, 2_000_000);
    if x >= 0 {
        assert(x == d * (x / d) + x % d && 0 <= x % d < d) by (nonlinear_arith)
            requires
                d > 0,
        ;
        let rest = x % d;
        assert(rest * a@ >= 0) by (nonlinear_arith)
            requires
                rest >= 0,
                a@ >= 0,
        ;
        rest
    } else {
        let y = -x;
        assert(y == d * (y / d) + y % d && 0 <= y % d < d) by (nonlinear_arith)
            requires
                d > 0,
        ;
        let rest = -(y % d);
        assert(d * (-(y / d)) == -(d * (y / d))) by (nonlinear_arith);
        assert(rest * a@ >= 0) by (nonlinear_arith)
            requires
                rest <= 0,
                a@ <= 0,
        ;
        rest
    }
}

} // verus!
