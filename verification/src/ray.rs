//! Rays.

use vstd::prelude::*;
use crate::scalar::Scalar;
use crate::vector::Vector3f;

verus! {

/// A ray: the points `origin + s * direction` for `s > 0`. The caller
/// normalises `direction`. The field `t` is a travel time, which a still
/// scene leaves at zero.
#[derive(Clone, Copy, Debug, PartialEq, Eq, Structural)]
pub struct Ray {
    pub origin: Vector3f,
    pub direction: Vector3f,
    pub t: Scalar,
}

impl Ray {
    /// The ray from `origin` along `direction`.
    pub fn new(origin: Vector3f, direction: Vector3f, t: Scalar) -> (r: Ray)
        ensures
            r == (Ray { origin, direction, t }),
    {
        Ray { origin, direction, t }
    }

    pub open spec fn spec_at(self, s: Scalar) -> Vector3f {
        self.origin.add(self.direction.scale(s))
    }

    /// The point at distance `s` along the ray.
    #[verifier::when_used_as_spec(spec_at)]
    pub fn at(self, s: Scalar) -> (r: Vector3f)
        ensures
            r == self.spec_at(s),
    {
        self.origin.add(self.direction.scale(s))
    }
}

} // verus!
