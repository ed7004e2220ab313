//! Point lights.

use vstd::prelude::*;
use crate::vector::Vector3f;

verus! {

/// A point light: where it stands and how much it radiates per channel.
#[derive(Clone, Copy, Debug, PartialEq, Eq, Structural)]
pub struct Light {
    pub position: Vector3f,
    pub intensity: Vector3f,
}

impl Light {
    /// The light at `position` with the given `intensity`.
    pub fn new(position: Vector3f, intensity: Vector3f) -> (r: Light)
        ensures
            r == (Light { position, intensity }),
    {
        Light { position, intensity }
    }
}

} // verus!
