//! How a surface scatters light.

use vstd::prelude::*;
use crate::scalar::Scalar;

verus! {

/// The behaviour of a surface. It alone decides which branch of the
/// shading applies to a hit.
#[derive(Clone, Copy, Debug, PartialEq, Eq, Structural)]
pub enum MaterialType {
    /// Direct illumination only: a diffuse and a glossy term per light.
    DiffuseAndGlossy,
    /// A mirror weighted by the Fresnel reflectance.
    Reflection,
    /// A dielectric: reflection and refraction blended by the Fresnel
    /// reflectance.
    ReflectionAndRefraction,
}

/// The material of a primitive.
#[derive(Clone, Copy, Debug, PartialEq, Eq, Structural)]
pub struct Material {
    /// Which shading branch the surface takes.
    pub kind: MaterialType,
    /// Diffuse coefficient.
    pub kd: Scalar,
    /// Specular coefficient.
    pub ks: Scalar,
    /// Shininess: the exponent of the specular highlight.
    pub specular_exponent: u32,
    /// Index of refraction; one is vacuum.
    pub ior: Scalar,
}

impl Material {
    /// The material with the given behaviour and parameters.
    pub fn new(kind: MaterialType, kd: Scalar, ks: Scalar, specular_exponent: u32, ior: Scalar) -> (r:
        Material)
        ensures
            r == (Material { kind, kd, ks, specular_exponent, ior }),
    {
        Material { kind, kd, ks, specular_exponent, ior }
    }
}

} // verus!
