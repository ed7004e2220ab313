//! A Whitted-style recursive ray tracer over fixed-point arithmetic.
//!
//! A scene is a list of primitives, a list of point lights and the
//! configuration of a render. [`render`] casts one ray from the eye through
//! every pixel; [`cast_ray`] resolves a ray to a colour by the nearest hit
//! ([`trace`]), the local illumination of diffuse surfaces, and the recursion
//! through mirrors and dielectrics, weighted by the Fresnel reflectance
//! ([`fresnel`]). All numbers are fixed-point ([`scalar::Scalar`]), so that
//! every result is an exact function of the scene.

pub mod scalar;
pub mod vector;
pub mod angle;
pub mod optics;
pub mod material;
pub mod light;
pub mod ray;
pub mod object;
pub mod scene;
pub mod trace;
pub mod shading;
pub mod render;

pub use crate::light::Light;
pub use crate::material::{Material, MaterialType};
pub use crate::object::Object;
pub use crate::optics::{fresnel, reflect, refract};
pub use crate::ray::Ray;
pub use crate::render::{encode_ppm, framebuffer, quantize, render};
pub use crate::scalar::{Scalar, SCALE};
pub use crate::scene::{check_config, Scene, SceneError};
pub use crate::shading::cast_ray;
pub use crate::trace::{trace, HitPayload};
pub use crate::vector::{Vector2f, Vector3f};
