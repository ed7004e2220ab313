//! The interface between the shading and the geometry of a scene.

use vstd::prelude::*;
use crate::material::Material;
use crate::ray::Ray;
use crate::scalar::Scalar;
use crate::vector::{Vector2f, Vector3f};

verus! {

/// A primitive of the scene. How it stores and intersects its geometry is
/// its own business; the shading sees these four queries only.
///
/// Each query is a function of the primitive and the arguments: its `spec_`
/// twin names the answer, and the contracts of the renderer are stated over
/// those names. An implementation answers the same question the same way
/// every time.
pub trait Object {
    /// What `intersect` answers.
    spec fn spec_intersect(&self, ray: Ray) -> Option<(Scalar, usize)>;

    /// Where `ray` meets the primitive first: the distance along the ray
    /// and the index of the part that was hit (the face of a mesh), or
    /// `None` if it misses.
    fn intersect(&self, ray: &Ray) -> (r: Option<(Scalar, usize)>)
        ensures
            r == self.spec_intersect(*ray),
    ;

    /// What `get_surface_properties` answers.
    spec fn spec_surface_properties(
        &self,
        point: Vector3f,
        direction: Vector3f,
        index: usize,
        uv: Vector2f,
    ) -> (Vector3f, Vector2f);

    /// The shading normal and the surface coordinates at `point`, which the
    /// ray along `direction` hit on part `index`.
    fn get_surface_properties(
        &self,
        point: &Vector3f,
        direction: &Vector3f,
        index: &usize,
        uv: &Vector2f,
    ) -> (r: (Vector3f, Vector2f))
        ensures
            r == self.spec_surface_properties(*point, *direction, *index, *uv),
    ;

    /// What `eval_diffuse_color` answers.
    spec fn spec_diffuse_color(&self, st: Vector2f) -> Vector3f;

    /// The diffuse colour of the surface at the coordinates `st`.
    fn eval_diffuse_color(&self, st: &Vector2f) -> (r: Vector3f)
        ensures
            r == self.spec_diffuse_color(*st),
    ;

    /// What `material` answers.
    spec fn spec_material(&self) -> Material;

    /// The material of the primitive.
    fn material(&self) -> (r: Material)
        ensures
            r == self.spec_material(),
    ;
}

} // verus!
