//! The scene: primitives, lights and the configuration of a render.

use vstd::prelude::*;
use crate::light::Light;
use crate::scalar::{Scalar, SCALE};
use crate::vector::Vector3f;

verus! {

/// Why a configuration is refused when a scene is built.
#[derive(Clone, Copy, Debug, PartialEq, Eq, Structural)]
pub enum SceneError {
    /// The image has no columns.
    Width,
    /// The image has no rows.
    Height,
    /// The field of view is not strictly between 0 and 180 degrees.
    FieldOfView,
    /// The self-intersection offset is negative.
    Epsilon,
    /// The depth limit is negative, or so large that the depth of a
    /// secondary ray could not be counted.
    MaxDepth,
}

/// The first fault of a configuration, in the order width, height, field of
/// view, epsilon, depth limit; `None` for a valid one.
pub open spec fn config_error(
    width: usize,
    height: usize,
    fov: Scalar,
    epsilon: Scalar,
    max_depth: i32,
) -> Option<SceneError> {
    if width == 0 {
        Some(SceneError::Width)
    } else if height == 0 {
        Some(SceneError::Height)
    } else if fov@ <= 0 || fov@ >= 180 * SCALE {
        Some(SceneError::FieldOfView)
    } else if epsilon@ < 0 {
        Some(SceneError::Epsilon)
    } else if max_depth < 0 || max_depth == i32::MAX {
        Some(SceneError::MaxDepth)
    } else {
        None
    }
}

/// Finds the first fault of a configuration.
pub fn check_config(width: usize, height: usize, fov: Scalar, epsilon: Scalar, max_depth: i32) -> (r:
    Option<SceneError>)
    ensures
        r == config_error(width, height, fov, epsilon, max_depth),
{
    if width == 0 {
        Some(SceneError::Width)
    } else if height == 0 {
        Some(SceneError::Height)
    } else if fov.raw <= 0 || fov.raw >= 180_000_000 {
        Some(SceneError::FieldOfView)
    } else if epsilon.raw < 0 {
        Some(SceneError::Epsilon)
    } else if max_depth < 0 || max_depth == i32::MAX {
        Some(SceneError::MaxDepth)
    } else {
        None
    }
}

/// A scene. It is built once and only read while it is rendered.
pub struct Scene<O> {
    /// The primitives, in the order they were added.
    pub objects: Vec<O>,
    /// The lights, in the order they were added.
    pub lights: Vec<Light>,
    /// Columns of the image.
    pub width: usize,
    /// Rows of the image.
    pub height: usize,
    /// Vertical field of view, in degrees.
    pub fov: Scalar,
    /// The colour of a ray that hits nothing.
    pub background_color: Vector3f,
    /// How far the origin of a secondary or shadow ray is moved off the
    /// surface.
    pub epsilon: Scalar,
    /// The greatest depth at which a ray is still shaded.
    pub max_depth: i32,
}

impl<O> Scene<O> {
    /// The configuration is valid.
    pub open spec fn wf(&self) -> bool {
        config_error(self.width, self.height, self.fov, self.epsilon, self.max_depth) is None
    }

    /// An empty scene with the given configuration, or the first fault of
    /// the configuration.
    pub fn new(
        width: usize,
        height: usize,
        fov: Scalar,
        background_color: Vector3f,
        epsilon: Scalar,
        max_depth: i32,
    ) -> (r: Result<Scene<O>, SceneError>)
        ensures
            r is Ok <==> config_error(width, height, fov, epsilon, max_depth) is None,
            r matches Err(e) ==> config_error(width, height, fov, epsilon, max_depth) == Some(e),
            r matches Ok(s) ==> {
                &&& s.wf()
                &&& s.objects@.len() == 0
                &&& s.lights@.len() == 0
                &&& s.width == width
                &&& s.height == height
                &&& s.fov == fov
                &&& s.background_color == background_color
                &&& s.epsilon == epsilon
                &&& s.max_depth == max_depth
            },
    {
        match check_config(width, height, fov, epsilon, max_depth) {
            Some(error) => {
                return Err(error);
            },
            None => {},
        }
        Ok(
            Scene {
                objects: Vec::new(),
                lights: Vec::new(),
                width,
                height,
                fov,
                background_color,
                epsilon,
                max_depth,
            },
        )
    }

    /// The first fault of the configuration as it stands now, for a caller
    /// that has written to the fields since the scene was built.
    pub fn validate(&self) -> (r: Option<SceneError>)
        ensures
            r == config_error(self.width, self.height, self.fov, self.epsilon, self.max_depth),
            r is None <==> self.wf(),
    {
        check_config(self.width, self.height, self.fov, self.epsilon, self.max_depth)
    }

    /// Adds a primitive behind those already there.
    pub fn add_object(&mut self, object: O)
        ensures
            final(self).objects@ == old(self).objects@.push(object),
            final(self).lights@ == old(self).lights@,
            final(self).wf() == old(self).wf(),
            final(self).width == old(self).width,
            final(self).height == old(self).height,
            final(self).fov == old(self).fov,
            final(self).background_color == old(self).background_color,
            final(self).epsilon == old(self).epsilon,
            final(self).max_depth == old(self).max_depth,
    {
        self.objects.push(object);
    }

    /// Adds a light behind those already there.
    pub fn add_light(&mut self, light: Light)
        ensures
            final(self).lights@ == old(self).lights@.push(light),
            final(self).objects@ == old(self).objects@,
            final(self).wf() == old(self).wf(),
            final(self).width == old(self).width,
            final(self).height == old(self).height,
            final(self).fov == old(self).fov,
            final(self).background_color == old(self).background_color,
            final(self).epsilon == old(self).epsilon,
            final(self).max_depth == old(self).max_depth,
    {
        self.lights.push(light);
    }

    /// The primitives, in order.
    pub fn get_objs(&self) -> (r: &Vec<O>)
        ensures
            r@ == self.objects@,
    {
        &self.objects
    }

    /// The lights, in order.
    pub fn get_lights(&self) -> (r: &Vec<Light>)
        ensures
            r@ == self.lights@,
    {
        &self.lights
    }
}

} // verus!
