use vstd::prelude::*;
use crate::color::Color;
use crate::error::RenderError;
use crate::point::Point;
use crate::scalar::{Scalar, SCALE, abs};
use crate::vector3::Vector3;

verus! {

/// The farthest that a coordinate, a radius, an albedo or an intensity
/// of a scene may lie from zero: a hundred thousand whole units. Within
/// it every intermediate result of the renderer fits its machine type.
pub const COORD_MAX: i64 = 100_000_000_000;

/// The largest tangent of half the field of view: a thousand.
pub const FOV_TAN_MAX: i64 = 1_000_000_000;

/// A ball of one colour.
#[derive(Clone, Copy, Debug, PartialEq, Eq, Structural)]
pub struct Sphere {
    pub center: Point,
    pub radius: Scalar,
    pub color: Color,
    pub albedo: Scalar,
}

/// A plane through `origin`, seen only from the side that its `normal`
/// points away from. The normal is meant to have length one.
#[derive(Clone, Copy, Debug, PartialEq, Eq, Structural)]
pub struct Plane {
    pub origin: Point,
    pub normal: Vector3,
    pub color: Color,
    pub albedo: Scalar,
}

/// Light that falls in parallel rays along `direction`.
#[derive(Clone, Copy, Debug, PartialEq, Eq, Structural)]
pub struct Light {
    pub direction: Vector3,
    pub color: Color,
    pub intensity: Scalar,
}

/// The shapes that can be drawn.
#[derive(Clone, Copy, Debug, PartialEq, Eq, Structural)]
pub enum Drawable {
    Sphere(Sphere),
    Plane(Plane),
}

/// What is drawn, the light on it, and the camera: an image of `width`
/// by `height` pixels whose field of view has the half-angle tangent
/// `half_fov_tan`.
pub struct Scene {
    pub drawables: Vec<Drawable>,
    pub light: Light,
    pub half_fov_tan: Scalar,
    pub width: u32,
    pub height: u32,
}

impl Sphere {
    /// Whether the sphere is well-formed.
    pub fn is_wf(&self) -> (ok: bool)
        ensures
            ok == self.wf(),
    {
        self.center.is_within(COORD_MAX) && self.radius.is_within(COORD_MAX) && self.albedo.is_within(
            COORD_MAX,
        ) && self.color.is_wf()
    }

    /// The sphere lies within the bounds of a scene.
    pub open spec fn wf(self) -> bool {
        &&& self.center.within(COORD_MAX as int)
        &&& abs(self.radius@) <= COORD_MAX
        &&& abs(self.albedo@) <= COORD_MAX
        &&& self.color.wf()
    }
}

impl Plane {
    /// Whether the plane is well-formed.
    pub fn is_wf(&self) -> (ok: bool)
        ensures
            ok == self.wf(),
    {
        self.origin.is_within(COORD_MAX) && self.normal.is_within(SCALE) && self.albedo.is_within(
            COORD_MAX,
        ) && self.color.is_wf()
    }

    /// The plane lies within the bounds of a scene, and no component of
    /// its normal exceeds one.
    pub open spec fn wf(self) -> bool {
        &&& self.origin.within(COORD_MAX as int)
        &&& self.normal.within(SCALE as int)
        &&& abs(self.albedo@) <= COORD_MAX
        &&& self.color.wf()
    }
}

impl Light {
    /// Whether the light is well-formed.
    pub fn is_wf(&self) -> (ok: bool)
        ensures
            ok == self.wf(),
    {
        self.intensity.is_within(COORD_MAX) && self.color.is_wf()
    }

    /// The light's intensity lies within the bounds of a scene.
    pub open spec fn wf(self) -> bool {
        &&& abs(self.intensity@) <= COORD_MAX
        &&& self.color.wf()
    }
}

impl Drawable {
    /// The shape lies within the bounds of a scene.
    pub open spec fn wf(self) -> bool {
        match self {
            Drawable::Sphere(s) => s.wf(),
            Drawable::Plane(p) => p.wf(),
        }
    }

    /// The colour of the shape's surface.
    pub open spec fn spec_color(self) -> Color {
        match self {
            Drawable::Sphere(s) => s.color,
            Drawable::Plane(p) => p.color,
        }
    }

    /// The share of the light that the shape's surface reflects.
    pub open spec fn spec_albedo(self) -> Scalar {
        match self {
            Drawable::Sphere(s) => s.albedo,
            Drawable::Plane(p) => p.albedo,
        }
    }

    /// Whether the shape is well-formed.
    pub fn is_wf(&self) -> (ok: bool)
        ensures
            ok == self.wf(),
    {
        match self {
            Drawable::Sphere(s) => s.is_wf(),
            Drawable::Plane(p) => p.is_wf(),
        }
    }

    /// The colour of the shape's surface.
    pub fn color(&self) -> (c: Color)
        ensures
            c == self.spec_color(),
    {
        match self {
            Drawable::Sphere(s) => s.color,
            Drawable::Plane(p) => p.color,
        }
    }

    /// The share of the light that the shape's surface reflects.
    pub fn albedo(&self) -> (a: Scalar)
        ensures
            a == self.spec_albedo(),
    {
        match self {
            Drawable::Sphere(s) => s.albedo,
            Drawable::Plane(p) => p.albedo,
        }
    }
}

impl Scene {
    /// Every shape and the light lie within the bounds of a scene, and
    /// so does the field of view.
    pub open spec fn wf(self) -> bool {
        &&& forall|i: int| 0 <= i < self.drawables@.len() ==> (#[trigger] self.drawables@[i]).wf()
        &&& self.light.wf()
        &&& abs(self.half_fov_tan@) <= FOV_TAN_MAX
    }

    /// Whether the image is wider than it is tall, as the camera needs.
    pub open spec fn landscape(self) -> bool {
        self.width > self.height
    }

    /// Whether the scene is well-formed.
    pub fn is_wf(&self) -> (ok: bool)
        ensures
            ok == self.wf(),
    {
        if !self.light.is_wf() || !self.half_fov_tan.is_within(FOV_TAN_MAX) {
            return false;
        }
        let mut i: usize = 0;
        while i < self.drawables.len()
            invariant
                i <= self.drawables@.len(),
                forall|j: int| 0 <= j < i ==> (#[trigger] self.drawables@[j]).wf(),
            decreases self.drawables@.len() - i,
        {
            if !self.drawables[i].is_wf() {
                return false;
            }
            i = i + 1;
        }
        true
    }

    /// Refuses a scene whose image is not wider than it is tall.
    pub fn check_dimensions(&self) -> (r: Result<(), RenderError>)
        ensures
            self.landscape() ==> r == Ok::<(), RenderError>(()),
            !self.landscape() ==> r == Err::<(), RenderError>(RenderError::InvalidDimensions),
    {
        if self.width > self.height {
            Ok(())
        } else {
            Err(RenderError::InvalidDimensions)
        }
    }
}

} // verus!
