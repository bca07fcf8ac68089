use vstd::prelude::*;
use crate::color::{Color, rgba_channels, background, background_channels, lemma_scale_within};
use core::ops::Neg;
use crate::error::RenderError;
use crate::point::Point;
use crate::scalar::{Scalar, SCALE, abs, isqrt, is_isqrt, isqrt_u128, div_floor, scaled_product,
    lemma_product_within, lemma_quotient_within, lemma_ratio_within, lemma_isqrt_exists};
use crate::scene::{Scene, Sphere, Plane, Drawable, COORD_MAX, FOV_TAN_MAX};
use crate::vector3::{Vector3, lemma_dot_within, lemma_normalize_is_unit};

verus! {

/// A half-line: it leaves `origin` along `direction`, which is meant to
/// have length one.
#[derive(Clone, Copy, Debug, PartialEq, Eq, Structural)]
pub struct Ray {
    pub origin: Point,
    pub direction: Vector3,
}

impl Ray {
    /// The ray starts within the bounds of a scene, and no component of
    /// its direction exceeds one.
    pub open spec fn wf(self) -> bool {
        &&& self.origin.within(COORD_MAX as int)
        &&& self.direction.within(SCALE as int)
    }

    /// Whether the ray is well-formed.
    pub fn is_wf(&self) -> (ok: bool)
        ensures
            ok == self.wf(),
    {
        self.origin.is_within(COORD_MAX) && self.direction.is_within(SCALE)
    }

    /// Where the ray through the centre of pixel `(x, y)` meets the
    /// plane one unit in front of the camera. With `t` the tangent of
    /// half the field of view, the horizontal offset
    /// `((x + 1/2) / width * 2 - 1) * (width / height) * t` equals
    /// `(2 * x + 1 - width) * t / height`, and the vertical offset
    /// `(1 - (y + 1/2) / height * 2) * t` equals
    /// `(height - 2 * y - 1) * t / height`; each is rounded down once.
    pub open spec fn sensor(x: u32, y: u32, scene: Scene) -> Vector3 {
        Vector3 {
            x: Scalar { raw: (((2 * x + 1 - scene.width) * scene.half_fov_tan@) / (scene.height as int)) as i64 },
            y: Scalar { raw: (((scene.height - 2 * y - 1) * scene.half_fov_tan@) / (scene.height as int)) as i64 },
            z: Scalar { raw: (-SCALE) as i64 },
        }
    }

    /// The camera ray through the centre of pixel `(x, y)`: from the
    /// origin, towards `sensor`, with length one. The camera looks down
    /// the negative z axis, and y points up.
    pub open spec fn prime(x: u32, y: u32, scene: Scene) -> Ray {
        Ray {
            origin: Point { x: Scalar { raw: 0 }, y: Scalar { raw: 0 }, z: Scalar { raw: 0 } },
            direction: Self::sensor(x, y, scene).spec_normalize(),
        }
    }

    /// The camera ray through the centre of pixel `(x, y)`, or
    /// `InvalidDimensions` if the image is not wider than it is tall.
    pub fn create_prime(x: u32, y: u32, scene: &Scene) -> (r: Result<Ray, RenderError>)
        requires
            x < scene.width,
            y < scene.height,
            abs(scene.half_fov_tan@) <= FOV_TAN_MAX,
        ensures
            scene.landscape() ==> r == Ok::<Ray, RenderError>(Self::prime(x, y, *scene)),
            !scene.landscape() ==> r == Err::<Ray, RenderError>(RenderError::InvalidDimensions),
            r matches Ok(ray) ==> ray.wf(),
    {
        if scene.width <= scene.height {
            return Err(RenderError::InvalidDimensions);
        }
        let w: i128 = scene.width as i128;
        let h: i128 = scene.height as i128;
        let t: i128 = scene.half_fov_tan.raw as i128;
        let across: i128 = 2 * (x as i128) + 1 - w;
        let up: i128 = h - 2 * (y as i128) - 1;
        proof {
            lemma_product_within(across as int, t as int, 0x1_0000_0000, FOV_TAN_MAX as int);
            lemma_product_within(up as int, t as int, 0x1_0000_0000, FOV_TAN_MAX as int);
            lemma_quotient_within(across * t, h as int);
            lemma_quotient_within(up * t, h as int);
        }
        let sx: i128 = div_floor(across * t, h);
        let sy: i128 = div_floor(up * t, h);
        let sensor = Vector3 { x: Scalar { raw: sx as i64 }, y: Scalar { raw: sy as i64 }, z: Scalar { raw: -SCALE } };
        assert(sensor == Self::sensor(x, y, *scene));
        proof {
            lemma_normalize_is_unit(sensor);
        }
        match sensor.normalize() {
            Ok(direction) => Ok(
                Ray {
                    origin: Point { x: Scalar { raw: 0 }, y: Scalar { raw: 0 }, z: Scalar { raw: 0 } },
                    direction,
                },
            ),
            Err(e) => Err(e),
        }
    }
}

/// A ray meets a plane only where the cosine between the plane's normal
/// and the ray's direction exceeds this many millionths.
pub const EPSILON: i64 = 1;

/// The farthest distance at which a shape can be hit.
pub const DISTANCE_MAX: i64 = 600_000_000_000_000_000;

/// A hit: the shape at `index` of the scene's list, met at `distance`
/// along the ray.
#[derive(Clone, Copy, Debug, PartialEq, Eq, Structural)]
pub struct Intersection {
    pub distance: Scalar,
    pub index: usize,
}

impl Intersection {
    /// The hit names a shape of `scene`, no farther than a hit can lie.
    pub open spec fn wf(self, scene: Scene) -> bool {
        &&& self.index < scene.drawables@.len()
        &&& abs(self.distance@) <= DISTANCE_MAX
    }

    /// Whether the hit is well-formed for `scene`.
    pub fn is_wf(&self, scene: &Scene) -> (ok: bool)
        ensures
            ok == self.wf(*scene),
    {
        self.index < scene.drawables.len() && self.distance.is_within(DISTANCE_MAX)
    }

    pub fn new(distance: Scalar, index: usize) -> (i: Intersection)
        ensures
            i.distance == distance,
            i.index == index,
    {
        Intersection { distance, index }
    }
}

/// What a ray can be tested against.
pub trait Intersectable {
    /// The shape lies within the bounds of a scene.
    spec fn in_bounds(&self) -> bool;

    /// The distance along `ray` at which it meets the shape, if it does.
    spec fn hit(&self, ray: Ray) -> Option<Scalar>;

    /// The distance along `ray` at which it meets the shape, if it does.
    fn intersect(&self, ray: &Ray) -> (r: Option<Scalar>)
        requires
            self.in_bounds(),
            ray.wf(),
        ensures
            r == self.hit(*ray),
            r matches Some(d) ==> abs(d@) <= DISTANCE_MAX,
    ;
}

impl Sphere {
    /// The ray's origin seen from the centre, as the vector from the
    /// origin to the centre.
    pub open spec fn to_center(self, ray: Ray) -> Vector3 {
        self.center.spec_minus(ray.origin)
    }

    /// How far along the ray the point nearest to the centre lies, in
    /// millionths of a millionth.
    pub open spec fn adjacent(self, ray: Ray) -> int {
        self.to_center(ray).dot_exact(ray.direction)
    }

    /// The squared radius less the squared distance from the centre to
    /// the ray's line, unrounded: in units of `SCALE` to the power of
    /// minus four. The line misses the sphere where this is negative.
    pub open spec fn discriminant(self, ray: Ray) -> int {
        let l = self.to_center(ray);
        let adj = self.adjacent(ray);
        let d2 = l.dot_exact(l) * (SCALE * SCALE) - adj * adj;
        let rad2 = (self.radius@ * self.radius@) * (SCALE * SCALE);
        rad2 - d2
    }

    /// The distance to the nearer of the two points where the ray's line
    /// crosses the sphere, unless the line misses it or both points lie
    /// behind the origin. With the origin inside the sphere the nearer
    /// point lies behind it, and the distance is negative.
    pub open spec fn spec_intersect(self, ray: Ray) -> Option<Scalar> {
        let adj = self.adjacent(ray);
        let disc = self.discriminant(ray);
        if disc < 0 {
            None
        } else {
            let thc = isqrt(disc);
            let t0 = (adj - thc) / (SCALE as int);
            let t1 = (adj + thc) / (SCALE as int);
            if t0 < 0 && t1 < 0 {
                None
            } else if t0 < t1 {
                Some(Scalar { raw: t0 as i64 })
            } else {
                Some(Scalar { raw: t1 as i64 })
            }
        }
    }
}

impl Intersectable for Sphere {
    open spec fn in_bounds(&self) -> bool {
        self.wf()
    }

    open spec fn hit(&self, ray: Ray) -> Option<Scalar> {
        self.spec_intersect(ray)
    }

    fn intersect(&self, ray: &Ray) -> (r: Option<Scalar>) {
        let l: Vector3 = self.center - ray.origin;
        proof {
            lemma_dot_within(l, ray.direction, 2 * COORD_MAX, SCALE as int);
            lemma_dot_within(l, l, 2 * COORD_MAX, 2 * COORD_MAX);
            lemma_product_within(self.radius@, self.radius@, COORD_MAX as int, COORD_MAX as int);
        }
        let adj: i128 = l.exact_dot(&ray.direction);
        let ll: i128 = l.exact_dot(&l);
        let radius: i128 = self.radius.raw as i128;
        assert(SCALE * SCALE == 1_000_000_000_000) by (nonlinear_arith)
            requires
                SCALE == 1_000_000,
        {
        }
        let unit: i128 = (SCALE as i128) * (SCALE as i128);
        proof {
            lemma_product_within(adj as int, adj as int, 600_000_000_000_000_000, 600_000_000_000_000_000);
            assert(600_000_000_000_000_000int * 600_000_000_000_000_000int
                == 360_000_000_000_000_000_000_000_000_000_000_000int) by (nonlinear_arith);
        }
        let d2: i128 = ll * unit - adj * adj;
        let rad2: i128 = (radius * radius) * unit;
        if d2 > rad2 {
            return None;
        }
        let thc: i128 = isqrt_u128((rad2 - d2) as u128) as i128;
        let t0: i128 = div_floor(adj - thc, SCALE as i128);
        let t1: i128 = div_floor(adj + thc, SCALE as i128);
        if t0 < 0 && t1 < 0 {
            return None;
        }
        let distance: i128 = if t0 < t1 {
            t0
        } else {
            t1
        };
        Some(Scalar { raw: distance as i64 })
    }
}

impl Plane {
    /// The cosine between the normal and the ray's direction, in
    /// millionths of a millionth.
    pub open spec fn denominator(self, ray: Ray) -> int {
        self.normal.dot_exact(ray.direction)
    }

    /// Whether the ray looks at the plane's visible side: the cosine
    /// between the normal and the direction exceeds `EPSILON`.
    pub open spec fn faces(self, ray: Ray) -> bool {
        self.denominator(ray) > EPSILON * SCALE
    }

    /// The distance at which the ray meets the plane: the offset of the
    /// plane's origin from the ray's, measured along the normal and
    /// divided by the cosine. There is none unless the ray looks at the
    /// visible side and the plane lies ahead of it.
    pub open spec fn spec_intersect(self, ray: Ray) -> Option<Scalar> {
        if self.faces(ray) {
            let v = self.origin.spec_minus(ray.origin);
            let distance = (v.dot_exact(self.normal) * SCALE) / self.denominator(ray);
            if distance >= 0 {
                Some(Scalar { raw: distance as i64 })
            } else {
                None
            }
        } else {
            None
        }
    }
}

impl Intersectable for Plane {
    open spec fn in_bounds(&self) -> bool {
        self.wf()
    }

    open spec fn hit(&self, ray: Ray) -> Option<Scalar> {
        self.spec_intersect(ray)
    }

    fn intersect(&self, ray: &Ray) -> (r: Option<Scalar>) {
        proof {
            lemma_dot_within(self.normal, ray.direction, SCALE as int, SCALE as int);
        }
        let denom: i128 = self.normal.exact_dot(&ray.direction);
        assert(EPSILON * SCALE == 1_000_000) by (nonlinear_arith)
            requires
                SCALE == 1_000_000,
                EPSILON == 1,
        {
        }
        if denom > (EPSILON as i128) * (SCALE as i128) {
            let v: Vector3 = self.origin - ray.origin;
            proof {
                lemma_dot_within(v, self.normal, 2 * COORD_MAX, SCALE as int);
                lemma_ratio_within(v.dot_exact(self.normal), SCALE as int, denom as int);
            }
            let offset: i128 = v.exact_dot(&self.normal);
            let distance: i128 = div_floor(offset * (SCALE as i128), denom);
            if distance >= 0 {
                return Some(Scalar { raw: distance as i64 });
            }
        }
        None
    }
}

impl Intersectable for Drawable {
    open spec fn in_bounds(&self) -> bool {
        self.wf()
    }

    open spec fn hit(&self, ray: Ray) -> Option<Scalar> {
        match *self {
            Drawable::Sphere(s) => s.hit(ray),
            Drawable::Plane(p) => p.hit(ray),
        }
    }

    fn intersect(&self, ray: &Ray) -> (r: Option<Scalar>) {
        match self {
            Drawable::Sphere(s) => s.intersect(ray),
            Drawable::Plane(p) => p.intersect(ray),
        }
    }
}

/// The number pi, in millionths.
pub const PI: i64 = 3_141_593;

/// What has a direction that it faces at each point of its surface.
#[allow(non_camel_case_types)]
pub trait Surface_Normal {
    /// The normal at `hit_point` can be computed in machine numbers.
    spec fn normal_computable(&self, hit_point: Point) -> bool;

    /// The unit vector that the surface faces at `hit_point`, or the
    /// reason why there is none.
    spec fn normal_at(&self, hit_point: Point) -> Result<Vector3, RenderError>;

    /// The unit vector that the surface faces at `hit_point`, or the
    /// reason why there is none.
    fn surface_normal(&self, hit_point: &Point) -> (r: Result<Vector3, RenderError>)
        requires
            self.normal_computable(*hit_point),
        ensures
            r == self.normal_at(*hit_point),
    ;
}

impl Surface_Normal for Drawable {
    open spec fn normal_computable(&self, hit_point: Point) -> bool {
        match *self {
            Drawable::Sphere(s) => hit_point.reachable_from(s.center),
            Drawable::Plane(p) => p.normal.negatable(),
        }
    }

    /// A sphere faces away from its centre, and has no normal at the
    /// centre itself; a plane faces against its stored normal.
    open spec fn normal_at(&self, hit_point: Point) -> Result<Vector3, RenderError> {
        match *self {
            Drawable::Sphere(s) => {
                let out = hit_point.spec_minus(s.center);
                if out.is_zero() {
                    Err(RenderError::DegenerateVector)
                } else {
                    Ok(out.spec_normalize())
                }
            },
            Drawable::Plane(p) => Ok(p.normal.spec_neg()),
        }
    }

    fn surface_normal(&self, hit_point: &Point) -> (r: Result<Vector3, RenderError>) {
        match self {
            Drawable::Sphere(s) => (*hit_point - s.center).normalize(),
            Drawable::Plane(p) => Ok(p.normal.neg()),
        }
    }
}

/// The point at `distance` along `ray`.
pub open spec fn hit_point(ray: Ray, distance: Scalar) -> Point {
    ray.origin.spec_plus(ray.direction.spec_scale(distance))
}

/// The unit vector that points from any surface to the light, or the
/// reason why there is none: the light's direction has length zero.
pub open spec fn direction_to_light(scene: Scene) -> Result<Vector3, RenderError> {
    if scene.light.direction.is_zero() {
        Err(RenderError::DegenerateVector)
    } else {
        Ok(scene.light.direction.spec_normalize().spec_neg())
    }
}

/// The light that falls on a surface facing `normal`: the cosine between
/// the normal and the direction to the light, or zero where the surface
/// faces away, times the light's intensity.
pub open spec fn light_power(normal: Vector3, to_light: Vector3, intensity: Scalar) -> int {
    let cosine = normal.spec_dot(to_light);
    let lit = if cosine > 0 {
        cosine
    } else {
        0
    };
    (lit * intensity@) / (SCALE as int)
}

/// The share of the light that a surface of this albedo gives back in
/// each direction: the albedo divided by pi.
pub open spec fn light_reflected(albedo: Scalar) -> int {
    (albedo@ * SCALE) / (PI as int)
}

/// The colour seen where `ray` hits the shape that `hit` names: the
/// shape's colour times the light's colour, times the light's power on
/// the surface, times the reflected share, brought into `[0, 1]`.
pub open spec fn shade(scene: Scene, ray: Ray, hit: Intersection) -> Result<Color, RenderError> {
    let drawable = scene.drawables@[hit.index as int];
    match (drawable.normal_at(hit_point(ray, hit.distance)), direction_to_light(scene)) {
        (Ok(normal), Ok(to_light)) => Ok(
            drawable.spec_color().spec_tint(scene.light.color).spec_scale(
                Scalar { raw: light_power(normal, to_light, scene.light.intensity) as i64 },
            ).spec_scale(Scalar { raw: light_reflected(drawable.spec_albedo()) as i64 }).spec_clamp(),
        ),
        _ => Err(RenderError::DegenerateVector),
    }
}

/// The colour seen where `ray` hits the shape that `intersection`
/// names, as a function of the three arguments alone. It fails with
/// `DegenerateVector` where the light has no direction, or where a
/// sphere is hit at its very centre.
pub fn get_color(scene: &Scene, ray: &Ray, intersection: &Intersection) -> (r: Result<Color, RenderError>)
    requires
        scene.wf(),
        ray.wf(),
        intersection.wf(*scene),
    ensures
        r == shade(*scene, *ray, *intersection),
        r matches Ok(c) ==> c.wf(),
{
    let drawable: &Drawable = &scene.drawables[intersection.index];
    assert(drawable.wf());
    proof {
        lemma_product_within(ray.direction.x@, intersection.distance@, SCALE as int, DISTANCE_MAX as int);
        lemma_product_within(ray.direction.y@, intersection.distance@, SCALE as int, DISTANCE_MAX as int);
        lemma_product_within(ray.direction.z@, intersection.distance@, SCALE as int, DISTANCE_MAX as int);
        assert(SCALE * DISTANCE_MAX == 600_000_000_000_000_000_000_000) by (nonlinear_arith)
            requires
                SCALE == 1_000_000,
                DISTANCE_MAX == 600_000_000_000_000_000,
        {
        }
    }
    let along: Vector3 = ray.direction * intersection.distance;
    let hit_point: Point = ray.origin + along;
    proof {
        match *drawable {
            Drawable::Sphere(s) => {
                if !hit_point.spec_minus(s.center).is_zero() {
                    lemma_normalize_is_unit(hit_point.spec_minus(s.center));
                }
            },
            Drawable::Plane(p) => {},
        }
    }
    let normal: Vector3 = match drawable.surface_normal(&hit_point) {
        Ok(n) => n,
        Err(e) => {
            return Err(e);
        },
    };
    assert(normal.within(SCALE as int));
    proof {
        if !scene.light.direction.is_zero() {
            lemma_normalize_is_unit(scene.light.direction);
        }
    }
    let to_light: Vector3 = match scene.light.direction.normalize() {
        Ok(v) => v.neg(),
        Err(e) => {
            return Err(e);
        },
    };
    proof {
        lemma_dot_within(normal, to_light, SCALE as int, SCALE as int);
        assert(SCALE * SCALE == 1_000_000_000_000) by (nonlinear_arith)
            requires
                SCALE == 1_000_000,
        {
        }
    }
    let cosine: Scalar = normal.dot(&to_light);
    let lit: Scalar = if cosine.raw > 0 {
        cosine
    } else {
        Scalar { raw: 0 }
    };
    proof {
        lemma_product_within(lit@, scene.light.intensity@, 3_000_000, COORD_MAX as int);
        assert(3_000_000 * COORD_MAX == 300_000_000_000_000_000) by (nonlinear_arith)
            requires
                COORD_MAX == 100_000_000_000,
        {
        }
    }
    let power: Scalar = scaled_product(lit, scene.light.intensity);
    let albedo: Scalar = drawable.albedo();
    let reflected: Scalar = Scalar {
        raw: div_floor((albedo.raw as i128) * (SCALE as i128), PI as i128) as i64,
    };
    let surface: Color = drawable.color();
    proof {
        lemma_scale_within(surface, scene.light.color.r, SCALE as int, SCALE as int);
        lemma_scale_within(surface, scene.light.color.g, SCALE as int, SCALE as int);
        lemma_scale_within(surface, scene.light.color.b, SCALE as int, SCALE as int);
    }
    let tinted: Color = surface * scene.light.color;
    proof {
        lemma_scale_within(tinted, power, 1_000_001, 300_000_000_000);
        assert(1_000_001 * 300_000_000_000 == 300_000_300_000_000_000int) by (nonlinear_arith);
    }
    let lighted: Color = tinted * power;
    proof {
        lemma_scale_within(lighted, reflected, 300_000_300_001, 31_830_988_619);
        assert(300_000_300_001 * 31_830_988_619 == 9_549_306_135_028_416_688_619int) by (nonlinear_arith);
    }
    let reflected_color: Color = lighted * reflected;
    Ok(reflected_color.clamp())
}

impl Scene {
    /// Whether `ray` hits the shape at `index` ahead of its origin.
    pub open spec fn visible(&self, ray: Ray, index: int) -> bool {
        self.drawables@[index].hit(ray) matches Some(d) && d@ >= 0
    }

    /// The distance at which `ray` hits the shape at `index`.
    pub open spec fn distance_at(&self, ray: Ray, index: int) -> int {
        self.drawables@[index].hit(ray)->0@
    }

    /// The nearest hit of `ray` ahead of its origin among the first `n`
    /// shapes; among equally near ones, the first in the list.
    pub open spec fn nearest(&self, ray: Ray, n: nat) -> Option<Intersection>
        decreases n,
    {
        if n == 0 {
            None
        } else {
            let before = self.nearest(ray, (n - 1) as nat);
            let index = n - 1;
            if self.visible(ray, index) && (before is None || self.distance_at(ray, index)
                < before->0.distance@) {
                Some(Intersection { distance: self.drawables@[index].hit(ray)->0, index: index as usize })
            } else {
                before
            }
        }
    }

    /// The nearest hit of `ray` ahead of its origin, if it hits any
    /// shape there; among equally near shapes, the first in the list.
    pub fn trace(&self, ray: &Ray) -> (r: Option<Intersection>)
        requires
            self.wf(),
            ray.wf(),
        ensures
            r == self.nearest(*ray, self.drawables@.len()),
            r is None <==> forall|j: int| 0 <= j < self.drawables@.len() ==> !self.visible(*ray, j),
            r matches Some(hit) ==> {
                &&& hit.wf(*self)
                &&& self.visible(*ray, hit.index as int)
                &&& self.drawables@[hit.index as int].hit(*ray) == Some(hit.distance)
                &&& forall|j: int|
                    0 <= j < self.drawables@.len() && self.visible(*ray, j) ==> hit.distance@
                        <= self.distance_at(*ray, j)
                &&& forall|j: int|
                    0 <= j < hit.index && self.visible(*ray, j) ==> hit.distance@ < self.distance_at(
                        *ray,
                        j,
                    )
            },
    {
        let mut best: Option<Intersection> = None;
        let mut i: usize = 0;
        while i < self.drawables.len()
            invariant
                self.wf(),
                ray.wf(),
                i <= self.drawables@.len(),
                best == self.nearest(*ray, i as nat),
                best matches Some(hit) ==> abs(hit.distance@) <= DISTANCE_MAX,
            decreases self.drawables@.len() - i,
        {
            let found: Option<Scalar> = self.drawables[i].intersect(ray);
            if let Some(d) = found {
                if d.raw >= 0 {
                    let nearer: bool = match best {
                        None => true,
                        Some(hit) => d.raw < hit.distance.raw,
                    };
                    if nearer {
                        best = Some(Intersection { distance: d, index: i });
                    }
                }
            }
            i = i + 1;
        }
        proof {
            lemma_nearest(self, *ray, self.drawables@.len());
        }
        best
    }
}

/// What `nearest` finds among the first `n` shapes: nothing exactly when
/// none of them is hit ahead of the origin; else a shape that is hit
/// there, no farther than any other that is, and nearer than every such
/// shape before it in the list.
pub proof fn lemma_nearest(scene: &Scene, ray: Ray, n: nat)
    requires
        n <= scene.drawables@.len() <= usize::MAX,
    ensures
        scene.nearest(ray, n) is None <==> forall|j: int| 0 <= j < n ==> !scene.visible(ray, j),
        scene.nearest(ray, n) matches Some(hit) ==> {
            &&& hit.index < n
            &&& scene.visible(ray, hit.index as int)
            &&& scene.drawables@[hit.index as int].hit(ray) == Some(hit.distance)
            &&& forall|j: int| 0 <= j < n && scene.visible(ray, j) ==> hit.distance@ <= scene.distance_at(ray, j)
            &&& forall|j: int|
                0 <= j < hit.index && scene.visible(ray, j) ==> hit.distance@ < scene.distance_at(ray, j)
        },
    decreases n,
{
    if n > 0 {
        lemma_nearest(scene, ray, (n - 1) as nat);
    }
}

/// The channels of the pixel `(x, y)` of the image of `scene`: those of
/// the colour seen along the camera ray through it, opaque, or those of
/// the background where the ray hits nothing.
pub open spec fn pixel(scene: &Scene, x: u32, y: u32) -> Result<Seq<u8>, RenderError> {
    if !scene.landscape() {
        Err(RenderError::InvalidDimensions)
    } else {
        let ray = Ray::prime(x, y, *scene);
        match scene.nearest(ray, scene.drawables@.len()) {
            None => Ok(background_channels()),
            Some(hit) => match shade(*scene, ray, hit) {
                Ok(color) => Ok(color.spec_channels()),
                Err(e) => Err(e),
            },
        }
    }
}

/// Whether `r` is what `pixel` says of `(x, y)`.
pub open spec fn shows(r: Result<image::Rgba<u8>, RenderError>, scene: &Scene, x: u32, y: u32) -> bool {
    match pixel(scene, x, y) {
        Ok(channels) => r matches Ok(p) && rgba_channels(p) == channels,
        Err(e) => r matches Err(f) && f == e,
    }
}

/// The pixel `(x, y)` of the image of `scene`.
pub fn render_pixel(scene: &Scene, x: u32, y: u32) -> (r: Result<image::Rgba<u8>, RenderError>)
    requires
        scene.wf(),
        x < scene.width,
        y < scene.height,
    ensures
        shows(r, scene, x, y),
{
    let ray: Ray = match Ray::create_prime(x, y, scene) {
        Ok(ray) => ray,
        Err(e) => {
            return Err(e);
        },
    };
    match scene.trace(&ray) {
        None => Ok(background()),
        Some(hit) => match get_color(scene, &ray, &hit) {
            Ok(color) => Ok(color.to_rgba()),
            Err(e) => Err(e),
        },
    }
}

/// The image of `scene`, row by row from the top: the pixel `(x, y)`
/// stands at index `y * width + x`. A scene that is not wider than
/// tall is refused before any pixel is computed; otherwise the image
/// is complete, or some pixel fails and its error is returned.
pub fn render(scene: &Scene) -> (r: Result<Vec<image::Rgba<u8>>, RenderError>)
    requires
        scene.wf(),
        scene.width * scene.height <= usize::MAX,
    ensures
        !scene.landscape() ==> (r matches Err(e) && e == RenderError::InvalidDimensions),
        r matches Ok(image) ==> {
            &&& image@.len() == scene.width * scene.height
            &&& forall|k: int|
                0 <= k < image@.len() ==> shows(
                    Ok(#[trigger] image@[k]),
                    scene,
                    (k % (scene.width as int)) as u32,
                    (k / (scene.width as int)) as u32,
                )
        },
        r matches Err(e) ==> (!scene.landscape() || exists|k: int|
            0 <= k < scene.width * scene.height && #[trigger] pixel(
                scene,
                (k % (scene.width as int)) as u32,
                (k / (scene.width as int)) as u32,
            ) == Err::<Seq<u8>, RenderError>(e)),
{
    match scene.check_dimensions() {
        Ok(()) => {},
        Err(e) => {
            return Err(e);
        },
    }
    let width: usize = scene.width as usize;
    let height: usize = scene.height as usize;
    assert(width * height == scene.width * scene.height) by (nonlinear_arith)
        requires
            width == scene.width,
            height == scene.height,
    {
    }
    let total: usize = width * height;
    let mut image: Vec<image::Rgba<u8>> = Vec::new();
    let mut k: usize = 0;
    while k < total
        invariant
            scene.wf(),
            scene.landscape(),
            width == scene.width,
            height == scene.height,
            total == width * height,
            k <= total,
            image@.len() == k,
            forall|j: int|
                0 <= j < k ==> shows(
                    Ok(#[trigger] image@[j]),
                    scene,
                    (j % (scene.width as int)) as u32,
                    (j / (scene.width as int)) as u32,
                ),
        decreases total - k,
    {
        let x: usize = k % width;
        let y: usize = k / width;
        assert(y < height) by (nonlinear_arith)
            requires
                y == k / width,
                k < width * height,
                width > 0,
        {
        }
        match render_pixel(scene, x as u32, y as u32) {
            Ok(p) => {
                image.push(p);
            },
            Err(e) => {
                return Err(e);
            },
        }
        k = k + 1;
    }
    Ok(image)
}

/// Where `render` puts the pixel `(x, y)`: from the index
/// `y * width + x` the column is recovered as the remainder by `width`
/// and the row as the quotient.
pub proof fn lemma_pixel_index(width: int, height: int, x: int, y: int)
    requires
        0 <= x < width,
        0 <= y < height,
    ensures
        0 <= y * width + x < width * height,
        (y * width + x) % width == x,
        (y * width + x) / width == y,
{
    vstd::arithmetic::div_mod::lemma_fundamental_div_mod_converse(y * width + x, width, y, x);
    assert(y * width + x < width * height) by (nonlinear_arith)
        requires
            0 <= x < width,
            0 <= y < height,
    {
        assert((y + 1) * width <= height * width);
    }
    assert(0 <= y * width) by (nonlinear_arith)
        requires
            0 <= y,
            0 < width,
    {
    }
}

/// A sphere reports its nearer crossing: there is no hit exactly when the
/// ray's line misses the sphere or the farther crossing lies behind the
/// origin, and otherwise the distance is that of the nearer crossing,
/// whether it lies ahead of the origin or not.
pub proof fn lemma_sphere_reports_nearer_crossing(sphere: Sphere, ray: Ray)
    ensures
        sphere.hit(ray) is None <==> (sphere.discriminant(ray) < 0 || (sphere.adjacent(ray) + isqrt(
            sphere.discriminant(ray),
        )) / (SCALE as int) < 0),
        sphere.hit(ray) matches Some(d) ==> d.raw == ((sphere.adjacent(ray) - isqrt(
            sphere.discriminant(ray),
        )) / (SCALE as int)) as i64,
{
    if sphere.discriminant(ray) >= 0 {
        lemma_isqrt_exists(sphere.discriminant(ray));
    }
}

/// A sphere whose centre does not lie ahead of the ray's origin, and
/// which does not hold that origin, is not hit.
pub proof fn lemma_sphere_behind_is_missed(sphere: Sphere, ray: Ray)
    requires
        sphere.adjacent(ray) <= 0,
        sphere.to_center(ray).dot_exact(sphere.to_center(ray)) > sphere.radius@ * sphere.radius@,
    ensures
        sphere.hit(ray) is None,
{
    let l = sphere.to_center(ray);
    let adj = sphere.adjacent(ray);
    let disc = sphere.discriminant(ray);
    let gap = sphere.radius@ * sphere.radius@ - l.dot_exact(l);
    assert(disc == gap * (SCALE * SCALE) + adj * adj) by (nonlinear_arith)
        requires
            disc == (sphere.radius@ * sphere.radius@) * (SCALE * SCALE) - (l.dot_exact(l) * (SCALE * SCALE)
                - adj * adj),
            gap == sphere.radius@ * sphere.radius@ - l.dot_exact(l),
    {
    }
    assert(disc < adj * adj) by (nonlinear_arith)
        requires
            disc == gap * (SCALE * SCALE) + adj * adj,
            gap <= -1,
            SCALE == 1_000_000,
    {
    }
    if disc >= 0 {
        lemma_isqrt_exists(disc);
        let thc = isqrt(disc);
        assert(adj + thc < 0) by (nonlinear_arith)
            requires
                is_isqrt(disc, thc),
                disc < adj * adj,
                adj <= 0,
        {
            if thc >= -adj {
                assert(thc * thc >= (-adj) * (-adj));
            }
        }
    }
}

/// A plane is seen from one side only: a ray whose direction makes no
/// more than the least cosine with the normal does not hit it, wherever
/// the plane lies.
pub proof fn lemma_plane_is_one_sided(plane: Plane, ray: Ray)
    requires
        plane.denominator(ray) <= EPSILON * SCALE,
    ensures
        plane.hit(ray) is None,
{
}

/// A plane is hit ahead of the ray's origin or not at all.
pub proof fn lemma_plane_hit_is_ahead(plane: Plane, ray: Ray)
    requires
        plane.wf(),
        ray.wf(),
    ensures
        plane.hit(ray) matches Some(d) ==> 0 <= d@ <= DISTANCE_MAX,
{
    if plane.faces(ray) {
        let v = plane.origin.spec_minus(ray.origin);
        lemma_dot_within(v, plane.normal, 2 * COORD_MAX, SCALE as int);
        assert(EPSILON * SCALE == 1_000_000) by (nonlinear_arith)
            requires
                SCALE == 1_000_000,
                EPSILON == 1,
        {
        }
        lemma_ratio_within(v.dot_exact(plane.normal), SCALE as int, plane.denominator(ray));
    }
}

/// The point at the distance that a plane reports lies on the plane, up
/// to the rounding of the distance: what is left of the offset between
/// the two origins along the normal, after going that distance along
/// the ray, is less than one millionth of the cosine.
pub proof fn lemma_plane_hit_lies_on_plane(plane: Plane, ray: Ray)
    requires
        plane.wf(),
        ray.wf(),
    ensures
        plane.hit(ray) matches Some(d) ==> 0 <= plane.origin.spec_minus(ray.origin).dot_exact(plane.normal)
            * SCALE - d@ * plane.denominator(ray) < plane.denominator(ray),
{
    if plane.faces(ray) {
        lemma_plane_hit_is_ahead(plane, ray);
        let offset = plane.origin.spec_minus(ray.origin).dot_exact(plane.normal) * SCALE;
        let denom = plane.denominator(ray);
        vstd::arithmetic::div_mod::lemma_fundamental_div_mod(offset, denom);
        let v = plane.origin.spec_minus(ray.origin);
        lemma_dot_within(v, plane.normal, 2 * COORD_MAX, SCALE as int);
        assert(EPSILON * SCALE == 1_000_000) by (nonlinear_arith)
            requires
                SCALE == 1_000_000,
                EPSILON == 1,
        {
        }
        lemma_ratio_within(v.dot_exact(plane.normal), SCALE as int, denom);
        assert(denom * (offset / denom) == (offset / denom) * denom) by (nonlinear_arith);
    }
}

/// The square of `a * d - s * l`, expanded.
proof fn lemma_offset_square(a: int, d: int, s: int, l: int)
    ensures
        (a * d - s * l) * (a * d - s * l) == (a * a) * (d * d) - 2 * ((a * s) * (l * d)) + (s * s) * (l
            * l),
{
    let p = a * d;
    let q = s * l;
    assert((p - q) * (p - q) == p * p - 2 * (p * q) + q * q) by (nonlinear_arith);
    assert(p * p == (a * a) * (d * d)) by (nonlinear_arith)
        requires
            p == a * d,
    {
    }
    assert(q * q == (s * s) * (l * l)) by (nonlinear_arith)
        requires
            q == s * l,
    {
    }
    assert(p * q == (a * s) * (l * d)) by (nonlinear_arith)
        requires
            p == a * d,
            q == s * l,
    {
    }
}

impl Sphere {
    /// The nearer of the two crossings of the ray's line with the
    /// sphere, unrounded: in millionths of a millionth.
    pub open spec fn nearer_crossing(self, ray: Ray) -> int {
        self.adjacent(ray) - isqrt(self.discriminant(ray))
    }

    /// The squared distance from the centre to the point of the ray at
    /// `nearer_crossing`, in units of `SCALE` to the power of minus six.
    pub open spec fn crossing_distance_squared(self, ray: Ray) -> int {
        let a = self.nearer_crossing(ray);
        let l = self.to_center(ray);
        let d = ray.direction;
        let s2 = SCALE * SCALE;
        let wx = a * d.x@ - s2 * l.x@;
        let wy = a * d.y@ - s2 * l.y@;
        let wz = a * d.z@ - s2 * l.z@;
        wx * wx + wy * wy + wz * wz
    }
}

/// The nearer crossing lies on the sphere: for a ray whose direction
/// has length exactly one and whose line meets the sphere, the squared
/// distance from the centre to the point of the ray at `nearer_crossing`
/// is the squared radius, less what the rounded-down square root lost:
/// at most twice that root, in units of `SCALE` to the power of minus
/// four.
pub proof fn lemma_sphere_crossing_lies_on_sphere(sphere: Sphere, ray: Ray)
    requires
        ray.direction.dot_exact(ray.direction) == SCALE * SCALE,
        sphere.discriminant(ray) >= 0,
    ensures
        sphere.crossing_distance_squared(ray) <= (sphere.radius@ * sphere.radius@) * (SCALE * SCALE) * (
        SCALE * SCALE),
        sphere.crossing_distance_squared(ray) >= (sphere.radius@ * sphere.radius@) * (SCALE * SCALE) * (
        SCALE * SCALE) - 2 * isqrt(sphere.discriminant(ray)) * (SCALE * SCALE),
{
    let a = sphere.nearer_crossing(ray);
    let l = sphere.to_center(ray);
    let d = ray.direction;
    let s2 = SCALE * SCALE;
    let adj = sphere.adjacent(ray);
    let ll = l.dot_exact(l);
    let rr = sphere.radius@ * sphere.radius@;
    let disc = sphere.discriminant(ray);
    let thc = isqrt(disc);
    let dist2 = sphere.crossing_distance_squared(ray);
    lemma_isqrt_exists(disc);
    lemma_offset_square(a, d.x@, s2, l.x@);
    lemma_offset_square(a, d.y@, s2, l.y@);
    lemma_offset_square(a, d.z@, s2, l.z@);
    let aa = a * a;
    let as2 = a * s2;
    let ss = s2 * s2;
    assert(dist2 == aa * s2 - 2 * (as2 * adj) + ss * ll) by (nonlinear_arith)
        requires
            dist2 == (aa * (d.x@ * d.x@) - 2 * (as2 * (l.x@ * d.x@)) + ss * (l.x@ * l.x@)) + (aa * (d.y@
                * d.y@) - 2 * (as2 * (l.y@ * d.y@)) + ss * (l.y@ * l.y@)) + (aa * (d.z@ * d.z@) - 2 * (
            as2 * (l.z@ * d.z@)) + ss * (l.z@ * l.z@)),
            d.x@ * d.x@ + d.y@ * d.y@ + d.z@ * d.z@ == s2,
            adj == l.x@ * d.x@ + l.y@ * d.y@ + l.z@ * d.z@,
            ll == l.x@ * l.x@ + l.y@ * l.y@ + l.z@ * l.z@,
    {
    }
    assert(aa * s2 - 2 * (as2 * adj) + ss * ll == s2 * (aa - 2 * (a * adj) + s2 * ll)) by (nonlinear_arith)
        requires
            aa == a * a,
            as2 == a * s2,
            ss == s2 * s2,
    {
    }
    assert(aa - 2 * (a * adj) == thc * thc - adj * adj) by (nonlinear_arith)
        requires
            aa == a * a,
            a == adj - thc,
    {
    }
    assert(s2 * ll - adj * adj == rr * s2 - disc) by (nonlinear_arith)
        requires
            disc == rr * s2 - (ll * s2 - adj * adj),
    {
    }
    let lost = disc - thc * thc;
    assert(0 <= lost <= 2 * thc) by (nonlinear_arith)
        requires
            is_isqrt(disc, thc),
            lost == disc - thc * thc,
    {
    }
    assert(dist2 == s2 * (rr * s2 - lost));
    assert(dist2 == rr * s2 * s2 - lost * s2 && lost * s2 <= 2 * thc * s2 && 0 <= lost * s2)
        by (nonlinear_arith)
        requires
            dist2 == s2 * (rr * s2 - lost),
            0 <= lost <= 2 * thc,
            s2 > 0,
    {
    }
}

/// In an image of even width and height, the pixel just right of and
/// below the centre looks almost straight ahead: its ray meets the
/// plane one unit in front of the camera half a pixel from the axis, at
/// the tangent divided by the height to the right and as much down.
pub proof fn lemma_centre_pixel_is_half_a_pixel_off_axis(scene: Scene)
    requires
        scene.width % 2 == 0,
        scene.height % 2 == 0,
        scene.height > 0,
        abs(scene.half_fov_tan@) <= FOV_TAN_MAX,
    ensures
        Ray::sensor(scene.width / 2, scene.height / 2, scene).x@ == scene.half_fov_tan@ / (
        scene.height as int),
        Ray::sensor(scene.width / 2, scene.height / 2, scene).y@ == (-scene.half_fov_tan@) / (
        scene.height as int),
        Ray::sensor(scene.width / 2, scene.height / 2, scene).z@ == -SCALE,
{
    let t = scene.half_fov_tan@;
    let h = scene.height as int;
    let across = 2 * (scene.width / 2) + 1 - scene.width;
    let up = scene.height - 2 * (scene.height / 2) - 1;
    assert(across * t == t && up * t == -t) by (nonlinear_arith)
        requires
            across == 1,
            up == -1,
    {
    }
    lemma_quotient_within(t, h);
    lemma_quotient_within(-t, h);
}

} // verus!
