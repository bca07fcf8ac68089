use raycast::color::Color;
use raycast::point::Point;
use raycast::rendering::{Intersection, Ray};
use raycast::scalar::Scalar;
use raycast::scene::{Drawable, Light, Plane, Scene, Sphere, COORD_MAX, FOV_TAN_MAX};
use raycast::vector3::Vector3;

fn fx(v: f64) -> Scalar {
    Scalar::new((v * 1_000_000.0).round() as i64)
}

fn white() -> Color {
    Color { r: fx(1.0), g: fx(1.0), b: fx(1.0), a: fx(1.0) }
}

fn origin() -> Point {
    Point::new(fx(0.0), fx(0.0), fx(0.0))
}

fn unit_z() -> Vector3 {
    Vector3::new(fx(0.0), fx(0.0), fx(1.0))
}

fn sphere() -> Sphere {
    Sphere { center: origin(), radius: fx(1.0), color: white(), albedo: fx(1.0) }
}

fn plane() -> Plane {
    Plane { origin: origin(), normal: unit_z(), color: white(), albedo: fx(1.0) }
}

fn scene() -> Scene {
    Scene {
        drawables: vec![Drawable::Sphere(sphere()), Drawable::Plane(plane())],
        light: Light { direction: unit_z(), color: white(), intensity: fx(1.0) },
        half_fov_tan: fx(1.0),
        width: 4,
        height: 3,
    }
}

#[test]
fn scalar_is_within_its_limit_on_both_sides() {
    assert!(Scalar::new(5).is_within(5));
    assert!(Scalar::new(-5).is_within(5));
    assert!(!Scalar::new(6).is_within(5));
    assert!(!Scalar::new(-6).is_within(5));
    assert!(!Scalar::new(i64::MIN).is_within(i64::MAX));
    assert!(Scalar::new(0).is_within(0));
}

#[test]
fn vectors_and_points_are_within_a_limit_by_every_component() {
    let v = Vector3::new(Scalar::new(1), Scalar::new(-2), Scalar::new(3));
    assert!(v.is_within(3));
    assert!(!v.is_within(2));
    let p = Point::new(Scalar::new(-4), Scalar::new(0), Scalar::new(0));
    assert!(p.is_within(4));
    assert!(!p.is_within(3));
}

#[test]
fn colour_is_well_formed_inside_the_unit_range() {
    assert!(white().is_wf());
    assert!(Color { r: fx(0.0), g: fx(0.0), b: fx(0.0), a: fx(0.0) }.is_wf());
    assert!(!Color { r: fx(1.5), ..white() }.is_wf());
    assert!(!Color { g: Scalar::new(-1), ..white() }.is_wf());
    assert!(!Color { b: Scalar::new(1_000_001), ..white() }.is_wf());
    assert!(!Color { a: fx(2.0), ..white() }.is_wf());
}

#[test]
fn shapes_are_well_formed_within_the_bounds_of_a_scene() {
    assert!(sphere().is_wf());
    assert!(Sphere { radius: Scalar::new(-COORD_MAX), ..sphere() }.is_wf());
    assert!(!Sphere { radius: Scalar::new(COORD_MAX + 1), ..sphere() }.is_wf());
    assert!(!Sphere { albedo: Scalar::new(COORD_MAX + 1), ..sphere() }.is_wf());
    assert!(!Sphere { color: Color { r: fx(2.0), ..white() }, ..sphere() }.is_wf());
    assert!(!Sphere { center: Point::new(fx(0.0), Scalar::new(-COORD_MAX - 1), fx(0.0)), ..sphere() }.is_wf());
    assert!(plane().is_wf());
    assert!(!Plane { normal: Vector3::new(fx(0.0), fx(0.0), Scalar::new(1_000_001)), ..plane() }.is_wf());
    assert!(!Plane { origin: Point::new(Scalar::new(COORD_MAX + 1), fx(0.0), fx(0.0)), ..plane() }.is_wf());
    assert!(Drawable::Sphere(sphere()).is_wf());
    assert!(!Drawable::Plane(Plane { albedo: Scalar::new(-COORD_MAX - 1), ..plane() }).is_wf());
}

#[test]
fn scene_is_well_formed_when_all_its_parts_are() {
    assert!(scene().is_wf());
    assert!(Scene { drawables: vec![], ..scene() }.is_wf());
    assert!(Scene { half_fov_tan: Scalar::new(-FOV_TAN_MAX), ..scene() }.is_wf());
    assert!(!Scene { half_fov_tan: Scalar::new(FOV_TAN_MAX + 1), ..scene() }.is_wf());
    let mut dark = scene();
    dark.light.intensity = Scalar::new(COORD_MAX + 1);
    assert!(!dark.is_wf());
    let mut far = scene();
    far.drawables.push(Drawable::Sphere(Sphere { radius: Scalar::new(COORD_MAX + 1), ..sphere() }));
    assert!(!far.is_wf());
    let mut zero_light = scene();
    zero_light.light.direction = Vector3::new(fx(0.0), fx(0.0), fx(0.0));
    assert!(zero_light.is_wf());
}

#[test]
fn ray_and_hit_are_well_formed_within_their_bounds() {
    let ray = Ray { origin: origin(), direction: unit_z() };
    assert!(ray.is_wf());
    assert!(!Ray { direction: Vector3::new(fx(2.0), fx(0.0), fx(0.0)), ..ray }.is_wf());
    assert!(!Ray { origin: Point::new(Scalar::new(COORD_MAX + 1), fx(0.0), fx(0.0)), ..ray }.is_wf());
    assert!(Intersection::new(fx(9.0), 1).is_wf(&scene()));
    assert!(!Intersection::new(fx(9.0), 2).is_wf(&scene()));
    assert!(!Intersection::new(Scalar::new(600_000_000_000_000_001), 0).is_wf(&scene()));
    assert!(Intersection::new(Scalar::new(-600_000_000_000_000_000), 0).is_wf(&scene()));
}
