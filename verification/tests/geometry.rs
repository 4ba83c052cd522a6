use raytrace::fixed::{Fixed, SCALE};
use raytrace::hittable::{HitRecord, HittableList, Sphere};
use raytrace::material::Material;
use raytrace::ray::Ray;
use raytrace::vec3::Vec3;

fn fx(v: f64) -> Fixed {
    Fixed::from_raw((v * SCALE as f64).round() as i64)
}

fn vec(x: f64, y: f64, z: f64) -> Vec3 {
    Vec3::from(fx(x), fx(y), fx(z))
}

fn gray() -> Material {
    Material::Lambertian { albedo: vec(0.5, 0.5, 0.5) }
}

#[test]
fn ray_at_evaluates() {
    let r = Ray::from(vec(1.0, 0.0, 0.0), vec(0.0, 0.0, -2.0));
    let p = r.at(fx(1.5));
    assert_eq!((p.x().raw, p.y().raw, p.z().raw), (SCALE, 0, -3 * SCALE));
}

#[test]
fn head_on_hit_distance_and_normal() {
    // A ray aimed straight at a unit sphere three units away hits at
    // t = distance - radius = 2, with the outward unit normal.
    let s = Sphere::from(vec(0.0, 0.0, -3.0), fx(1.0), gray());
    let r = Ray::from(vec(0.0, 0.0, 0.0), vec(0.0, 0.0, -1.0));
    let h = s.hit(&r, fx(0.001), fx(1000.0)).expect("head-on ray must hit");
    assert_eq!(h.t.raw, 2 * SCALE);
    assert_eq!((h.p.x().raw, h.p.y().raw, h.p.z().raw), (0, 0, -2 * SCALE));
    assert_eq!((h.normal.x().raw, h.normal.y().raw, h.normal.z().raw), (0, 0, SCALE));
    assert!(h.front_face);
}

#[test]
fn perpendicular_pass_misses() {
    // The ray passes two units above a unit sphere: no hit.
    let s = Sphere::from(vec(0.0, 0.0, -3.0), fx(1.0), gray());
    let r = Ray::from(vec(0.0, 2.0, 0.0), vec(0.0, 0.0, -1.0));
    assert!(s.hit(&r, fx(0.001), fx(1000.0)).is_none());
}

#[test]
fn tangent_ray_misses() {
    // Closest approach exactly equal to the radius: the discriminant
    // vanishes and the documented policy reports a miss.
    let s = Sphere::from(vec(0.0, 0.0, 0.0), fx(1.0), gray());
    let r = Ray::from(vec(1.0, 0.0, 3.0), vec(0.0, 0.0, -1.0));
    assert!(s.hit(&r, fx(0.001), fx(1000.0)).is_none());
}

#[test]
fn interval_is_open() {
    // A hit exactly at t_max is rejected.
    let s = Sphere::from(vec(0.0, 0.0, -3.0), fx(1.0), gray());
    let r = Ray::from(vec(0.0, 0.0, 0.0), vec(0.0, 0.0, -1.0));
    assert!(s.hit(&r, fx(0.001), fx(2.0)).is_none());
    assert!(s.hit(&r, fx(1.9), fx(2.1)).is_some());
    // With the near root at t_min excluded, the far root at t = 4 is
    // reported instead, struck from inside.
    let far = s.hit(&r, fx(2.0), fx(5.0)).expect("far root qualifies");
    assert_eq!(far.t.raw, 4 * SCALE);
    assert!(!far.front_face);
}

#[test]
fn inside_sphere_uses_far_root() {
    // From the center, the near root is behind t_min; the far root at
    // t = radius is reported, with the normal flipped inward.
    let s = Sphere::from(vec(0.0, 0.0, 0.0), fx(2.0), gray());
    let r = Ray::from(vec(0.0, 0.0, 0.0), vec(0.0, 0.0, -1.0));
    let h = s.hit(&r, fx(0.001), fx(1000.0)).expect("must hit the shell");
    assert_eq!(h.t.raw, 2 * SCALE);
    assert!(!h.front_face);
    assert_eq!((h.normal.x().raw, h.normal.y().raw, h.normal.z().raw), (0, 0, SCALE));
}

#[test]
fn nearest_of_two_overlapping_spheres() {
    // Two spheres along one ray: the reported hit has the smaller t,
    // in either insertion order.
    let near = Sphere::from(vec(0.0, 0.0, -3.0), fx(1.0), gray());
    let far = Sphere::from(
        vec(0.0, 0.0, -5.0),
        fx(1.0),
        Material::Metal { albedo: vec(0.9, 0.9, 0.9), fuzz: fx(0.0) },
    );
    let r = Ray::from(vec(0.0, 0.0, 0.0), vec(0.0, 0.0, -1.0));

    let mut world = HittableList::new();
    world.push(far);
    world.push(near);
    let h = world.hit(&r, fx(0.001), fx(1000.0)).expect("must hit");
    assert_eq!(h.t.raw, 2 * SCALE);
    assert!(matches!(h.material, Material::Lambertian { .. }));

    let mut world2 = HittableList::new();
    world2.push(near);
    world2.push(far);
    let h2 = world2.hit(&r, fx(0.001), fx(1000.0)).expect("must hit");
    assert_eq!(h2.t.raw, 2 * SCALE);
    assert!(matches!(h2.material, Material::Lambertian { .. }));
}

#[test]
fn empty_scene_misses() {
    let world = HittableList::new();
    let r = Ray::from(vec(0.0, 0.0, 0.0), vec(0.0, 0.0, -1.0));
    assert!(world.hit(&r, fx(0.001), fx(1000.0)).is_none());
}

#[test]
fn clear_empties_the_scene() {
    let mut world = HittableList::new();
    world.push(Sphere::from(vec(0.0, 0.0, -3.0), fx(1.0), gray()));
    let r = Ray::from(vec(0.0, 0.0, 0.0), vec(0.0, 0.0, -1.0));
    assert!(world.hit(&r, fx(0.001), fx(1000.0)).is_some());
    world.clear();
    assert!(world.hit(&r, fx(0.001), fx(1000.0)).is_none());
}

#[test]
fn set_face_normal_orients_against_ray() {
    let mut rec = HitRecord::new();
    let r = Ray::from(vec(0.0, 0.0, 0.0), vec(0.0, 0.0, -1.0));
    rec.set_face_normal(&r, vec(0.0, 0.0, 1.0));
    assert!(rec.front_face);
    assert_eq!(rec.normal.z().raw, SCALE);
    rec.set_face_normal(&r, vec(0.0, 0.0, -1.0));
    assert!(!rec.front_face);
    assert_eq!(rec.normal.z().raw, SCALE);
}
