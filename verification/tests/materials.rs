use raytrace::fixed::{Fixed, SCALE};
use raytrace::hittable::HitRecord;
use raytrace::material::Material;
use raytrace::ray::Ray;
use raytrace::vec3::Vec3;

fn fx(v: f64) -> Fixed {
    Fixed::from_raw((v * SCALE as f64).round() as i64)
}

fn vec(x: f64, y: f64, z: f64) -> Vec3 {
    Vec3::from(fx(x), fx(y), fx(z))
}

fn hit_at(p: Vec3, normal: Vec3, front_face: bool, material: Material) -> HitRecord {
    let mut rec = HitRecord::new();
    rec.p = p;
    rec.normal = normal;
    rec.t = fx(1.0);
    rec.front_face = front_face;
    rec.material = material;
    rec
}

#[test]
fn metal_zero_fuzz_is_exact_mirror() {
    let m = Material::Metal { albedo: vec(0.8, 0.8, 0.8), fuzz: fx(0.0) };
    let rec = hit_at(vec(0.0, 0.0, 0.0), vec(0.0, 1.0, 0.0), true, m);
    let ray_in = Ray::from(vec(-1.0, 1.0, 0.0), vec(1.0, -1.0, 0.0));
    let (attenuation, scattered) = m.scatter(&ray_in, &rec).expect("mirror must scatter");
    let expected = ray_in.direction().unit_vector().reflect(rec.normal);
    assert_eq!(scattered.direction, expected);
    assert_eq!(scattered.origin, rec.p);
    assert_eq!(attenuation, vec(0.8, 0.8, 0.8));
}

#[test]
fn metal_absorbs_into_surface() {
    // The mirror direction points into the surface: absorbed.
    let m = Material::Metal { albedo: vec(0.8, 0.8, 0.8), fuzz: fx(0.0) };
    let rec = hit_at(vec(0.0, 0.0, 0.0), vec(0.0, 1.0, 0.0), true, m);
    let ray_in = Ray::from(vec(0.0, -1.0, 0.0), vec(0.0, 1.0, 0.0));
    assert!(m.scatter(&ray_in, &rec).is_none());
}

#[test]
fn metal_fuzz_clamped_to_one() {
    // fuzz 1.5 acts as fuzz 1: with the offset fixed, the scattered
    // direction is the mirror direction plus exactly one offset.
    let m = Material::Metal { albedo: vec(0.8, 0.8, 0.8), fuzz: fx(1.5) };
    let rec = hit_at(vec(0.0, 0.0, 0.0), vec(0.0, 1.0, 0.0), true, m);
    let ray_in = Ray::from(vec(0.0, 1.0, 0.0), vec(0.0, -1.0, 0.0));
    let rv = vec(0.0, 0.25, 0.0);
    let (_, scattered) = m
        .scatter_with(&ray_in, &rec, rv, fx(0.5))
        .expect("offset stays above the surface");
    let mirror = ray_in.direction().unit_vector().reflect(rec.normal);
    assert_eq!(scattered.direction, mirror.add(rv.scale(fx(1.0))));
}

#[test]
fn lambertian_always_scatters_with_albedo() {
    let albedo = vec(0.2, 0.4, 0.6);
    let m = Material::Lambertian { albedo };
    let rec = hit_at(vec(0.0, 0.0, -1.0), vec(0.0, 0.0, 1.0), true, m);
    let ray_in = Ray::from(vec(0.0, 0.0, 0.0), vec(0.0, 0.0, -1.0));
    for _ in 0..50 {
        let (attenuation, scattered) = m.scatter(&ray_in, &rec).expect("diffuse always scatters");
        assert_eq!(attenuation, albedo);
        assert_eq!(scattered.origin, rec.p);
    }
}

#[test]
fn dielectric_normal_incidence_never_total_internal() {
    // Entering glass head on: never total internal reflection, and
    // with the coin forced past the Schlick probability (about 0.04),
    // the ray refracts straight through.
    let m = Material::Dielectric { ref_idx: fx(1.5) };
    let rec = hit_at(vec(0.0, 0.0, -1.0), vec(0.0, 0.0, 1.0), true, m);
    let ray_in = Ray::from(vec(0.0, 0.0, 0.0), vec(0.0, 0.0, -1.0));
    let (attenuation, scattered) = m
        .scatter_with(&ray_in, &rec, vec(0.0, 0.0, 0.0), fx(0.9))
        .expect("dielectric always scatters");
    assert_eq!(attenuation, vec(1.0, 1.0, 1.0));
    assert!(scattered.direction.z().raw < 0, "must continue into the medium");
    assert!(scattered.direction.x().raw.abs() < 200);
    assert!(scattered.direction.y().raw.abs() < 200);
}

#[test]
fn dielectric_reflects_on_low_coin() {
    // A coin below the Schlick probability reflects instead.
    let m = Material::Dielectric { ref_idx: fx(1.5) };
    let rec = hit_at(vec(0.0, 0.0, -1.0), vec(0.0, 0.0, 1.0), true, m);
    let ray_in = Ray::from(vec(0.0, 0.0, 0.0), vec(0.0, 0.0, -1.0));
    let (_, scattered) = m
        .scatter_with(&ray_in, &rec, vec(0.0, 0.0, 0.0), fx(0.0))
        .expect("dielectric always scatters");
    let mirror = ray_in.direction().unit_vector().reflect(rec.normal);
    assert_eq!(scattered.direction, mirror);
}

#[test]
fn dielectric_total_internal_reflection() {
    // Leaving glass at a grazing angle: eta * sin_theta > 1, so the
    // ray must reflect whatever the coin says.
    let m = Material::Dielectric { ref_idx: fx(1.5) };
    let rec = hit_at(vec(0.0, 0.0, 0.0), vec(0.0, 1.0, 0.0), false, m);
    let ray_in = Ray::from(vec(0.0, -1.0, 0.0), vec(1.0, 0.25, 0.0));
    let (_, scattered) = m
        .scatter_with(&ray_in, &rec, vec(0.0, 0.0, 0.0), fx(0.99))
        .expect("dielectric always scatters");
    let mirror = ray_in.direction().unit_vector().reflect(rec.normal);
    assert_eq!(scattered.direction, mirror);
}
