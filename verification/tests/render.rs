use raytrace::camera::Camera;
use raytrace::color::{clamp, color_bytes};
use raytrace::fixed::{Fixed, SCALE};
use raytrace::hittable::{HittableList, Sphere};
use raytrace::material::Material;
use raytrace::ray::Ray;
use raytrace::tracer::{ray_color, render};
use raytrace::vec3::Vec3;

fn fx(v: f64) -> Fixed {
    Fixed::from_raw((v * SCALE as f64).round() as i64)
}

fn vec(x: f64, y: f64, z: f64) -> Vec3 {
    Vec3::from(fx(x), fx(y), fx(z))
}

fn two_sphere_scene() -> HittableList {
    let mut world = HittableList::new();
    world.push(Sphere::from(
        vec(0.0, 0.0, -1.0),
        fx(0.5),
        Material::Lambertian { albedo: vec(0.5, 0.5, 0.5) },
    ));
    world.push(Sphere::from(
        vec(0.0, -100.5, -1.0),
        fx(100.0),
        Material::Lambertian { albedo: vec(0.5, 0.5, 0.5) },
    ));
    world
}

#[test]
fn depth_zero_is_black() {
    let world = two_sphere_scene();
    let rays = [
        Ray::from(vec(0.0, 0.0, 0.0), vec(0.0, 0.0, -1.0)),
        Ray::from(vec(5.0, 1.0, 2.0), vec(-1.0, 0.5, 0.25)),
    ];
    for r in rays {
        let c = ray_color(&r, &world, 0);
        assert_eq!((c.x().raw, c.y().raw, c.z().raw), (0, 0, 0));
    }
}

#[test]
fn miss_yields_exact_sky_gradient() {
    // A horizontal unit direction: t = 0.5, color =
    // 0.5 * white + 0.5 * (0.5, 0.7, 1.0), exactly in fixed point.
    let world = two_sphere_scene();
    let r = Ray::from(vec(0.0, 10.0, 0.0), vec(0.0, 0.0, -1.0));
    let c = ray_color(&r, &world, 5);
    assert_eq!(c.x().raw, 49152); // 0.75
    assert_eq!(c.y().raw, 55705); // 0.5 + 45875/2 (truncated)
    assert_eq!(c.z().raw, SCALE); // 1.0
}

#[test]
fn hit_color_attenuated_and_in_range() {
    let world = two_sphere_scene();
    let r = Ray::from(vec(0.0, 0.0, 0.0), vec(0.0, 0.0, -1.0));
    for _ in 0..50 {
        let c = ray_color(&r, &world, 5);
        for ch in [c.x().raw, c.y().raw, c.z().raw] {
            assert!(0 <= ch && ch <= SCALE);
        }
    }
}

#[test]
fn gamma_round_trip_quarter() {
    // A channel sum converging to exactly 0.25 over N samples encodes
    // to floor(256 * clamp(sqrt(0.25), 0, 0.999)) = 128, exactly.
    for n in [1u32, 2, 4, 100] {
        let sum = Fixed::from_raw(n as i64 * (SCALE / 4));
        let c = Vec3::from(sum, sum, sum);
        assert_eq!(color_bytes(c, n), (128, 128, 128));
    }
}

#[test]
fn quantization_clamps_to_byte() {
    // A full white channel quantizes to 255, not 256.
    assert_eq!(color_bytes(vec(1.0, 1.0, 1.0), 1), (255, 255, 255));
    assert_eq!(color_bytes(vec(0.0, 0.0, 0.0), 1), (0, 0, 0));
    // Values past white still clamp.
    assert_eq!(color_bytes(vec(9.0, 9.0, 9.0), 1), (255, 255, 255));
}

#[test]
fn clamp_behavior() {
    assert_eq!(clamp(fx(0.5), fx(0.0), fx(1.0)).raw, fx(0.5).raw);
    assert_eq!(clamp(fx(-0.5), fx(0.0), fx(1.0)).raw, 0);
    assert_eq!(clamp(fx(1.5), fx(0.0), fx(1.0)).raw, SCALE);
}

#[test]
fn default_camera_center_ray_is_straight() {
    let cam = Camera::new();
    let r = cam.get_ray(fx(0.5), fx(0.5));
    assert_eq!(r.origin.x().raw, 0);
    assert_eq!(r.origin.y().raw, 0);
    assert_eq!(r.origin.z().raw, 0);
    assert_eq!(
        (r.direction.x().raw, r.direction.y().raw, r.direction.z().raw),
        (0, 0, -SCALE)
    );
}

#[test]
fn thin_lens_camera_aims_at_target() {
    let look_from = vec(13.0, 2.0, 3.0);
    let look_at = vec(0.0, 0.0, 0.0);
    let cam = Camera::from(
        look_from,
        look_at,
        vec(0.0, 1.0, 0.0),
        fx(0.17633), // tan(10 degrees): a 20-degree vertical field of view
        fx(16.0 / 9.0),
        fx(0.1),
        fx(10.0),
    );
    let r = cam.get_ray(fx(0.5), fx(0.5));
    // The center ray leaves near the eye, aimed toward the target.
    assert!((r.origin.x().raw - look_from.x().raw).abs() <= SCALE / 10);
    let toward = look_at.sub(look_from);
    assert!(r.direction.dot(toward).raw > 0);
}

#[test]
fn degenerate_camera_falls_back_to_axes() {
    // Eye on target: the orientation falls back to the default axes
    // instead of dividing by a vanishing length.
    let cam = Camera::from(
        vec(1.0, 1.0, 1.0),
        vec(1.0, 1.0, 1.0),
        vec(0.0, 1.0, 0.0),
        fx(1.0),
        fx(1.0),
        fx(0.0),
        fx(1.0),
    );
    let r = cam.get_ray(fx(0.5), fx(0.5));
    // The fallback w is -z, so the center ray still aims down -z.
    assert!(r.direction.z().raw < 0);
}

#[test]
fn end_to_end_small_frame() {
    // The P10 scene: one Lambertian sphere over a Lambertian ground,
    // the default camera looking down -z, 2 samples per pixel, depth 5.
    let world = two_sphere_scene();
    let cam = Camera::new();
    let width = 96u32;
    let height = 54u32;
    let pixels = render(&world, &cam, width, height, 2, 5);
    assert_eq!(pixels.len(), (width * height) as usize);

    // Every channel is a byte by construction; the top row (sky) must
    // sit closer to the blue gradient than the bottom rows that strike
    // the ground: measure blueness as (blue - red) per pixel.
    let blueness = |row: &[(u8, u8, u8)]| -> i64 {
        row.iter().map(|&(r, _, b)| b as i64 - r as i64).sum::<i64>() / row.len() as i64
    };
    let top = blueness(&pixels[0..width as usize]);
    let bottom = blueness(&pixels[((height - 1) * width) as usize..]);
    assert!(
        top > bottom,
        "top row blueness {} must exceed bottom row blueness {}",
        top,
        bottom
    );
    assert!(top > 20, "the sky row must be visibly blue, got {}", top);
}
