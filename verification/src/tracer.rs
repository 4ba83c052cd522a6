//! The radiance integrator and the frame renderer.
//!
//! `ray_color` resolves the color seen along a ray by intersecting the
//! scene and recursing through the struck material's scatter, bounded
//! by a recursion budget; a miss yields the sky gradient.  `render`
//! drives the per-pixel Monte Carlo sampling and quantizes each pixel.
//!
//! The search interval for each bounce is `(SHADOW_EPS, COORD_MAX)`:
//! the lower bound is the shadow-acne epsilon (about `0.001`), the far
//! bound stands at the envelope's edge, beyond any parametric distance
//! a hit inside the envelope can need from a reasonably scaled
//! direction.  A ray whose origin, direction or length leaves the
//! envelope contributes black.

use vstd::prelude::*;

use crate::camera::{camera_wf, Camera};
use crate::color::{clamp_spec, color_bytes};
use crate::fixed::{fmul, lemma_fmul_unit, lemma_tdiv_bound, lemma_tdiv_nonneg, Fixed,
    SCALE};
use crate::hittable::{lemma_list_hit_props, list_hit_spec, HittableList};
use crate::material::color_in_unit;
use crate::ray::{ray_in_range, Ray, RayV};
use crate::rng::random_raw_in;
use crate::vec3::{add3, in_range, len_sq3, scale3, unit3, Vec3, V3, COORD_MAX};

verus! {

/// The shadow-acne epsilon: scattered rays ignore hits nearer than
/// about `0.001`, so they cannot re-strike their own origin surface.
pub const SHADOW_EPS: i64 = 66;

/// Black, the color of an exhausted or absorbed ray.
pub open spec fn black3() -> V3 {
    V3 { x: 0, y: 0, z: 0 }
}

/// A ray the integrator traces rather than discards: both endpoints in
/// the envelope and a direction long enough to normalize.
pub open spec fn ray_ok3(r: RayV) -> bool {
    ray_in_range(r, COORD_MAX as int) && len_sq3(r.direction) >= 1
}

/// The sky: a vertical gradient from white to light blue in the unit
/// direction's height.  The interpolation parameter is clamped to
/// `[0, 1]`, absorbing normalization slack.
pub open spec fn background_spec(dir: V3) -> V3 {
    let s = SCALE as int;
    let t = clamp_spec(fmul(unit3(dir).y + s, s / 2), 0, s);
    add3(
        scale3(V3 { x: s, y: s, z: s }, s - t),
        scale3(V3 { x: s / 2, y: 45875, z: s }, t),
    )
}

/// The sky gradient, exact per `background_spec`; every channel stays
/// in the unit interval.
fn background(dir: Vec3) -> (r: Vec3)
    requires
        in_range(dir@, COORD_MAX as int),
        len_sq3(dir@) >= 1,
    ensures
        r@ === background_spec(dir@),
        color_in_unit(r@),
{
    let ghost s = SCALE as int;
    let one = Fixed::one();
    let half = Fixed::from_raw(SCALE / 2);
    let unit_dir = dir.unit_vector();
    proof {
        crate::fixed::lemma_fmul_bound(unit_dir@.y + s, half@, 5 * s, s / 2);
        assert(((5 * s) * (s / 2)) / s <= 3 * s) by (nonlinear_arith)
            requires
                s == 65536,
        ;
    }
    let t = crate::color::clamp(unit_dir.y().add(one).mul(half), Fixed::zero(), one);
    let white = Vec3::from(one, one, one);
    let blue = Vec3::from(half, Fixed::from_raw(45875), one);
    proof {
        lemma_fmul_unit(s, s - t@);
        lemma_fmul_unit(s, t@);
        lemma_fmul_unit(s / 2, s - t@);
        lemma_fmul_unit(s / 2, t@);
        lemma_fmul_unit(45875, s - t@);
        lemma_fmul_unit(45875, t@);
    }
    white.scale(one.sub(t)).add(blue.scale(t))
}

/// The color seen along a ray.
///
/// An exhausted recursion budget yields exactly black, whatever the
/// scene holds.  A traced ray that misses every object yields exactly
/// the sky gradient.  On a hit, the struck material either scatters —
/// the result is its attenuation blended with the color of the
/// scattered ray, one bounce deeper — or absorbs, yielding black.
/// Every channel of the result lies in the unit interval.
pub fn ray_color(ray: &Ray, world: &HittableList, depth: u32) -> (r: Vec3)
    requires
        world.wf(),
    ensures
        color_in_unit(r@),
        depth == 0 ==> r@ === black3(),
        (depth > 0 && ray_ok3(ray@) && list_hit_spec(world.objects@, ray@,
            SHADOW_EPS as int, COORD_MAX as int) is None) ==> r@ === background_spec(
            ray@.direction),
    decreases depth,
{
    if depth == 0 {
        return Vec3::new();
    }
    if !ray.origin().within(COORD_MAX) || !ray.direction().within(COORD_MAX) {
        return Vec3::new();
    }
    if ray.direction().length_squared().raw < 1 {
        return Vec3::new();
    }
    let hit = world.hit(ray, Fixed::from_raw(SHADOW_EPS), Fixed::from_raw(COORD_MAX));
    match hit {
        Some(rec) => {
            proof {
                lemma_list_hit_props(world.objects@, ray@, SHADOW_EPS as int,
                    COORD_MAX as int);
            }
            match rec.material.scatter(ray, &rec) {
                Some(pair) => {
                    let (attenuation, scattered) = pair;
                    let rec_color = ray_color(&scattered, world, depth - 1);
                    proof {
                        lemma_fmul_unit(attenuation@.x, rec_color@.x);
                        lemma_fmul_unit(attenuation@.y, rec_color@.y);
                        lemma_fmul_unit(attenuation@.z, rec_color@.z);
                    }
                    attenuation.mul(rec_color)
                },
                None => Vec3::new(),
            }
        },
        None => background(ray.direction()),
    }
}

/// One image-plane coordinate `(index + xi) / (extent - 1)`, for a
/// jitter `xi` drawn from `[0, 1)`: it lies in `[0, 2]`.
fn plane_coord(index: u32, extent: u32) -> (r: Fixed)
    requires
        extent >= 2,
        index < extent,
    ensures
        0 <= r@ <= 2 * (SCALE as int),
{
    let ghost s = SCALE as int;
    let xi = Fixed::from_raw(random_raw_in(0, SCALE));
    let num = Fixed::from_int(index as i64).add(xi);
    let den = Fixed::from_int((extent - 1) as i64);
    proof {
        assert(0 <= num@ <= (extent as int) * s && den@ == ((extent - 1) as int) * s);
        lemma_tdiv_bound(num@ * s, den@, (extent as int) * s * s);
        lemma_tdiv_nonneg(num@ * s, den@);
        assert(((extent as int) * s * s) / (((extent - 1) as int) * s) <= 2 * s)
            by (nonlinear_arith)
            requires
                s == 65536,
                extent >= 2,
        ;
    }
    num.div(den)
}

/// Renders the scene: for every pixel, `samples_per_pixel` jittered
/// camera rays are traced to depth `max_depth` and averaged, and the
/// gamma-corrected pixel bytes are emitted in row-major order starting
/// from the image's top row.
pub fn render(
    world: &HittableList,
    cam: &Camera,
    image_width: u32,
    image_height: u32,
    samples_per_pixel: u32,
    max_depth: u32,
) -> (pixels: Vec<(u8, u8, u8)>)
    requires
        world.wf(),
        camera_wf(cam@),
        2 <= image_width,
        2 <= image_height,
        (image_width as int) * (image_height as int) <= 0x7FFF_FFFF,
        1 <= samples_per_pixel <= 0x1000_0000,
    ensures
        pixels@.len() == (image_width as int) * (image_height as int),
{
    let ghost s = SCALE as int;
    let mut pixels: Vec<(u8, u8, u8)> = Vec::new();
    let mut j: u32 = image_height;
    while j > 0
        invariant
            world.wf(),
            camera_wf(cam@),
            2 <= image_width,
            2 <= image_height,
            (image_width as int) * (image_height as int) <= 0x7FFF_FFFF,
            1 <= samples_per_pixel <= 0x1000_0000,
            j <= image_height,
            pixels@.len() == ((image_height - j) as int) * (image_width as int),
        decreases j,
    {
        j = j - 1;
        let mut i: u32 = 0;
        proof {
            assert(((image_height - j) as int) * (image_width as int) == ((image_height
                - 1 - j) as int) * (image_width as int) + (image_width as int))
                by (nonlinear_arith)
                requires
                    0 <= j < image_height,
            ;
            assert(((image_height - 1 - j) as int) * (image_width as int) >= 0)
                by (nonlinear_arith)
                requires
                    0 <= j < image_height,
                    image_width >= 2,
            ;
            assert(((image_height - j) as int) * (image_width as int)
                <= (image_height as int) * (image_width as int)) by (nonlinear_arith)
                requires
                    0 <= j < image_height,
                    image_width >= 2,
            ;
        }
        while i < image_width
            invariant
                world.wf(),
                camera_wf(cam@),
                2 <= image_width,
                2 <= image_height,
                1 <= samples_per_pixel <= 0x1000_0000,
                j < image_height,
                i <= image_width,
                pixels@.len() == ((image_height - 1 - j) as int) * (image_width as int)
                    + i,
                ((image_height - j) as int) * (image_width as int) <= 0x7FFF_FFFF,
            decreases image_width - i,
        {
            let mut color = Vec3::new();
            let mut s_i: u32 = 0;
            while s_i < samples_per_pixel
                invariant
                    world.wf(),
                    camera_wf(cam@),
                    2 <= image_width,
                    2 <= image_height,
                    1 <= samples_per_pixel <= 0x1000_0000,
                    j < image_height,
                    i < image_width,
                    s_i <= samples_per_pixel,
                    0 <= color@.x <= (s_i as int) * 65536,
                    0 <= color@.y <= (s_i as int) * 65536,
                    0 <= color@.z <= (s_i as int) * 65536,
                decreases samples_per_pixel - s_i,
            {
                let u = plane_coord(i, image_width);
                let v = plane_coord(j, image_height);
                let ray = cam.get_ray(u, v);
                let sample = ray_color(&ray, world, max_depth);
                proof {
                    assert((s_i as int) * 65536 + 65536 == ((s_i + 1) as int) * 65536
                        && ((s_i + 1) as int) * 65536 <= 0x1000_0000 * 65536)
                        by (nonlinear_arith)
                        requires
                            0 <= s_i < samples_per_pixel <= 0x1000_0000,
                    ;
                }
                color = color.add(sample);
                s_i = s_i + 1;
            }
            let px = color_bytes(color, samples_per_pixel);
            pixels.push(px);
            i = i + 1;
        }
    }
    proof {
        assert(((image_height - 0) as int) * (image_width as int) == (image_width as int)
            * (image_height as int)) by (nonlinear_arith);
    }
    pixels
}

} // verus!
