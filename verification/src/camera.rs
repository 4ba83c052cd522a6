//! The camera: maps normalized image-plane coordinates to world-space
//! rays, modeling field of view, aspect ratio, orientation and a
//! thin-lens depth-of-field approximation.
//!
//! The vertical field of view enters as the tangent of its half angle
//! (`tan(vfov / 2)`), a plain fixed-point value the caller computes.

use vstd::prelude::*;

use crate::fixed::{fdiv, fmul, Fixed, SCALE};
use crate::ray::{Ray, RayV};
use crate::vec3::{
    add3, cross3, div3, in_range, len_sq3, scale3, sub3, unit3, lemma_cross3_bound,
    lemma_scale3_bound, Vec3, V3, COORD_MAX, PROD_ARG_MAX,
};

verus! {

/// The mathematical image of a camera: its derived frame.
pub struct CameraV {
    pub origin: V3,
    pub lower_left_corner: V3,
    pub horizontal: V3,
    pub vertical: V3,
    pub u: V3,
    pub v: V3,
    pub lens_radius: int,
}

/// The view direction's basis vector: against the view, normalized; a
/// degenerate orientation (eye on target) falls back to the default
/// axis.
pub open spec fn camera_w_spec(look_from: V3, look_at: V3) -> V3 {
    let d = sub3(look_from, look_at);
    if len_sq3(d) >= 1 {
        unit3(d)
    } else {
        V3 { x: 0, y: 0, z: SCALE as int }
    }
}

/// The horizontal basis vector from the up direction and `w`; an up
/// direction parallel to the view falls back to the default axis.
pub open spec fn camera_u_spec(vup: V3, w: V3) -> V3 {
    let cu = cross3(vup, w);
    if len_sq3(cu) >= 1 {
        unit3(cu)
    } else {
        V3 { x: SCALE as int, y: 0, z: 0 }
    }
}

/// The frame derived from look-from/look-at/up, the tangent of the half
/// field of view, the aspect ratio, the aperture and the focus
/// distance.
pub open spec fn camera_from_spec(
    look_from: V3,
    look_at: V3,
    vup: V3,
    tan_half_vfov: int,
    aspect_ratio: int,
    aperture: int,
    focus_dist: int,
) -> CameraV {
    let s = SCALE as int;
    let w = camera_w_spec(look_from, look_at);
    let u = camera_u_spec(vup, w);
    let v = cross3(w, u);
    let vp_height = 2 * tan_half_vfov;
    let vp_width = fmul(aspect_ratio, vp_height);
    let horizontal = scale3(scale3(u, vp_width), focus_dist);
    let vertical = scale3(scale3(v, vp_height), focus_dist);
    let lower_left_corner = sub3(
        sub3(sub3(look_from, div3(horizontal, 2 * s)), div3(vertical, 2 * s)),
        scale3(w, focus_dist),
    );
    CameraV {
        origin: look_from,
        lower_left_corner,
        horizontal,
        vertical,
        u,
        v,
        lens_radius: fdiv(aperture, 2 * s),
    }
}

/// The default axis-aligned camera: a 16:9 viewport of height 2 at
/// focal length 1, no lens blur.
pub open spec fn camera_new_spec() -> CameraV {
    let s = SCALE as int;
    let aspect_ratio = fdiv(16 * s, 9 * s);
    let vp_width = fmul(aspect_ratio, 2 * s);
    let origin = V3 { x: 0, y: 0, z: 0 };
    let horizontal = V3 { x: vp_width, y: 0, z: 0 };
    let vertical = V3 { x: 0, y: 2 * s, z: 0 };
    let lower_left_corner = sub3(
        sub3(sub3(origin, div3(horizontal, 2 * s)), div3(vertical, 2 * s)),
        V3 { x: 0, y: 0, z: s },
    );
    CameraV {
        origin,
        lower_left_corner,
        horizontal,
        vertical,
        u: V3 { x: s, y: 0, z: 0 },
        v: V3 { x: 0, y: s, z: 0 },
        lens_radius: 0,
    }
}

/// The ray through plane coordinates `(s, t)` for the lens-disk sample
/// `disk`: it leaves the lens point toward the corresponding point of
/// the focus plane.
pub open spec fn get_ray_spec(c: CameraV, s_coord: int, t_coord: int, disk: V3) -> RayV {
    let rd = scale3(disk, c.lens_radius);
    let offset = add3(scale3(c.u, rd.x), scale3(c.v, rd.y));
    RayV {
        origin: add3(c.origin, offset),
        direction: sub3(
            sub3(
                add3(
                    add3(c.lower_left_corner, scale3(c.horizontal, s_coord)),
                    scale3(c.vertical, t_coord),
                ),
                c.origin,
            ),
            offset,
        ),
    }
}

/// A camera with precomputed basis vectors, viewport extents and lens
/// radius, immutable after construction.
#[derive(Clone, Copy, PartialEq, Eq, Structural, Debug)]
pub struct Camera {
    pub origin: Vec3,
    pub lower_left_corner: Vec3,
    pub horizontal: Vec3,
    pub vertical: Vec3,
    pub u: Vec3,
    pub v: Vec3,
    pub lens_radius: Fixed,
}

impl View for Camera {
    type V = CameraV;

    open spec fn view(&self) -> CameraV {
        CameraV {
            origin: self.origin@,
            lower_left_corner: self.lower_left_corner@,
            horizontal: self.horizontal@,
            vertical: self.vertical@,
            u: self.u@,
            v: self.v@,
            lens_radius: self.lens_radius@,
        }
    }
}

/// The frame bounds every constructed camera guarantees, generous
/// enough for all of `get_ray`'s arithmetic.
pub open spec fn camera_wf(c: CameraV) -> bool {
    &&& in_range(c.origin, COORD_MAX as int)
    &&& in_range(c.lower_left_corner, PROD_ARG_MAX as int)
    &&& in_range(c.horizontal, PROD_ARG_MAX as int)
    &&& in_range(c.vertical, PROD_ARG_MAX as int)
    &&& in_range(c.u, 4 * (SCALE as int))
    &&& in_range(c.v, 32 * (SCALE as int))
    &&& 0 <= c.lens_radius <= 16 * (SCALE as int)
}

impl Camera {
    /// The camera looking from `look_from` toward `look_at` with up
    /// direction `vup`, vertical field of view given as the tangent of
    /// its half angle, and a thin lens of the given aperture focused at
    /// `focus_dist`.  A degenerate orientation — the eye on the
    /// target, or an up direction parallel to the view — falls back to
    /// the default axes.
    #[verifier::rlimit(60)]
    pub fn from(
        look_from: Vec3,
        look_at: Vec3,
        vup: Vec3,
        tan_half_vfov: Fixed,
        aspect_ratio: Fixed,
        aperture: Fixed,
        focus_dist: Fixed,
    ) -> (r: Camera)
        requires
            in_range(look_from@, COORD_MAX as int),
            in_range(look_at@, COORD_MAX as int),
            in_range(vup@, COORD_MAX as int),
            0 <= tan_half_vfov@ <= 16 * (SCALE as int),
            0 <= aspect_ratio@ <= 16 * (SCALE as int),
            0 <= aperture@ <= 32 * (SCALE as int),
            1 <= focus_dist@ <= COORD_MAX as int,
        ensures
            r@ === camera_from_spec(look_from@, look_at@, vup@, tan_half_vfov@,
                aspect_ratio@, aperture@, focus_dist@),
            camera_wf(r@),
    {
        let ghost s = SCALE as int;
        let ghost v_env = COORD_MAX as int;
        let two = Fixed::from_int(2);
        let zero = Fixed::zero();
        let one = Fixed::one();
        let d = look_from.sub(look_at);
        let w = if d.length_squared().raw >= 1 {
            d.unit_vector()
        } else {
            Vec3::from(zero, zero, one)
        };
        proof {
            assert(w@ === camera_w_spec(look_from@, look_at@));
            lemma_cross3_bound(vup@, w@, v_env, 4 * s);
            assert(2 * ((v_env * (4 * s)) / s) == 8 * v_env) by (nonlinear_arith)
                requires
                    s == 65536,
                    v_env == COORD_MAX as int,
            ;
        }
        let cu = vup.cross(w);
        let u = if cu.length_squared().raw >= 1 {
            cu.unit_vector()
        } else {
            Vec3::from(one, zero, zero)
        };
        proof {
            assert(u@ === camera_u_spec(vup@, w@));
            lemma_cross3_bound(w@, u@, 4 * s, 4 * s);
            assert(2 * (((4 * s) * (4 * s)) / s) == 32 * s) by (nonlinear_arith)
                requires
                    s == 65536,
            ;
        }
        let v = w.cross(u);
        let vp_height = tan_half_vfov.add(tan_half_vfov);
        proof {
            crate::fixed::lemma_fmul_bound(aspect_ratio@, vp_height@, 16 * s, 32 * s);
            assert(((16 * s) * (32 * s)) / s == 512 * s) by (nonlinear_arith)
                requires
                    s == 65536,
            ;
        }
        let vp_width = aspect_ratio.mul(vp_height);
        proof {
            lemma_scale3_bound(u@, vp_width@, 4 * s, 512 * s);
            assert(((4 * s) * (512 * s)) / s == 2048 * s) by (nonlinear_arith)
                requires
                    s == 65536,
            ;
            lemma_scale3_bound(scale3(u@, vp_width@), focus_dist@, 2048 * s, v_env);
            lemma_scale3_bound(v@, vp_height@, 32 * s, 32 * s);
            assert(((32 * s) * (32 * s)) / s == 1024 * s) by (nonlinear_arith)
                requires
                    s == 65536,
            ;
            lemma_scale3_bound(scale3(v@, vp_height@), focus_dist@, 1024 * s, v_env);
            assert(((2048 * s) * v_env) / s == 2048 * v_env && ((1024 * s) * v_env) / s
                == 1024 * v_env) by (nonlinear_arith)
                requires
                    s == 65536,
                    v_env == COORD_MAX as int,
            ;
            lemma_scale3_bound(w@, focus_dist@, 4 * s, v_env);
            assert(((4 * s) * v_env) / s == 4 * v_env) by (nonlinear_arith)
                requires
                    s == 65536,
                    v_env == COORD_MAX as int,
            ;
        }
        let horizontal = u.scale(vp_width).scale(focus_dist);
        let vertical = v.scale(vp_height).scale(focus_dist);
        proof {
            crate::vec3::lemma_div3_bound(horizontal@, 2 * s, 2048 * v_env);
            crate::vec3::lemma_div3_bound(vertical@, 2 * s, 1024 * v_env);
            assert(((2048 * v_env) * s) / (2 * s) == 1024 * v_env && ((1024 * v_env) * s)
                / (2 * s) == 512 * v_env) by (nonlinear_arith)
                requires
                    s == 65536,
                    v_env == COORD_MAX as int,
            ;
            crate::fixed::lemma_tdiv_bound(aperture@ * s, 2 * s, (32 * s) * s);
            assert(((32 * s) * s) / (2 * s) == 16 * s && aperture@ * s >= 0)
                by (nonlinear_arith)
                requires
                    s == 65536,
                    aperture@ >= 0,
            ;
            crate::fixed::lemma_tdiv_nonneg(aperture@ * s, 2 * s);
        }
        let lower_left_corner = look_from.sub(horizontal.div(two)).sub(vertical.div(two))
            .sub(w.scale(focus_dist));
        let lens_radius = aperture.div(two);
        Camera {
            origin: look_from,
            lower_left_corner,
            horizontal,
            vertical,
            u,
            v,
            lens_radius,
        }
    }

    /// The default camera of the fixed 16:9 viewport.
    pub fn new() -> (r: Camera)
        ensures
            r@ === camera_new_spec(),
            camera_wf(r@),
    {
        let one = Fixed::one();
        let two = Fixed::from_int(2);
        let zero = Fixed::zero();
        let aspect_ratio = Fixed::from_int(16).div(Fixed::from_int(9));
        let viewport_height = two;
        let viewport_width = aspect_ratio.mul(viewport_height);
        let origin = Vec3::new();
        let horizontal = Vec3::from(viewport_width, zero, zero);
        let vertical = Vec3::from(zero, viewport_height, zero);
        let lower_left_corner = origin.sub(horizontal.div(two)).sub(vertical.div(two)).sub(
            Vec3::from(zero, zero, one));
        Camera {
            origin,
            lower_left_corner,
            horizontal,
            vertical,
            u: Vec3::from(one, zero, zero),
            v: Vec3::from(zero, one, zero),
            lens_radius: zero,
        }
    }

    /// The ray toward plane coordinates `(s, t)`, for a given lens-disk
    /// sample: exact per `get_ray_spec`.
    pub fn get_ray_with(&self, s_coord: Fixed, t_coord: Fixed, disk: Vec3) -> (r: Ray)
        requires
            camera_wf(self@),
            0 <= s_coord@ <= 2 * (SCALE as int),
            0 <= t_coord@ <= 2 * (SCALE as int),
            in_range(disk@, SCALE as int),
        ensures
            r@ === get_ray_spec(self@, s_coord@, t_coord@, disk@),
    {
        let ghost s = SCALE as int;
        proof {
            lemma_scale3_bound(disk@, self@.lens_radius, s, 16 * s);
            assert((s * (16 * s)) / s == 16 * s) by (nonlinear_arith)
                requires
                    s == 65536,
            ;
            lemma_scale3_bound(self@.u, scale3(disk@, self@.lens_radius).x, 4 * s, 16 * s);
            lemma_scale3_bound(self@.v, scale3(disk@, self@.lens_radius).y, 32 * s, 16 * s);
            assert(((4 * s) * (16 * s)) / s == 64 * s && ((32 * s) * (16 * s)) / s == 512
                * s) by (nonlinear_arith)
                requires
                    s == 65536,
            ;
            lemma_scale3_bound(self@.horizontal, s_coord@, PROD_ARG_MAX as int, 2 * s);
            lemma_scale3_bound(self@.vertical, t_coord@, PROD_ARG_MAX as int, 2 * s);
            assert(((PROD_ARG_MAX as int) * (2 * s)) / s == 2 * (PROD_ARG_MAX as int))
                by (nonlinear_arith)
                requires
                    s == 65536,
            ;
        }
        let rd = disk.scale(self.lens_radius);
        let offset = self.u.scale(rd.x()).add(self.v.scale(rd.y()));
        let origin = self.origin.add(offset);
        let direction = self.lower_left_corner.add(self.horizontal.scale(s_coord)).add(
            self.vertical.scale(t_coord)).sub(self.origin).sub(offset);
        Ray::from(origin, direction)
    }

    /// The ray toward plane coordinates `(s, t)`, sampling the lens
    /// disk from the library's randomness source.  With a closed lens
    /// (radius zero) the ray is the exact pinhole ray, whatever was
    /// drawn.
    pub fn get_ray(&self, s_coord: Fixed, t_coord: Fixed) -> (r: Ray)
        requires
            camera_wf(self@),
            0 <= s_coord@ <= 2 * (SCALE as int),
            0 <= t_coord@ <= 2 * (SCALE as int),
        ensures
            exists|d: V3|
                #[trigger] get_ray_spec(self@, s_coord@, t_coord@, d) === r@ && len_sq3(d)
                    < SCALE as int && d.z == 0,
            self@.lens_radius == 0 ==> r@ === get_ray_spec(self@, s_coord@, t_coord@,
                V3 { x: 0, y: 0, z: 0 }),
    {
        let disk = Vec3::random_in_unit_disk();
        let r = self.get_ray_with(s_coord, t_coord, disk);
        proof {
            assert(get_ray_spec(self@, s_coord@, t_coord@, disk@) === r@);
            if self@.lens_radius == 0 {
                lemma_scale_zero(disk@);
                lemma_scale_zero(V3 { x: 0, y: 0, z: 0 });
            }
        }
        r
    }
}

/// Scaling by zero yields the zero vector.
proof fn lemma_scale_zero(a: V3)
    ensures
        scale3(a, 0) === (V3 { x: 0, y: 0, z: 0 }),
{
    assert(a.x * 0 == 0 && a.y * 0 == 0 && a.z * 0 == 0) by (nonlinear_arith);
}

} // verus!
