//! Surface materials: a closed set of scattering behaviors.
//!
//! A material, given an incoming ray and the hit it produced, either
//! scatters a new ray with an attenuation color or absorbs the ray.
//! The stochastic choices (fuzz offsets, diffuse directions, the
//! reflect-or-refract coin) enter [`Material::scatter`] as random draws;
//! [`Material::scatter_with`] takes the draws as arguments and is exact.

use vstd::prelude::*;

use crate::fixed::{absi, fdiv, fmul, fsqrt, lemma_fmul_bound, tdiv, Fixed, SCALE};
use crate::hittable::{hit_record_wf, HitRecord, HitRecordV};
use crate::ray::{Ray, RayV};
use crate::rng::random_raw_in;
use crate::vec3::{
    add3, dot3, in_range, lemma_fmul_square_nonneg, len_sq3, neg3, reflect3, refract3,
    scale3, unit3, Vec3, V3, COORD_MAX,
};

verus! {

/// Largest accepted refractive index (raw): `16.0`.
pub const REF_IDX_MAX: i64 = 0x10_0000;

/// Smallest accepted refractive index (raw): `1/16`.
pub const REF_IDX_MIN: i64 = 0x1000;

/// A surface behavior, attached by value to each piece of geometry.
#[derive(Clone, Copy, PartialEq, Eq, Structural, Debug)]
pub enum Material {
    Metal { albedo: Vec3, fuzz: Fixed },
    Lambertian { albedo: Vec3 },
    Dielectric { ref_idx: Fixed },
}

/// A color: every channel lies in the unit interval `[0, 1]`.
pub open spec fn color_in_unit(c: V3) -> bool {
    0 <= c.x <= SCALE as int && 0 <= c.y <= SCALE as int && 0 <= c.z <= SCALE as int
}

/// Well-formed material parameters: albedo channels in `[0, 1]`, a
/// non-negative fuzz radius, a refractive index in `[1/16, 16]`.
pub open spec fn material_wf(m: Material) -> bool {
    match m {
        Material::Metal { albedo, fuzz } => color_in_unit(albedo@) && 0 <= fuzz@,
        Material::Lambertian { albedo } => color_in_unit(albedo@),
        Material::Dielectric { ref_idx } => REF_IDX_MIN as int <= ref_idx@ <= REF_IDX_MAX as int,
    }
}

/// The Schlick reflectance approximation:
/// `r0 + (1 - r0) * (1 - cos)^5` with `r0 = ((1 - eta) / (1 + eta))^2`.
pub open spec fn schlick_spec(cos: int, eta: int) -> int {
    let s = SCALE as int;
    let q = fdiv(s - eta, s + eta);
    let r0 = fmul(q, q);
    let p1 = s - cos;
    let f2 = fmul(p1, p1);
    let f5 = fmul(fmul(f2, f2), p1);
    r0 + fmul(s - r0, f5)
}

/// Total internal reflection: `eta * sin_theta > 1`, with
/// `sin_theta = sqrt(1 - cos^2)`.
pub open spec fn dielectric_tir(eta: int, cos: int) -> bool {
    fmul(eta, fsqrt(SCALE as int - fmul(cos, cos))) > SCALE as int
}

/// At normal incidence total internal reflection can never trigger,
/// whatever the refraction ratio: `sin_theta` vanishes there.
pub proof fn lemma_normal_incidence_no_tir(eta: int)
    ensures
        !dielectric_tir(eta, SCALE as int),
{
    let s = SCALE as int;
    assert(s * s == 4294967296 && 4294967296int / 65536 == 65536);
    assert(fmul(s, s) == s);
    assert(eta * 0 == 0) by (nonlinear_arith);
    assert(fmul(eta, 0) == 0);
}

/// What a material does with an incoming ray at a hit, once its random
/// draws are fixed: `rv` is the sampled offset vector (a point of the
/// unit ball for metal fuzz, a unit direction for Lambertian scatter)
/// and `coin` the uniform draw deciding reflection versus refraction.
pub open spec fn scatter_spec(m: Material, ray_dir: V3, rec: HitRecordV, rv: V3, coin: int)
    -> Option<(V3, RayV)> {
    let s = SCALE as int;
    match m {
        Material::Metal { albedo, fuzz } => {
            let fz = if fuzz@ >= s {
                s
            } else {
                fuzz@
            };
            let dir = add3(reflect3(unit3(ray_dir), rec.normal), scale3(rv, fz));
            if dot3(dir, rec.normal) > 0 {
                Option::Some((albedo@, RayV { origin: rec.p, direction: dir }))
            } else {
                Option::None
            }
        },
        Material::Lambertian { albedo } => {
            Option::Some(
                (albedo@, RayV { origin: rec.p, direction: add3(rec.normal, rv) }),
            )
        },
        Material::Dielectric { ref_idx } => {
            let eta = if rec.front_face {
                fdiv(s, ref_idx@)
            } else {
                ref_idx@
            };
            let u = unit3(ray_dir);
            let d = dot3(neg3(u), rec.normal);
            let cos = if d <= s {
                d
            } else {
                s
            };
            let white = V3 { x: s, y: s, z: s };
            if dielectric_tir(eta, cos) || coin < schlick_spec(cos, eta) {
                Option::Some(
                    (white, RayV { origin: rec.p, direction: reflect3(u, rec.normal) }),
                )
            } else {
                Option::Some(
                    (white, RayV {
                        origin: rec.p,
                        direction: refract3(u, rec.normal, eta),
                    }),
                )
            }
        },
    }
}

/// The image of an optional attenuation and scattered ray.
pub open spec fn opt_scatter_view(r: Option<(Vec3, Ray)>) -> Option<(V3, RayV)> {
    match r {
        Option::Some(p) => Option::Some((p.0@, p.1@)),
        Option::None => Option::None,
    }
}

/// The attenuation a material applies when it scatters: its albedo, or
/// opaque white for a dielectric.
pub open spec fn attenuation_of(m: Material) -> V3 {
    match m {
        Material::Metal { albedo, fuzz } => albedo@,
        Material::Lambertian { albedo } => albedo@,
        Material::Dielectric { ref_idx } => V3 {
            x: SCALE as int,
            y: SCALE as int,
            z: SCALE as int,
        },
    }
}

/// The Schlick reflectance, exact per `schlick_spec`.
fn schlick(cos: Fixed, eta: Fixed) -> (r: Fixed)
    requires
        absi(cos@) <= 64 * (SCALE as int),
        0 <= eta@ <= 16 * (SCALE as int),
    ensures
        r@ == schlick_spec(cos@, eta@),
{
    let ghost s = SCALE as int;
    let one = Fixed::one();
    proof {
        crate::fixed::lemma_tdiv_bound((s - eta@) * s, s + eta@, 17 * s * s);
        assert(absi((s - eta@) * s) <= 17 * s * s && (17 * s * s) / (s + eta@) <= 17 * s)
            by (nonlinear_arith)
            requires
                s == 65536,
                0 <= eta@ <= 16 * s,
        ;
    }
    let q = one.sub(eta).div(one.add(eta));
    proof {
        lemma_fmul_bound(q@, q@, 17 * s, 17 * s);
        assert((17 * s * (17 * s)) / s == 289 * s) by (nonlinear_arith)
            requires
                s == 65536,
        ;
    }
    let r0 = q.mul(q);
    let p1 = one.sub(cos);
    proof {
        lemma_fmul_bound(p1@, p1@, 65 * s, 65 * s);
        assert(((65 * s) * (65 * s)) / s == 4225 * s) by (nonlinear_arith)
            requires
                s == 65536,
        ;
        lemma_fmul_bound(fmul(p1@, p1@), fmul(p1@, p1@), 4225 * s, 4225 * s);
        assert(((4225 * s) * (4225 * s)) / s == 17850625 * s) by (nonlinear_arith)
            requires
                s == 65536,
        ;
        lemma_fmul_bound(fmul(fmul(p1@, p1@), fmul(p1@, p1@)), p1@, 17850625 * s, 65 * s);
        assert(((17850625 * s) * (65 * s)) / s == 1160290625 * s) by (nonlinear_arith)
            requires
                s == 65536,
        ;
    }
    let f2 = p1.mul(p1);
    let f5 = f2.mul(f2).mul(p1);
    proof {
        lemma_fmul_bound(s - r0@, f5@, 290 * s, 1160290625 * s);
        assert(((290 * s) * (1160290625 * s)) / s == 336484281250 * s) by (nonlinear_arith)
            requires
                s == 65536,
        ;
    }
    r0.add(one.sub(r0).mul(f5))
}

impl Material {
    /// What this material does with the incoming ray at the given hit,
    /// for the given random draws: exact per `scatter_spec`.  `rv` must
    /// come from the unit ball or the unit sphere (within normalization
    /// slack), `coin` from `[0, 1)`.
    pub fn scatter_with(&self, ray_in: &Ray, rec: &HitRecord, rv: Vec3, coin: Fixed) -> (r:
        Option<(Vec3, Ray)>)
        requires
            material_wf(*self),
            hit_record_wf(rec@),
            in_range(ray_in@.direction, COORD_MAX as int),
            len_sq3(ray_in@.direction) >= 1,
            in_range(rv@, 4 * (SCALE as int)),
            0 <= coin@,
        ensures
            opt_scatter_view(r) === scatter_spec(*self, ray_in@.direction, rec@, rv@,
                coin@),
            self matches Material::Lambertian { .. } ==> r is Some,
            self matches Material::Dielectric { .. } ==> r is Some,
            r is Some ==> (r->0).0@ === attenuation_of(*self),
            r is Some ==> color_in_unit((r->0).0@),
            r is Some ==> (r->0).1@.origin === rec@.p,
            r is Some ==> in_range((r->0).1@.direction, 3200 * (SCALE as int)),
            (self matches Material::Metal { fuzz, .. } && fuzz@ == 0 && r is Some)
                ==> (r->0).1@.direction === reflect3(unit3(ray_in@.direction), rec@.normal),
    {
        let ghost s = SCALE as int;
        match self {
            Material::Metal { albedo, fuzz } => {
                let real_fuzz = if fuzz.raw >= SCALE {
                    Fixed::one()
                } else {
                    *fuzz
                };
                let reflected = ray_in.direction().unit_vector().reflect(rec.normal);
                proof {
                    crate::vec3::lemma_scale3_bound(rv@, real_fuzz@, 4 * s, s);
                    assert(((4 * s) * s) / s == 4 * s) by (nonlinear_arith)
                        requires
                            s == 65536,
                    ;
                    if fuzz@ == 0 {
                        assert(rv@.x * 0 == 0 && rv@.y * 0 == 0 && rv@.z * 0 == 0)
                            by (nonlinear_arith);
                        assert(scale3(rv@, 0) === (V3 { x: 0, y: 0, z: 0 }));
                    }
                }
                let scattered_dir = reflected.add(rv.scale(real_fuzz));
                proof {
                    crate::vec3::lemma_dot3_bound(scattered_dir@, rec@.normal, 392 * s, 4
                        * s);
                }
                let d = scattered_dir.dot(rec.normal);
                if d.raw > 0 {
                    Some((*albedo, Ray::from(rec.p, scattered_dir)))
                } else {
                    None
                }
            },
            Material::Lambertian { albedo } => {
                Some((*albedo, Ray::from(rec.p, rec.normal.add(rv))))
            },
            Material::Dielectric { ref_idx } => {
                let one = Fixed::one();
                proof {
                    crate::fixed::lemma_tdiv_bound(s * s, ref_idx@, s * s);
                    assert((s * s) / ref_idx@ <= 16 * s && tdiv(s * s, ref_idx@) >= 0)
                        by (nonlinear_arith)
                        requires
                            s == 65536,
                            ref_idx@ >= REF_IDX_MIN as int,
                            tdiv(s * s, ref_idx@) == (s * s) / ref_idx@,
                    ;
                }
                let eta = if rec.front_face {
                    one.div(*ref_idx)
                } else {
                    *ref_idx
                };
                let unit_dir = ray_in.direction().unit_vector();
                proof {
                    crate::vec3::lemma_dot3_bound(neg3(unit_dir@), rec@.normal, 4 * s, 4
                        * s);
                    assert(3 * (((4 * s) * (4 * s)) / s) == 48 * s) by (nonlinear_arith)
                        requires
                            s == 65536,
                    ;
                }
                let cos_theta = unit_dir.neg().dot(rec.normal).min(one);
                proof {
                    lemma_fmul_bound(cos_theta@, cos_theta@, 48 * s, 48 * s);
                    assert(((48 * s) * (48 * s)) / s == 2304 * s) by (nonlinear_arith)
                        requires
                            s == 65536,
                    ;
                    lemma_fmul_square_nonneg(cos_theta@);
                    let k = s - fmul(cos_theta@, cos_theta@);
                    if k > 0 {
                        crate::fixed::lemma_isqrt_bounds(k * s);
                        assert(fsqrt(k) <= s) by (nonlinear_arith)
                            requires
                                fsqrt(k) >= 0,
                                fsqrt(k) * fsqrt(k) <= k * s,
                                0 < k <= s,
                                s == 65536,
                        ;
                    }
                    lemma_fmul_bound(eta@, fsqrt(s - fmul(cos_theta@, cos_theta@)), 16
                        * s, s);
                    assert(((16 * s) * s) / s == 16 * s) by (nonlinear_arith)
                        requires
                            s == 65536,
                    ;
                }
                let sin_theta = one.sub(cos_theta.mul(cos_theta)).sqrt();
                let white = Vec3::from(one, one, one);
                if eta.mul(sin_theta).raw > SCALE {
                    let reflected = unit_dir.reflect(rec.normal);
                    return Some((white, Ray::from(rec.p, reflected)));
                }
                let reflect_prob = schlick(cos_theta, eta);
                if coin.lt(reflect_prob) {
                    let reflected = unit_dir.reflect(rec.normal);
                    return Some((white, Ray::from(rec.p, reflected)));
                }
                let refracted = unit_dir.refract(rec.normal, eta);
                Some((white, Ray::from(rec.p, refracted)))
            },
        }
    }

    /// Scatters the incoming ray at the given hit, drawing this
    /// material's random choices from the library's randomness source.
    /// Everything stated holds whatever was drawn; `scatter_with` pins
    /// the outcome of each draw exactly.
    pub fn scatter(&self, ray_in: &Ray, rec: &HitRecord) -> (r: Option<(Vec3, Ray)>)
        requires
            material_wf(*self),
            hit_record_wf(rec@),
            in_range(ray_in@.direction, COORD_MAX as int),
            len_sq3(ray_in@.direction) >= 1,
        ensures
            exists|rv: V3, coin: int|
                in_range(rv, 4 * (SCALE as int)) && 0 <= coin < SCALE as int
                    && opt_scatter_view(r) === #[trigger] scatter_spec(*self,
                    ray_in@.direction, rec@, rv, coin),
            self matches Material::Lambertian { .. } ==> r is Some,
            self matches Material::Dielectric { .. } ==> r is Some,
            r is Some ==> (r->0).0@ === attenuation_of(*self),
            r is Some ==> color_in_unit((r->0).0@),
            r is Some ==> (r->0).1@.origin === rec@.p,
            r is Some ==> in_range((r->0).1@.direction, 3200 * (SCALE as int)),
            (self matches Material::Metal { fuzz, .. } && fuzz@ == 0 && r is Some)
                ==> (r->0).1@.direction === reflect3(unit3(ray_in@.direction), rec@.normal),
    {
        let rv = match self {
            Material::Metal { .. } => Vec3::random_in_unit_sphere(),
            _ => Vec3::random_unit_vector(),
        };
        let coin = Fixed::from_raw(random_raw_in(0, SCALE));
        proof {
            crate::vec3::lemma_len_sq3_nonneg(rv@);
        }
        let r = self.scatter_with(ray_in, rec, rv, coin);
        proof {
            assert(in_range(rv@, 4 * (SCALE as int)) && 0 <= coin@ < SCALE as int
                && opt_scatter_view(r) === scatter_spec(*self, ray_in@.direction, rec@,
                rv@, coin@));
        }
        r
    }
}

} // verus!
