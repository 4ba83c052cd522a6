//! Ray-geometry intersection: spheres, hit records, and the
//! nearest-hit scan over a scene of spheres.
//!
//! A hit is valid only when its parametric distance lies in the open
//! interval `(t_min, t_max)`.  A vanishing discriminant (the tangent
//! case) counts as a miss, as does degenerate geometry whose hit point
//! or normal leaves the representable envelope.

use vstd::prelude::*;

use crate::fixed::{absi, fdiv, fmul, fsqrt, lemma_fmul_bound, lemma_isqrt_bounds, tdiv, Fixed, SCALE};
use crate::material::{material_wf, Material};
use crate::ray::{ray_at3, ray_in_range, Ray, RayV};
use crate::vec3::{
    div3, dot3, in_range, lemma_dot3_bound, len_sq3, neg3, sub3, Vec3, V3, COORD_MAX,
};

verus! {

/// Largest accepted magnitude of a surface-normal component (raw
/// `4.0`): the slack that normalization guarantees.
pub const NORMAL_MAX: i64 = 0x4_0000;

/// The mathematical image of a hit record.
pub struct HitRecordV {
    pub p: V3,
    pub normal: V3,
    pub t: int,
    pub front_face: bool,
    pub material: Material,
}

/// What the intersection engine reports for a hit: the hit point, the
/// unit-length normal oriented against the incoming ray, the parametric
/// distance, which side was struck, and the surface's material.
#[derive(Clone, Copy, PartialEq, Eq, Structural, Debug)]
pub struct HitRecord {
    pub p: Vec3,
    pub normal: Vec3,
    pub t: Fixed,
    pub front_face: bool,
    pub material: Material,
}

impl View for HitRecord {
    type V = HitRecordV;

    open spec fn view(&self) -> HitRecordV {
        HitRecordV {
            p: self.p@,
            normal: self.normal@,
            t: self.t@,
            front_face: self.front_face,
            material: self.material,
        }
    }
}

/// The image of an optional hit record.
pub open spec fn opt_hit_view(r: Option<HitRecord>) -> Option<HitRecordV> {
    match r {
        Option::Some(h) => Option::Some(h@),
        Option::None => Option::None,
    }
}

/// A record whose point, normal and material lie in the envelope the
/// rest of the renderer relies on.
pub open spec fn hit_record_wf(h: HitRecordV) -> bool {
    in_range(h.p, COORD_MAX as int) && in_range(h.normal, NORMAL_MAX as int) && material_wf(
        h.material)
}

impl HitRecord {
    /// A placeholder record: all zero, struck from the front, made of
    /// black metal.
    pub fn new() -> (r: HitRecord)
        ensures
            r@.p === (V3 { x: 0, y: 0, z: 0 }),
            r@.normal === (V3 { x: 0, y: 0, z: 0 }),
            r@.t == 0,
            r@.front_face == false,
            r@.material === (Material::Metal { albedo: Vec3 { x: Fixed { raw: 0 }, y: Fixed { raw: 0 }, z: Fixed { raw: 0 } }, fuzz: Fixed { raw: 0 } }),
    {
        HitRecord {
            p: Vec3::new(),
            normal: Vec3::new(),
            t: Fixed::zero(),
            front_face: false,
            material: Material::Metal { albedo: Vec3::new(), fuzz: Fixed::zero() },
        }
    }

    /// Stores the normal oriented against the incoming ray: the outward
    /// normal if the ray arrives from outside, else its opposite.
    pub fn set_face_normal(&mut self, ray: &Ray, outward_normal: Vec3)
        requires
            in_range(ray@.direction, COORD_MAX as int),
            in_range(outward_normal@, NORMAL_MAX as int),
        ensures
            final(self).front_face == (dot3(ray@.direction, outward_normal@) < 0),
            final(self).normal@ === (if dot3(ray@.direction, outward_normal@) < 0 {
                outward_normal@
            } else {
                neg3(outward_normal@)
            }),
            final(self).p === old(self).p,
            final(self).t === old(self).t,
            final(self).material === old(self).material,
    {
        proof {
            lemma_dot3_bound(ray@.direction, outward_normal@, COORD_MAX as int,
                NORMAL_MAX as int);
        }
        let d = ray.direction().dot(outward_normal);
        self.front_face = d.lt(Fixed::zero());
        self.normal = if self.front_face {
            outward_normal
        } else {
            outward_normal.neg()
        };
    }
}

/// A spherical primitive owning its material.
#[derive(Clone, Copy, PartialEq, Eq, Structural, Debug)]
pub struct Sphere {
    pub center: Vec3,
    pub radius: Fixed,
    pub material: Material,
}

/// The record reported when a sphere is struck at parameter `t`, or
/// nothing when the hit point or normal leaves the envelope.
pub open spec fn sphere_hit_at(center: V3, radius: int, mat: Material, r: RayV, t: int)
    -> Option<HitRecordV> {
    let p = ray_at3(r, t);
    let outward = div3(sub3(p, center), radius);
    if in_range(p, COORD_MAX as int) && in_range(outward, NORMAL_MAX as int) {
        let front = dot3(r.direction, outward) < 0;
        Option::Some(HitRecordV {
            p,
            normal: if front {
                outward
            } else {
                neg3(outward)
            },
            t,
            front_face: front,
            material: mat,
        })
    } else {
        Option::None
    }
}

/// The half-discriminant of the ray-sphere quadratic, in fixed point.
pub open spec fn sphere_disc(center: V3, radius: int, r: RayV) -> int {
    let oc = sub3(r.origin, center);
    let a = len_sq3(r.direction);
    let half_b = dot3(oc, r.direction);
    let c = len_sq3(oc) - fmul(radius, radius);
    fmul(half_b, half_b) - fmul(a, c)
}

/// The nearest valid intersection of a ray with a sphere: the nearer
/// root of the quadratic if it falls in `(t_min, t_max)`, else the
/// farther root if it does, else nothing.  A non-positive discriminant
/// (miss or tangent) and a degenerate direction are misses.
pub open spec fn sphere_hit_spec(
    center: V3,
    radius: int,
    mat: Material,
    r: RayV,
    t_min: int,
    t_max: int,
) -> Option<HitRecordV> {
    let oc = sub3(r.origin, center);
    let a = len_sq3(r.direction);
    let half_b = dot3(oc, r.direction);
    let disc = sphere_disc(center, radius, r);
    if a <= 0 || disc <= 0 {
        Option::None
    } else {
        let root = fsqrt(disc);
        let t1 = fdiv(-half_b - root, a);
        if t_min < t1 && t1 < t_max {
            sphere_hit_at(center, radius, mat, r, t1)
        } else {
            let t2 = fdiv(-half_b + root, a);
            if t_min < t2 && t2 < t_max {
                sphere_hit_at(center, radius, mat, r, t2)
            } else {
                Option::None
            }
        }
    }
}

impl Sphere {
    /// Scene geometry the intersection arithmetic accepts: center in
    /// the envelope, a positive representable radius, a well-formed
    /// material.
    pub open spec fn wf(self) -> bool {
        in_range(self.center@, COORD_MAX as int) && 1 <= self.radius@ <= COORD_MAX as int
            && material_wf(self.material)
    }

    /// The sphere with the given center, radius and material.
    pub fn from(center: Vec3, radius: Fixed, material: Material) -> (s: Sphere)
        ensures
            s.center === center,
            s.radius === radius,
            s.material === material,
    {
        Sphere { center, radius, material }
    }

    /// The record at parameter `t`, or nothing outside the envelope.
    fn hit_at(&self, ray: &Ray, t: Fixed) -> (r: Option<HitRecord>)
        requires
            self.wf(),
            ray_in_range(ray@, COORD_MAX as int),
            absi(t@) <= COORD_MAX as int,
        ensures
            opt_hit_view(r) === sphere_hit_at(self.center@, self.radius@, self.material,
                ray@, t@),
    {
        let p = ray.at(t);
        proof {
            crate::vec3::lemma_div3_bound(sub3(p@, self.center@), self.radius@,
                0x10_0800_0000);
            assert((0x10_0800_0000 * (SCALE as int)) / self.radius@ <= 0x10_0800_0000 * (
            SCALE as int)) by (nonlinear_arith)
                requires
                    self.radius@ >= 1,
            ;
        }
        let outward = p.sub(self.center).div(self.radius);
        if p.within(COORD_MAX) && outward.within(NORMAL_MAX) {
            proof {
                lemma_dot3_bound(ray@.direction, outward@, COORD_MAX as int,
                    NORMAL_MAX as int);
            }
            let front = ray.direction().dot(outward).lt(Fixed::zero());
            let normal = if front {
                outward
            } else {
                outward.neg()
            };
            Some(HitRecord { p, normal, t, front_face: front, material: self.material })
        } else {
            None
        }
    }

    /// The nearest valid intersection within `(t_min, t_max)`, per
    /// `sphere_hit_spec`.
    pub fn hit(&self, ray: &Ray, t_min: Fixed, t_max: Fixed) -> (r: Option<HitRecord>)
        requires
            self.wf(),
            ray_in_range(ray@, COORD_MAX as int),
            absi(t_min@) <= COORD_MAX as int,
            absi(t_max@) <= COORD_MAX as int,
        ensures
            opt_hit_view(r) === sphere_hit_spec(self.center@, self.radius@, self.material,
                ray@, t_min@, t_max@),
    {
        let ghost v = COORD_MAX as int;
        let oc = ray.origin().sub(self.center);
        let dir = ray.direction();
        proof {
            lemma_dot3_bound(dir@, dir@, v, v);
            lemma_dot3_bound(oc@, oc@, 2 * v, 2 * v);
            lemma_dot3_bound(oc@, dir@, 2 * v, v);
            lemma_fmul_bound(self.radius@, self.radius@, v, v);
            assert((v * v) / 65536 == 0x10_0000_0000 && ((2 * v) * v) / 65536
                == 0x20_0000_0000 && ((2 * v) * (2 * v)) / 65536 == 0x40_0000_0000);
        }
        let a = dir.length_squared();
        let half_b = oc.dot(dir);
        let c = oc.length_squared().sub(self.radius.mul(self.radius));
        proof {
            lemma_fmul_bound(half_b@, half_b@, 0x60_0000_0000, 0x60_0000_0000);
            lemma_fmul_bound(a@, c@, 0x30_0000_0000, 0xD0_0000_0000);
            assert((0x60_0000_0000int * 0x60_0000_0000) / 65536 == 0x2400_0000_0000_0000
                && (0x30_0000_0000int * 0xD0_0000_0000) / 65536 == 0x2700_0000_0000_0000);
        }
        let disc = half_b.mul(half_b).sub(a.mul(c));
        if a.raw <= 0 || disc.raw <= 0 {
            return None;
        }
        proof {
            lemma_isqrt_bounds(disc@ * (SCALE as int));
            assert(fsqrt(disc@) <= 0x100_0000_0000) by (nonlinear_arith)
                requires
                    fsqrt(disc@) >= 0,
                    fsqrt(disc@) * fsqrt(disc@) <= disc@ * 65536,
                    0 < disc@ <= 0x4B00_0000_0000_0000,
            ;
            crate::fixed::lemma_tdiv_bound((-half_b@ - fsqrt(disc@)) * 65536, a@,
                0x160_0000_0000int * 65536);
            crate::fixed::lemma_tdiv_bound((-half_b@ + fsqrt(disc@)) * 65536, a@,
                0x160_0000_0000int * 65536);
        }
        let root = disc.sqrt();
        let t1 = half_b.neg().sub(root).div(a);
        if t_min.lt(t1) && t1.lt(t_max) {
            return self.hit_at(ray, t1);
        }
        let t2 = half_b.neg().add(root).div(a);
        if t_min.lt(t2) && t2.lt(t_max) {
            return self.hit_at(ray, t2);
        }
        None
    }
}

/// A reported hit lies strictly inside the interval it was sought in,
/// within the envelope, and carries the sphere's material.
pub proof fn lemma_sphere_hit_props(
    center: V3,
    radius: int,
    mat: Material,
    r: RayV,
    t_min: int,
    t_max: int,
)
    requires
        sphere_hit_spec(center, radius, mat, r, t_min, t_max) is Some,
    ensures
        t_min < sphere_hit_spec(center, radius, mat, r, t_min, t_max)->0.t < t_max,
        hit_record_wf(sphere_hit_spec(center, radius, mat, r, t_min, t_max)->0) || !material_wf(
            mat),
        sphere_hit_spec(center, radius, mat, r, t_min, t_max)->0.material === mat,
{
}

/// A ray whose closest approach to the center stays at or beyond the
/// radius reports no hit.  The hypothesis is Pythagoras in the
/// fixed-point measure: the square of the axial component `dot(oc, d)`
/// accounts for no more of `|oc|^2 - radius^2` than `|d|^2` can carry —
/// equivalently, the squared perpendicular offset is at least the
/// squared radius.  Equality is the tangent case, a miss by policy.
pub proof fn lemma_perpendicular_miss(
    center: V3,
    radius: int,
    mat: Material,
    r: RayV,
    t_min: int,
    t_max: int,
)
    requires
        dot3(sub3(r.origin, center), r.direction) * dot3(sub3(r.origin, center),
            r.direction) <= len_sq3(r.direction) * (len_sq3(sub3(r.origin, center)) - fmul(
            radius, radius)),
    ensures
        sphere_hit_spec(center, radius, mat, r, t_min, t_max) is None,
{
    let s = SCALE as int;
    let oc = sub3(r.origin, center);
    let a = len_sq3(r.direction);
    let hb = dot3(oc, r.direction);
    let cc = len_sq3(oc) - fmul(radius, radius);
    assert(hb * hb >= 0) by (nonlinear_arith);
    crate::fixed::lemma_tdiv_monotone(hb * hb, a * cc, s);
}

/// The tangent case is a miss: a ray whose discriminant vanishes —
/// closest approach exactly at the radius — reports no hit, by the
/// documented edge policy.
pub proof fn lemma_tangent_miss(
    center: V3,
    radius: int,
    mat: Material,
    r: RayV,
    t_min: int,
    t_max: int,
)
    requires
        sphere_disc(center, radius, r) == 0,
    ensures
        sphere_hit_spec(center, radius, mat, r, t_min, t_max) is None,
{
}

/// A head-on hit is exact: a ray starting outside the sphere, aimed
/// straight at its center along a unit axis direction, reports a hit
/// at `t = distance - radius` with the outward unit normal, exactly —
/// for any radius that is a multiple of `1/256`, whose square then
/// divides the scale.
pub proof fn lemma_head_on_axis_hit(o: V3, dist: int, radius: int, mat: Material, t_min: int, t_max: int)
    requires
        radius % 256 == 0,
        256 <= radius < dist,
        t_min < dist - radius < t_max,
        in_range(o, COORD_MAX as int),
        absi(o.z - (dist - radius)) <= COORD_MAX as int,
    ensures
        sphere_hit_spec(V3 { x: o.x, y: o.y, z: o.z - dist }, radius, mat, RayV {
            origin: o,
            direction: V3 { x: 0, y: 0, z: -(SCALE as int) },
        }, t_min, t_max) === Option::Some(HitRecordV {
            p: V3 { x: o.x, y: o.y, z: o.z - (dist - radius) },
            normal: V3 { x: 0, y: 0, z: SCALE as int },
            t: dist - radius,
            front_face: true,
            material: mat,
        }),
{
    let s = SCALE as int;
    let center = V3 { x: o.x, y: o.y, z: o.z - dist };
    let r = RayV { origin: o, direction: V3 { x: 0, y: 0, z: -s } };
    let oc = sub3(o, center);
    assert(oc === (V3 { x: 0, y: 0, z: dist }));

    // The elementary products: 0 * x = 0, and multiples of the scale
    // divide out exactly.
    assert(0 * 0 == 0 && 0int / 65536 == 0);
    assert(fmul(0, 0) == 0 && fmul(0, -s) == 0 && fmul(0, s) == 0);
    assert((-s) * (-s) == s * s && s * s == 1 * (s * s)) by (nonlinear_arith)
        requires
            s == 65536,
    ;
    crate::fixed::lemma_tdiv_exact(s, s);
    assert(s * s == s * s && fmul(-s, -s) == s);
    let a = len_sq3(r.direction);
    assert(a == s);

    assert(dist * -s == (-dist) * s) by (nonlinear_arith);
    crate::fixed::lemma_tdiv_exact(-dist, s);
    let hb = dot3(oc, r.direction);
    assert(hb == -dist);

    // The discriminant collapses to the rounded squared radius.
    let k = radius / 256;
    assert(radius == 256 * k);
    assert(radius * radius == (k * k) * s && (k * k) * s == (k * k) * s)
        by (nonlinear_arith)
        requires
            radius == 256 * k,
            s == 65536,
    ;
    crate::fixed::lemma_tdiv_exact(k * k, s);
    assert(fmul(radius, radius) == k * k);
    let cterm = len_sq3(oc) - fmul(radius, radius);
    assert(cterm == tdiv(dist * dist, s) - k * k);
    crate::fixed::lemma_tdiv_exact(cterm, s);
    assert(s * cterm == cterm * s) by (nonlinear_arith);
    assert(fmul(s, cterm) == cterm);
    assert(dist * dist == (-dist) * (-dist)) by (nonlinear_arith);
    let disc = sphere_disc(center, radius, r);
    assert(disc == k * k);
    assert(k >= 1 && k * k >= 1) by (nonlinear_arith)
        requires
            radius == 256 * k,
            radius >= 256,
    ;

    // Its square root is exactly the radius.
    assert((k * k) * s == radius * radius) by (nonlinear_arith)
        requires
            radius == 256 * k,
            s == 65536,
    ;
    crate::fixed::lemma_isqrt_exact_square(radius);
    assert(fsqrt(disc) == radius);

    // The near root is exactly distance minus radius.
    assert((dist - radius) * s == (-hb - radius) * s) by (nonlinear_arith)
        requires
            hb == -dist,
    ;
    crate::fixed::lemma_tdiv_exact(dist - radius, s);
    let t1 = fdiv(-hb - fsqrt(disc), a);
    assert(t1 == dist - radius);

    // The hit point and its normal are exact as well.
    let p = ray_at3(r, t1);
    assert((dist - radius) * -s == (-(dist - radius)) * s) by (nonlinear_arith);
    crate::fixed::lemma_tdiv_exact(-(dist - radius), s);
    assert(fmul(t1, -s) == -(dist - radius));
    assert(fmul(t1, 0) == 0) by {
        assert(t1 * 0 == 0) by (nonlinear_arith);
    }
    assert(p === (V3 { x: o.x, y: o.y, z: o.z - (dist - radius) }));
    let pc = sub3(p, center);
    assert(pc === (V3 { x: 0, y: 0, z: radius }));
    crate::fixed::lemma_tdiv_nonneg(0, radius);
    crate::fixed::lemma_tdiv_bound(0, radius, 0);
    assert(fdiv(0, radius) == 0);
    assert(radius * s == s * radius) by (nonlinear_arith);
    crate::fixed::lemma_tdiv_exact(s, radius);
    let outward = div3(pc, radius);
    assert(outward === (V3 { x: 0, y: 0, z: s }));
    assert((-s) * s < 0) by (nonlinear_arith)
        requires
            s == 65536,
    ;
    crate::fixed::lemma_tdiv_bound((-s) * s, s, s * s);
    crate::fixed::lemma_tdiv_exact(-s, s);
    assert((-s) * s == (-s) * s);
    assert(dot3(r.direction, outward) == -s);
    assert(in_range(p, COORD_MAX as int));
    assert(in_range(outward, NORMAL_MAX as int));
}

/// The probe interval can shrink without changing which hit is seen:
/// a hit nearer than the new bound survives unchanged, everything else
/// becomes a miss.  This is what lets the linear scan keep only the
/// closest hit so far.
pub proof fn lemma_sphere_hit_shrink(
    center: V3,
    radius: int,
    mat: Material,
    r: RayV,
    t_min: int,
    t_max: int,
    c: int,
)
    requires
        t_min < c <= t_max,
    ensures
        sphere_hit_spec(center, radius, mat, r, t_min, t_max) matches Option::Some(h)
            ==> sphere_hit_spec(center, radius, mat, r, t_min, c) === (if h.t < c {
            Option::Some(h)
        } else {
            Option::None
        }),
        sphere_hit_spec(center, radius, mat, r, t_min, t_max) is None ==> sphere_hit_spec(
            center, radius, mat, r, t_min, c) is None,
{
    let s = SCALE as int;
    let a = len_sq3(r.direction);
    let disc = sphere_disc(center, radius, r);
    if a <= 0 || disc <= 0 {
    } else {
        let oc = sub3(r.origin, center);
        let hb = dot3(oc, r.direction);
        let root = fsqrt(disc);
        assert(disc * s >= 0) by (nonlinear_arith)
            requires
                disc > 0,
                s == 65536,
        ;
        crate::fixed::lemma_isqrt_bounds(disc * s);
        assert(root >= 0);
        assert((-hb - root) * s <= (-hb + root) * s) by (nonlinear_arith)
            requires
                root >= 0,
                s == 65536,
        ;
        crate::fixed::lemma_tdiv_monotone((-hb - root) * s, (-hb + root) * s, a);
        let t1 = fdiv(-hb - root, a);
        let t2 = fdiv(-hb + root, a);
        assert(t1 <= t2);
    }
}

/// A hit reported by the scan lies strictly inside `(t_min, t_max)`,
/// with no assumption on the scene.
pub proof fn lemma_list_hit_t_bounds(objs: Seq<Sphere>, r: RayV, t_min: int, t_max: int)
    requires
        list_hit_spec(objs, r, t_min, t_max) is Some,
    ensures
        t_min < list_hit_spec(objs, r, t_min, t_max)->0.t < t_max,
    decreases objs.len(),
{
    let prefix = list_hit_spec(objs.drop_last(), r, t_min, t_max);
    let closest = match prefix {
        Option::Some(h) => h.t,
        Option::None => t_max,
    };
    let last = objs.last();
    if prefix is Some {
        lemma_list_hit_t_bounds(objs.drop_last(), r, t_min, t_max);
    }
    if sphere_hit_spec(last.center@, last.radius@, last.material, r, t_min, closest)
        is Some {
        lemma_sphere_hit_props(last.center@, last.radius@, last.material, r, t_min,
            closest);
    }
}

/// The nearest-hit invariant: whenever some sphere of the scene
/// reports a hit over the full interval, the scan reports a hit at
/// most as far — whatever the insertion order.
pub proof fn lemma_list_hit_nearest(objs: Seq<Sphere>, r: RayV, t_min: int, t_max: int, k: int)
    requires
        0 <= k < objs.len(),
        sphere_hit_spec(objs[k].center@, objs[k].radius@, objs[k].material, r, t_min,
            t_max) is Some,
    ensures
        list_hit_spec(objs, r, t_min, t_max) is Some,
        list_hit_spec(objs, r, t_min, t_max)->0.t <= sphere_hit_spec(objs[k].center@,
            objs[k].radius@, objs[k].material, r, t_min, t_max)->0.t,
    decreases objs.len(),
{
    let n = objs.len() as int;
    let prefix = list_hit_spec(objs.drop_last(), r, t_min, t_max);
    let closest = match prefix {
        Option::Some(h) => h.t,
        Option::None => t_max,
    };
    let last = objs.last();
    let probe = sphere_hit_spec(last.center@, last.radius@, last.material, r, t_min,
        closest);
    if prefix is Some {
        lemma_list_hit_t_bounds(objs.drop_last(), r, t_min, t_max);
    }
    if probe is Some {
        lemma_sphere_hit_props(last.center@, last.radius@, last.material, r, t_min,
            closest);
    }
    if k < n - 1 {
        assert(objs.drop_last()[k] === objs[k]);
        lemma_list_hit_nearest(objs.drop_last(), r, t_min, t_max, k);
    } else {
        let full = sphere_hit_spec(last.center@, last.radius@, last.material, r, t_min,
            t_max);
        lemma_sphere_hit_props(last.center@, last.radius@, last.material, r, t_min, t_max);
        assert(t_min < closest <= t_max);
        lemma_sphere_hit_shrink(last.center@, last.radius@, last.material, r, t_min,
            t_max, closest);
        if full->0.t < closest {
            assert(probe === Option::Some(full->0));
        } else {
            assert(probe is None);
            assert(prefix is Some);
        }
    }
}

/// For two overlapping spheres along one ray, the scan reports exactly
/// the hit of smaller parametric distance, whichever sphere came first.
pub proof fn lemma_two_spheres_nearest(s1: Sphere, s2: Sphere, r: RayV, t_min: int, t_max: int)
    requires
        sphere_hit_spec(s1.center@, s1.radius@, s1.material, r, t_min, t_max) is Some,
        sphere_hit_spec(s2.center@, s2.radius@, s2.material, r, t_min, t_max) is Some,
    ensures
        list_hit_spec(seq![s1, s2], r, t_min, t_max) is Some,
        list_hit_spec(seq![s1, s2], r, t_min, t_max)->0 === (if sphere_hit_spec(s2.center@,
            s2.radius@, s2.material, r, t_min, t_max)->0.t < sphere_hit_spec(s1.center@,
            s1.radius@, s1.material, r, t_min, t_max)->0.t {
            sphere_hit_spec(s2.center@, s2.radius@, s2.material, r, t_min, t_max)->0
        } else {
            sphere_hit_spec(s1.center@, s1.radius@, s1.material, r, t_min, t_max)->0
        }),
{
    let h1 = sphere_hit_spec(s1.center@, s1.radius@, s1.material, r, t_min, t_max)->0;
    let pair = seq![s1, s2];
    assert(pair.drop_last() =~= seq![s1]);
    assert(seq![s1].drop_last() =~= Seq::<Sphere>::empty());
    assert(list_hit_spec(Seq::<Sphere>::empty(), r, t_min, t_max) is None);
    assert(seq![s1].len() == 1 && seq![s1].last() === s1);
    assert(list_hit_spec(seq![s1], r, t_min, t_max) === Option::Some(h1));
    lemma_sphere_hit_props(s1.center@, s1.radius@, s1.material, r, t_min, t_max);
    lemma_sphere_hit_shrink(s2.center@, s2.radius@, s2.material, r, t_min, t_max, h1.t);
}

/// The scene: an insertion-ordered collection of spheres, scanned
/// linearly for the nearest qualifying hit.
pub struct HittableList {
    pub objects: Vec<Sphere>,
}

/// The nearest valid hit of a ray over a sequence of spheres: each
/// sphere is probed with the interval shrunk to the closest hit found
/// among the spheres before it.
pub open spec fn list_hit_spec(objs: Seq<Sphere>, r: RayV, t_min: int, t_max: int)
    -> Option<HitRecordV>
    decreases objs.len(),
{
    if objs.len() == 0 {
        Option::None
    } else {
        let prefix = list_hit_spec(objs.drop_last(), r, t_min, t_max);
        let closest = match prefix {
            Option::Some(h) => h.t,
            Option::None => t_max,
        };
        let last = objs.last();
        match sphere_hit_spec(last.center@, last.radius@, last.material, r, t_min, closest) {
            Option::Some(h2) => Option::Some(h2),
            Option::None => prefix,
        }
    }
}

/// A hit reported by the scan lies strictly inside `(t_min, t_max)` and
/// is well formed, provided every sphere of the scene is.
pub proof fn lemma_list_hit_props(objs: Seq<Sphere>, r: RayV, t_min: int, t_max: int)
    requires
        forall|i: int| 0 <= i < objs.len() ==> objs[i].wf(),
        list_hit_spec(objs, r, t_min, t_max) is Some,
    ensures
        t_min < list_hit_spec(objs, r, t_min, t_max)->0.t < t_max,
        hit_record_wf(list_hit_spec(objs, r, t_min, t_max)->0),
    decreases objs.len(),
{
    let prefix = list_hit_spec(objs.drop_last(), r, t_min, t_max);
    let closest = match prefix {
        Option::Some(h) => h.t,
        Option::None => t_max,
    };
    let last = objs.last();
    if prefix is Some {
        lemma_list_hit_props(objs.drop_last(), r, t_min, t_max);
    }
    if sphere_hit_spec(last.center@, last.radius@, last.material, r, t_min, closest)
        is Some {
        lemma_sphere_hit_props(last.center@, last.radius@, last.material, r, t_min,
            closest);
    }
}

impl HittableList {
    /// Every sphere of the scene is well formed.
    pub open spec fn wf(self) -> bool {
        forall|i: int| 0 <= i < self.objects@.len() ==> self.objects@[i].wf()
    }

    /// The empty scene.
    pub fn new() -> (r: HittableList)
        ensures
            r.objects@.len() == 0,
            r.wf(),
    {
        HittableList { objects: Vec::new() }
    }

    /// Removes every object.
    pub fn clear(&mut self)
        ensures
            final(self).objects@.len() == 0,
            final(self).wf(),
    {
        self.objects.clear();
    }

    /// Appends a well-formed sphere to the scene.
    pub fn push(&mut self, object: Sphere)
        requires
            object.wf(),
        ensures
            final(self).objects@ === old(self).objects@.push(object),
            old(self).wf() ==> final(self).wf(),
    {
        self.objects.push(object);
        proof {
            if old(self).wf() {
                assert forall|i: int| 0 <= i < self.objects@.len() implies self.objects@[i]
                    .wf() by {
                    if i < old(self).objects@.len() {
                        assert(old(self).objects@[i].wf());
                    }
                }
            }
        }
    }

    /// The nearest valid hit across the whole scene, regardless of
    /// insertion order, per `list_hit_spec`.
    pub fn hit(&self, ray: &Ray, t_min: Fixed, t_max: Fixed) -> (r: Option<HitRecord>)
        requires
            self.wf(),
            ray_in_range(ray@, COORD_MAX as int),
            absi(t_min@) <= COORD_MAX as int,
            absi(t_max@) <= COORD_MAX as int,
        ensures
            opt_hit_view(r) === list_hit_spec(self.objects@, ray@, t_min@, t_max@),
    {
        let mut best: Option<HitRecord> = None;
        let mut closest = t_max;
        let n = self.objects.len();
        let mut i: usize = 0;
        while i < n
            invariant
                n == self.objects@.len(),
                0 <= i <= n,
                self.wf(),
                ray_in_range(ray@, COORD_MAX as int),
                absi(t_min@) <= COORD_MAX as int,
                absi(t_max@) <= COORD_MAX as int,
                opt_hit_view(best) === list_hit_spec(self.objects@.take(i as int), ray@,
                    t_min@, t_max@),
                closest@ == (match opt_hit_view(best) {
                    Option::Some(h) => h.t,
                    Option::None => t_max@,
                }),
                absi(closest@) <= COORD_MAX as int,
            decreases n - i,
        {
            let s = &self.objects[i];
            let probe = s.hit(ray, t_min, closest);
            proof {
                if opt_hit_view(probe) is Some {
                    lemma_sphere_hit_props(s.center@, s.radius@, s.material, ray@, t_min@,
                        closest@);
                }
                assert(self.objects@.take(i + 1).drop_last() =~= self.objects@.take(
                    i as int));
                assert(self.objects@.take(i + 1).last() === self.objects@[i as int]);
            }
            match probe {
                Some(h) => {
                    closest = h.t;
                    best = Some(h);
                },
                None => {},
            }
            i = i + 1;
        }
        proof {
            assert(self.objects@.take(n as int) =~= self.objects@);
        }
        best
    }
}

} // verus!
