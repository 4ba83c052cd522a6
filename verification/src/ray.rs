//! Rays: an origin and an (unnormalized) direction, with parametric
//! evaluation `position(t) = origin + t * direction`.

use vstd::prelude::*;

use crate::fixed::{absi, Fixed};
use crate::vec3::{add3, in_range, scale3, Vec3, V3, COORD_MAX};

verus! {

/// The mathematical image of a ray.
pub struct RayV {
    pub origin: V3,
    pub direction: V3,
}

/// The point a ray reaches at parameter `t`.
pub open spec fn ray_at3(r: RayV, t: int) -> V3 {
    add3(r.origin, scale3(r.direction, t))
}

/// Both endpoints of a ray lie in the scene envelope.
pub open spec fn ray_in_range(r: RayV, m: int) -> bool {
    in_range(r.origin, m) && in_range(r.direction, m)
}

/// An origin point and a direction of travel.  The direction need not be
/// unit length; consumers either normalize it or use its squared length.
#[derive(Clone, Copy, PartialEq, Eq, Structural, Debug)]
pub struct Ray {
    pub origin: Vec3,
    pub direction: Vec3,
}

impl View for Ray {
    type V = RayV;

    open spec fn view(&self) -> RayV {
        RayV { origin: self.origin@, direction: self.direction@ }
    }
}

impl Ray {
    /// The degenerate ray at the origin.
    pub fn new() -> (r: Ray)
        ensures
            r@.origin === (V3 { x: 0, y: 0, z: 0 }),
            r@.direction === (V3 { x: 0, y: 0, z: 0 }),
    {
        Ray { origin: Vec3::new(), direction: Vec3::new() }
    }

    /// The ray with the given origin and direction.
    pub fn from(origin: Vec3, direction: Vec3) -> (r: Ray)
        ensures
            r@.origin === origin@,
            r@.direction === direction@,
    {
        Ray { origin, direction }
    }

    pub fn origin(&self) -> (r: Vec3)
        ensures
            r@ === self@.origin,
    {
        self.origin
    }

    pub fn direction(&self) -> (r: Vec3)
        ensures
            r@ === self@.direction,
    {
        self.direction
    }

    /// The position of the ray at parameter `t`.
    pub fn at(&self, t: Fixed) -> (r: Vec3)
        requires
            ray_in_range(self@, COORD_MAX as int),
            absi(t@) <= COORD_MAX as int,
        ensures
            r@ === ray_at3(self@, t@),
            in_range(r@, 0x10_0400_0000),
    {
        proof {
            crate::vec3::lemma_scale3_bound(self@.direction, t@, COORD_MAX as int,
                COORD_MAX as int);
            assert(((COORD_MAX as int) * (COORD_MAX as int)) / 65536 == 0x10_0000_0000);
        }
        self.origin.add(self.direction.scale(t))
    }
}

} // verus!
