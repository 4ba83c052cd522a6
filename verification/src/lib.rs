//! A Monte Carlo ray tracer for scenes of spheres, computed in 16.16
//! fixed-point arithmetic so that every step of the rendering core can be
//! verified: vector algebra, ray-sphere intersection, the nearest-hit scan,
//! the material scattering model, the camera ray model, the recursive
//! radiance integrator, and the gamma-corrected pixel quantization.

pub mod camera;
pub mod color;
pub mod fixed;
pub mod hittable;
pub mod material;
pub mod ray;
mod rng;
pub mod tracer;
pub mod vec3;

pub use camera::Camera;
pub use fixed::Fixed;
pub use hittable::{HitRecord, HittableList, Sphere};
pub use material::Material;
pub use ray::Ray;
pub use vec3::Vec3;
