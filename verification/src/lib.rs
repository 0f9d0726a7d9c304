//! A physically inspired light-transport renderer over fixed-point
//! arithmetic: sphere intersection, material scattering, a pinhole /
//! thin-lens camera, and two scene aggregates — a straight-line one and a
//! gravitational-lensing one that bends rays by iterative marching.
//!
//! All quantities are fixed-point integers: a value `v` stands for the real
//! number `v / FP`.

mod math;
mod vec3;
mod ray;
mod material;
mod hit;
mod sphere;
mod world;
mod rng;
mod camera;
mod tracer;

pub use math::FP;
pub use vec3::Vec3;
pub use ray::Ray;
pub use material::Material;
pub use hit::HitRecord;
pub use sphere::Sphere;
pub use world::{FlatScene, LensingWorld};
pub use rng::Rng;
pub use camera::Camera;
pub use tracer::{Scene, color, shade_normal};
