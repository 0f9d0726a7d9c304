//! The result slot of an intersection query.

use vstd::prelude::*;
use crate::vec3::Vec3;
use crate::material::Material;

verus! {

#[derive(Clone, Copy, PartialEq, Eq, Structural, Debug)]
pub struct HitRecord {
    /// Hit parameter along the ray.
    pub t: i64,
    /// Hit point.
    pub p: Vec3,
    /// Outward normal at the hit point.
    pub normal: Vec3,
    /// Material of the primitive that was hit.
    pub material: Material,
}

impl HitRecord {
    pub fn new() -> (r: HitRecord)
        ensures
            r.t == 0,
            r.p.s() == (0int, 0int, 0int),
            r.normal.s() == (0int, 0int, 0int),
            r.material == (Material::Lambertian { albedo: Vec3 { x: 0, y: 0, z: 0 } }),
    {
        HitRecord {
            t: 0,
            p: Vec3::zero(),
            normal: Vec3::zero(),
            material: Material::Lambertian { albedo: Vec3 { x: 0, y: 0, z: 0 } },
        }
    }
}

} // verus!
