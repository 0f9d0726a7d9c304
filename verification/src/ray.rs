//! Rays: an origin and a direction, with affine evaluation, plain marching,
//! and the gravitational bend-and-march step of the lensing integrator.

use vstd::prelude::*;
use crate::math::{FP, COORD_MAX, fits_i64, fmul, lemma_mul_bound, lemma_div_mag};
use crate::vec3::{
    Vec3, bounded3, vadd, vsub, vscale, vdot_raw, vlen, vunit, lemma_fmul_bound,
    lemma_sq_nonneg,
};

verus! {

/// Event-horizon radius around the gravity point (one half, in fixed point).
pub const HORIZON: i64 = 32768;

/// Cap on the bending magnitude; far beyond full dominance of the
/// gravity-ward term, so the normalized blend is unaffected in practice.
pub const MAG_MAX: i64 = 0x1_0000_0000;

/// X coordinate of the sentinel origin of an absorbed ray.
pub const ABSORBED_X: i64 = 65536000;

#[derive(Clone, Copy, PartialEq, Eq, Structural, Debug)]
pub struct Ray {
    pub a: Vec3,
    pub b: Vec3,
}

/// Affine evaluation along a ray.
pub open spec fn ray_at(o: (int, int, int), d: (int, int, int), t: int) -> (int, int, int) {
    vadd(o, vscale(d, t))
}

/// Bending magnitude: inverse-square of the adjusted distance, scaled by the
/// strength, capped at MAG_MAX.
pub open spec fn grav_mag(strength: int, adj: int) -> int {
    let m0 = (strength * (FP as int) * (FP as int)) / (adj * adj);
    if m0 > MAG_MAX as int {
        MAG_MAX as int
    } else {
        m0
    }
}

/// The blended (not yet normalized) direction of the bent ray.
pub open spec fn grav_blend(d: (int, int, int), dof: (int, int, int), mag: int) -> (
    int,
    int,
    int,
) {
    vadd(vscale(dof, mag), vscale(d, (FP as int) - mag))
}


/// The absorbed sentinel ray.
pub open spec fn absorbed_ray() -> Ray {
    Ray { a: Vec3 { x: ABSORBED_X, y: 0, z: 0 }, b: Vec3 { x: 0, y: 0, z: 0 } }
}

/// The full bend-and-march step, as a value: what `apply_gravity_and_march`
/// returns.
pub open spec fn grav_step(r: Ray, g: Vec3, strength: int, m: int) -> Ray {
    let o = r.origin_s();
    let d = r.dir_s();
    let adj = vlen(vsub(g.s(), o)) - (HORIZON as int);
    if adj <= 0 {
        absorbed_ray()
    } else {
        let dof = vunit(vsub(g.s(), o));
        let mag = grav_mag(strength, adj);
        let bl = grav_blend(d, dof, mag);
        if vdot_raw(bl, bl) == 0 {
            absorbed_ray()
        } else {
            let nd = vunit(bl);
            Ray {
                a: Vec3 {
                    x: (o.0 + fmul(nd.0, m)) as i64,
                    y: (o.1 + fmul(nd.1, m)) as i64,
                    z: (o.2 + fmul(nd.2, m)) as i64,
                },
                b: Vec3 { x: nd.0 as i64, y: nd.1 as i64, z: nd.2 as i64 },
            }
        }
    }
}

/// The spec view of an absorbed ray: zero direction, sentinel origin.
pub open spec fn absorbed(r: Ray) -> bool {
    r.dir_s() == (0int, 0int, 0int) && r.origin_s() == (ABSORBED_X as int, 0int, 0int)
}

impl Ray {
    pub open spec fn origin_s(self) -> (int, int, int) {
        self.a.s()
    }

    pub open spec fn dir_s(self) -> (int, int, int) {
        self.b.s()
    }

    pub fn new(a: Vec3, b: Vec3) -> (r: Ray)
        ensures
            r.origin_s() == a.s(),
            r.dir_s() == b.s(),
    {
        Ray { a, b }
    }

    pub fn origin(&self) -> (r: Vec3)
        ensures
            r.s() == self.origin_s(),
    {
        self.a
    }

    pub fn direction(&self) -> (r: Vec3)
        ensures
            r.s() == self.dir_s(),
    {
        self.b
    }

    pub fn point_at_parameter(&self, t: i64) -> (r: Vec3)
        requires
            fits_i64(fmul(self.b.s().0, t as int)),
            fits_i64(fmul(self.b.s().1, t as int)),
            fits_i64(fmul(self.b.s().2, t as int)),
            fits_i64(self.a.s().0 + fmul(self.b.s().0, t as int)),
            fits_i64(self.a.s().1 + fmul(self.b.s().1, t as int)),
            fits_i64(self.a.s().2 + fmul(self.b.s().2, t as int)),
        ensures
            r.s() == ray_at(self.origin_s(), self.dir_s(), t as int),
    {
        self.a.add(self.b.scale(t))
    }

    /// A new ray advanced by `m` along the current direction.
    pub fn march(&self, m: i64) -> (r: Ray)
        requires
            fits_i64(fmul(self.b.s().0, m as int)),
            fits_i64(fmul(self.b.s().1, m as int)),
            fits_i64(fmul(self.b.s().2, m as int)),
            fits_i64(self.a.s().0 + fmul(self.b.s().0, m as int)),
            fits_i64(self.a.s().1 + fmul(self.b.s().1, m as int)),
            fits_i64(self.a.s().2 + fmul(self.b.s().2, m as int)),
        ensures
            r.origin_s() == ray_at(self.origin_s(), self.dir_s(), m as int),
            r.dir_s() == self.dir_s(),
    {
        Ray::new(self.point_at_parameter(m), self.direction())
    }

    /// One integrator step of the lensing scene: bend the direction toward
    /// the gravity point by the inverse-square magnitude, renormalize, and
    /// advance one step; inside the event horizon the ray is absorbed
    /// (sentinel origin, zero direction). A degenerate blend that cancels to
    /// the zero vector also collapses the ray.
    pub fn apply_gravity_and_march(self, gravity_point: &Vec3, strength: i64, m: i64) -> (r: Ray)
        requires
            bounded3(self.origin_s(), COORD_MAX as int),
            bounded3(self.dir_s(), COORD_MAX as int),
            bounded3(gravity_point.s(), COORD_MAX as int),
            0 <= strength <= FP,
            0 <= m <= FP,
        ensures
            ({
                let o = self.origin_s();
                let d = self.dir_s();
                let g = gravity_point.s();
                let adj = vlen(vsub(g, o)) - (HORIZON as int);
                let dof = vunit(vsub(g, o));
                let mag = grav_mag(strength as int, adj);
                let bl = grav_blend(d, dof, mag);
                &&& r == grav_step(self, *gravity_point, strength as int, m as int)
                &&& (adj <= 0 ==> absorbed(r))
                &&& (adj > 0 && vdot_raw(bl, bl) == 0 ==> absorbed(r))
                &&& (adj > 0 && vdot_raw(bl, bl) != 0 ==> {
                    &&& r.dir_s() == vunit(bl)
                    &&& bounded3(r.dir_s(), FP as int)
                    &&& vdot_raw(r.dir_s(), r.dir_s()) >= FP as int
                    &&& r.origin_s() == vadd(o, vscale(vunit(bl), m as int))
                    &&& -(FP as int) - 1 <= r.origin_s().0 - o.0 <= FP as int
                    &&& -(FP as int) - 1 <= r.origin_s().1 - o.1 <= FP as int
                    &&& -(FP as int) - 1 <= r.origin_s().2 - o.2 <= FP as int
                })
            }),
    {
        let to_g: Vec3 = gravity_point.sub(self.a);
        let dist: i64 = to_g.length();
        let adjusted: i64 = dist - HORIZON;
        if adjusted > 0 {
            proof {
                let n = vdot_raw(to_g.s(), to_g.s());
                lemma_sq_nonneg(to_g.s().0);
                lemma_sq_nonneg(to_g.s().1);
                lemma_sq_nonneg(to_g.s().2);
                assert(n >= 1) by (nonlinear_arith)
                    requires
                        crate::math::is_isqrt(dist as int, n),
                        dist as int >= 1,
                ;
                lemma_mul_bound(adjusted as int, adjusted as int, 0x7fff_ffff_ffff_ffff,
                    0x7fff_ffff_ffff_ffff);
                assert((adjusted as int) * (adjusted as int) >= 1) by (nonlinear_arith)
                    requires
                        adjusted as int >= 1,
                ;
            }
            let num: i128 = (strength as i128) * 65536 * 65536;
            let den: i128 = (adjusted as i128) * (adjusted as i128);
            let mag0: i128 = crate::math::div_floor(num, den);
            proof {
                lemma_div_mag(num as int, den as int, 0x1_0000_0000_0000 as int);
            }
            let mag: i64 = if mag0 > 0x1_0000_0000 {
                0x1_0000_0000
            } else {
                mag0 as i64
            };
            let dof: Vec3 = to_g.unit_vector();
            proof {
                lemma_fmul_bound(dof.s().0, mag as int, FP as int, MAG_MAX as int);
                lemma_fmul_bound(dof.s().1, mag as int, FP as int, MAG_MAX as int);
                lemma_fmul_bound(dof.s().2, mag as int, FP as int, MAG_MAX as int);
                lemma_fmul_bound(self.b.s().0, FP as int - mag as int, COORD_MAX as int,
                    MAG_MAX as int);
                lemma_fmul_bound(self.b.s().1, FP as int - mag as int, COORD_MAX as int,
                    MAG_MAX as int);
                lemma_fmul_bound(self.b.s().2, FP as int - mag as int, COORD_MAX as int,
                    MAG_MAX as int);
            }
            let blend: Vec3 = dof.scale(mag).add(self.b.scale(FP - mag));
            let nsq: i128 = blend.norm_sq_raw();
            if nsq == 0 {
                Ray { a: Vec3::new(ABSORBED_X, 0, 0), b: Vec3::zero() }
            } else {
                let nd: Vec3 = blend.unit_vector();
                proof {
                    lemma_fmul_bound(nd.s().0, m as int, FP as int, FP as int);
                    lemma_fmul_bound(nd.s().1, m as int, FP as int, FP as int);
                    lemma_fmul_bound(nd.s().2, m as int, FP as int, FP as int);
                }
                Ray { a: self.a.add(nd.scale(m)), b: nd }
            }
        } else {
            Ray { a: Vec3::new(ABSORBED_X, 0, 0), b: Vec3::zero() }
        }
    }
}

} // verus!
