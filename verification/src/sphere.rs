//! The sphere primitive and its intersection protocol: solve the quadratic
//! for the ray/sphere equation, accept the smaller root strictly inside
//! (t_min, t_max), else the larger, else report no hit; populate the hit
//! record only on acceptance.

use vstd::prelude::*;
use crate::math::{
    FP, COORD_MAX, T_MAX_LIMIT, fmul, fdivs, sqrt_i, is_isqrt, fits_i64, isqrt, div_floor, fp_mul, fp_div,
    lemma_mul_bound, lemma_div_mag, lemma_div_ordered, lemma_div_bound_denom, lemma_isqrt_below,
};
use crate::vec3::{Vec3, bounded3, vsub, vdot, vdot_raw, lemma_fmul_bound};
use crate::ray::{Ray, ray_at};
use crate::hit::HitRecord;
use crate::material::Material;

verus! {

/// Smallest sphere radius the fixed-point pipeline accepts.
pub const RADIUS_MIN: i64 = 4096;

#[derive(Clone, Copy, PartialEq, Eq, Structural, Debug)]
pub struct Sphere {
    pub center: Vec3,
    pub radius: i64,
    pub material: Material,
}

/// Well-formedness of a sphere: bounded center, radius within the range the
/// arithmetic supports, well-formed material.
pub open spec fn sphere_wf(s: Sphere) -> bool {
    &&& bounded3(s.center.s(), COORD_MAX as int)
    &&& RADIUS_MIN <= s.radius <= COORD_MAX
    &&& s.material.wf()
}

/// Well-formedness of a query ray: bounded components and a direction that
/// is not degenerately short.
pub open spec fn ray_wf(r: Ray) -> bool {
    &&& bounded3(r.origin_s(), COORD_MAX as int)
    &&& bounded3(r.dir_s(), COORD_MAX as int)
    &&& vdot_raw(r.dir_s(), r.dir_s()) >= FP as int
}

/// Bounds on the query window.
pub open spec fn window_wf(t_min: int, t_max: int) -> bool {
    0 <= t_min && t_max <= T_MAX_LIMIT as int
}

pub open spec fn sph_oc(s: Sphere, r: Ray) -> (int, int, int) {
    vsub(r.origin_s(), s.center.s())
}

pub open spec fn sph_a(r: Ray) -> int {
    vdot(r.dir_s(), r.dir_s())
}

pub open spec fn sph_b(s: Sphere, r: Ray) -> int {
    2 * vdot(sph_oc(s, r), r.dir_s())
}

pub open spec fn sph_c(s: Sphere, r: Ray) -> int {
    vdot(sph_oc(s, r), sph_oc(s, r)) - fmul(s.radius as int, s.radius as int)
}

pub open spec fn sph_disc(s: Sphere, r: Ray) -> int {
    fmul(sph_b(s, r), sph_b(s, r)) - 4 * fmul(sph_a(r), sph_c(s, r))
}

/// Fixed-point square root of the discriminant.
pub open spec fn sph_sqrtd(s: Sphere, r: Ray) -> int {
    sqrt_i(sph_disc(s, r) * (FP as int))
}

/// The smaller root of the quadratic.
pub open spec fn sph_t1(s: Sphere, r: Ray) -> int {
    fdivs(-sph_b(s, r) - sph_sqrtd(s, r), 2 * sph_a(r))
}

/// The larger root of the quadratic.
pub open spec fn sph_t2(s: Sphere, r: Ray) -> int {
    fdivs(-sph_b(s, r) + sph_sqrtd(s, r), 2 * sph_a(r))
}

/// The accepted hit parameter, if any: a positive discriminant, and the
/// smaller root if it lies strictly inside the window, else the larger.
pub open spec fn sphere_hit_t(s: Sphere, r: Ray, t_min: int, t_max: int) -> Option<int> {
    if sph_disc(s, r) > 0 {
        if t_min < sph_t1(s, r) < t_max {
            Some(sph_t1(s, r))
        } else if t_min < sph_t2(s, r) < t_max {
            Some(sph_t2(s, r))
        } else {
            None
        }
    } else {
        None
    }
}

/// The normal stored for a hit at parameter `t`: (point - center) / radius.
pub open spec fn sph_normal(s: Sphere, r: Ray, t: int) -> (int, int, int) {
    let p = ray_at(r.origin_s(), r.dir_s(), t);
    (
        fdivs(p.0 - s.center.s().0, s.radius as int),
        fdivs(p.1 - s.center.s().1, s.radius as int),
        fdivs(p.2 - s.center.s().2, s.radius as int),
    )
}

/// What a hit record holds after a hit on `s` at parameter `t`.
pub open spec fn rec_matches(rec: HitRecord, s: Sphere, r: Ray, t: int) -> bool {
    &&& rec.t == t
    &&& rec.p.s() == ray_at(r.origin_s(), r.dir_s(), t)
    &&& rec.normal.s() == sph_normal(s, r, t)
    &&& rec.material == s.material
}

impl Sphere {
    pub fn new(center: Vec3, radius: i64, material: Material) -> (s: Sphere)
        ensures
            s.center == center,
            s.radius == radius,
            s.material == material,
    {
        Sphere { center, radius, material }
    }

    /// Intersection query. Reports whether the ray hits this sphere inside
    /// the open window (t_min, t_max); fills the record exactly on a hit and
    /// leaves it untouched on a miss.
    pub fn intersect(&self, r: &Ray, t_min: i64, t_max: i64, rec: &mut HitRecord) -> (hit: bool)
        requires
            sphere_wf(*self),
            ray_wf(*r),
            window_wf(t_min as int, t_max as int),
        ensures
            hit == sphere_hit_t(*self, *r, t_min as int, t_max as int).is_some(),
            hit ==> rec_matches(*final(rec), *self, *r, sphere_hit_t(*self, *r, t_min as int,
                t_max as int).unwrap()),
            !hit ==> *final(rec) == *old(rec),
    {
        proof {
            lemma_bounds(*self, *r);
        }
        let dir: Vec3 = r.direction();
        let oc: Vec3 = r.origin().sub(self.center);
        let a: i64 = dir.dot(dir);
        let b: i64 = 2 * oc.dot(dir);
        let c: i64 = oc.dot(oc) - fp_mul(self.radius, self.radius);
        proof {
            lemma_div_ordered(FP as int, vdot_raw(r.dir_s(), r.dir_s()), FP as int);
            assert(sph_a(*r) >= 1) by {
                vstd::arithmetic::div_mod::lemma_div_by_self(FP as int);
            }
        }
        proof {
            lemma_mul_bound(b as int, b as int, 0x2000_0000_0000_0000, 0x2000_0000_0000_0000);
            lemma_mul_bound(a as int, c as int, 0x2000_0000_0000_0000, 0x2000_0000_0000_0000);
            lemma_div_mag((b as int) * (b as int), FP as int, 0x2000_0000_0000_0000int
                * 0x2000_0000_0000_0000);
            lemma_div_mag((a as int) * (c as int), FP as int, 0x2000_0000_0000_0000int
                * 0x2000_0000_0000_0000);
        }
        let bb: i128 = div_floor((b as i128) * (b as i128), 65536);
        let ac: i128 = div_floor((a as i128) * (c as i128), 65536);
        let disc: i128 = bb - 4 * ac;
        if disc > 0 {
            let sq: i128 = isqrt(disc * 65536);
            proof {
                lemma_isqrt_below(sq as int, disc as int * (FP as int), 0x8000_0000_0000_0000int);
                lemma_div_mag((-(b as int) - sq) * (FP as int), 2 * sph_a(*r),
                    0x1_0000_0000_0000_0000_0000int);
                lemma_div_mag((-(b as int) + sq) * (FP as int), 2 * sph_a(*r),
                    0x1_0000_0000_0000_0000_0000int);
            }
            let t1: i128 = div_floor(((-b) as i128 - sq) * 65536, 2 * (a as i128));
            if t1 < (t_max as i128) && t1 > (t_min as i128) {
                self.fill(r, t1 as i64, rec);
                return true;
            }
            let t2: i128 = div_floor(((-b) as i128 + sq) * 65536, 2 * (a as i128));
            if t2 < (t_max as i128) && t2 > (t_min as i128) {
                self.fill(r, t2 as i64, rec);
                return true;
            }
            false
        } else {
            false
        }
    }

    /// Populates the record for a hit at parameter `t`.
    fn fill(&self, r: &Ray, t: i64, rec: &mut HitRecord)
        requires
            sphere_wf(*self),
            ray_wf(*r),
            0 <= t <= T_MAX_LIMIT,
        ensures
            rec_matches(*final(rec), *self, *r, t as int),
    {
        proof {
            lemma_fmul_bound(r.dir_s().0, t as int, COORD_MAX as int, T_MAX_LIMIT as int);
            lemma_fmul_bound(r.dir_s().1, t as int, COORD_MAX as int, T_MAX_LIMIT as int);
            lemma_fmul_bound(r.dir_s().2, t as int, COORD_MAX as int, T_MAX_LIMIT as int);
        }
        let p: Vec3 = r.point_at_parameter(t);
        proof {
            lemma_div_bound_denom((p.s().0 - self.center.s().0) * (FP as int), self.radius as int,
                0x400_0000_0000_0000_0000int, RADIUS_MIN as int);
            lemma_div_bound_denom((p.s().1 - self.center.s().1) * (FP as int), self.radius as int,
                0x400_0000_0000_0000_0000int, RADIUS_MIN as int);
            lemma_div_bound_denom((p.s().2 - self.center.s().2) * (FP as int), self.radius as int,
                0x400_0000_0000_0000_0000int, RADIUS_MIN as int);
        }
        let n: Vec3 = Vec3::new(
            fp_div(p.x - self.center.x, self.radius),
            fp_div(p.y - self.center.y, self.radius),
            fp_div(p.z - self.center.z, self.radius),
        );
        rec.t = t;
        rec.p = p;
        rec.normal = n;
        rec.material = self.material;
    }
}


/// A ray from outside a sphere, aimed straight at its center, hits at
/// `t = distance_to_center - radius`, with the outward normal collinear
/// with the incoming direction. Stated for the axis-aligned family whose
/// distances are multiples of 256, on which the fixed-point quadratic is
/// exact.
pub proof fn lemma_head_on_axis_hit(s: Sphere, r: Ray, dd: int, t_min: int, t_max: int)
    requires
        s.center.s().0 == r.origin_s().0,
        s.center.s().1 == r.origin_s().1,
        s.center.s().2 == r.origin_s().2 - dd,
        r.dir_s() == (0int, 0int, -(FP as int)),
        s.radius % 256 == 0,
        dd % 256 == 0,
        RADIUS_MIN <= s.radius < dd,
        t_min < dd - s.radius < t_max,
    ensures
        sphere_hit_t(s, r, t_min, t_max) == Some(dd - s.radius),
        sph_normal(s, r, dd - s.radius) == (0int, 0int, FP as int),
{
    vstd::arithmetic::div_mod::lemma_fundamental_div_mod(dd, 256);
    vstd::arithmetic::div_mod::lemma_fundamental_div_mod(s.radius as int, 256);
    let k = dd / 256;
    let m = s.radius as int / 256;
    let rad = s.radius as int;
    let oc = sph_oc(s, r);
    assert(oc == (0int, 0int, dd));
    // a = FP
    assert(vdot_raw(r.dir_s(), r.dir_s()) == 65536 * 65536) by (nonlinear_arith)
        requires
            r.dir_s() == (0int, 0int, -(FP as int)),
            FP == 65536,
    ;
    vstd::arithmetic::div_mod::lemma_div_multiples_vanish(65536, 65536);
    assert(sph_a(r) == FP as int);
    // b = -2 * dd
    assert(vdot_raw(oc, r.dir_s()) == 65536 * (-dd)) by (nonlinear_arith)
        requires
            oc == (0int, 0int, dd),
            r.dir_s() == (0int, 0int, -(FP as int)),
            FP == 65536,
    ;
    vstd::arithmetic::div_mod::lemma_div_multiples_vanish(-dd, 65536);
    assert(sph_b(s, r) == -2 * dd);
    // c = k*k - m*m
    assert(vdot_raw(oc, oc) == 65536 * (k * k)) by (nonlinear_arith)
        requires
            oc == (0int, 0int, dd),
            dd == 256 * k + dd % 256,
            dd % 256 == 0,
    ;
    assert(rad * rad == 65536 * (m * m)) by (nonlinear_arith)
        requires
            rad == 256 * m + rad % 256,
            rad % 256 == 0,
    ;
    vstd::arithmetic::div_mod::lemma_div_multiples_vanish(k * k, 65536);
    vstd::arithmetic::div_mod::lemma_div_multiples_vanish(m * m, 65536);
    assert(sph_c(s, r) == k * k - m * m);
    // disc = 4 * m * m
    assert((-2 * dd) * (-2 * dd) == 65536 * (4 * (k * k))) by (nonlinear_arith)
        requires
            dd == 256 * k + dd % 256,
            dd % 256 == 0,
    ;
    vstd::arithmetic::div_mod::lemma_div_multiples_vanish(4 * (k * k), 65536);
    assert(fmul(sph_b(s, r), sph_b(s, r)) == 4 * (k * k));
    vstd::arithmetic::div_mod::lemma_div_multiples_vanish(k * k - m * m, 65536);
    assert(fmul(sph_a(r), sph_c(s, r)) == k * k - m * m) by {
        assert(65536 * (k * k - m * m) == (FP as int) * (k * k - m * m));
    }
    assert(sph_disc(s, r) == 4 * (m * m));
    assert(m >= 16);
    assert(4 * (m * m) > 0) by (nonlinear_arith)
        requires
            m >= 16,
    ;
    // sqrt of the discriminant is 2 * rad
    assert(4 * (m * m) * 65536 == (512 * m) * (512 * m)) by (nonlinear_arith);
    assert(is_isqrt(512 * m, sph_disc(s, r) * (FP as int))) by (nonlinear_arith)
        requires
            sph_disc(s, r) * (FP as int) == (512 * m) * (512 * m),
            m >= 16,
    ;
    assert(exists|q: int| #[trigger] is_isqrt(q, sph_disc(s, r) * (FP as int)));
    assert(is_isqrt(sph_sqrtd(s, r), sph_disc(s, r) * (FP as int)));
    crate::math::lemma_isqrt_unique(512 * m, sph_sqrtd(s, r), sph_disc(s, r) * (FP as int));
    assert(sph_sqrtd(s, r) == 2 * rad) by (nonlinear_arith)
        requires
            sph_sqrtd(s, r) == 512 * m,
            rad == 256 * m + rad % 256,
            rad % 256 == 0,
    ;
    // the smaller root is dd - rad
    assert((2 * dd - 2 * rad) * 65536 == 131072 * (dd - rad)) by (nonlinear_arith);
    vstd::arithmetic::div_mod::lemma_div_multiples_vanish(dd - rad, 131072);
    assert(sph_t1(s, r) == dd - rad) by {
        assert(-sph_b(s, r) - sph_sqrtd(s, r) == 2 * dd - 2 * rad);
        assert(2 * sph_a(r) == 131072);
    }
    assert(sphere_hit_t(s, r, t_min, t_max) == Some(dd - rad));
    // the normal is the positive z axis
    let t = dd - rad;
    assert(0 * t == 0) by (nonlinear_arith);
    vstd::arithmetic::div_mod::lemma_div_of0(65536);
    assert((-65536) * t == 65536 * (-t)) by (nonlinear_arith);
    vstd::arithmetic::div_mod::lemma_div_multiples_vanish(-t, 65536);
    assert(fmul(0, t) == 0 && fmul(-(FP as int), t) == -t);
    let p = ray_at(r.origin_s(), r.dir_s(), t);
    assert(p.0 - s.center.s().0 == 0 && p.1 - s.center.s().1 == 0 && p.2 - s.center.s().2
        == rad);
    vstd::arithmetic::div_mod::lemma_div_of0(rad);
    vstd::arithmetic::div_mod::lemma_div_multiples_vanish(65536, rad);
    assert(rad * 65536 == rad * (FP as int));
    assert(sph_normal(s, r, t) == (0int, 0int, FP as int)) by {
        assert(0int * 65536 == 0int) by (nonlinear_arith);
    }
}

/// Magnitude bounds for the quadratic's coefficients.
proof fn lemma_bounds(s: Sphere, r: Ray)
    requires
        sphere_wf(s),
        ray_wf(r),
    ensures
        -0x2000_0000_0000_0000 <= sph_a(r) <= 0x2000_0000_0000_0000,
        -0x2000_0000_0000_0000 <= sph_b(s, r) <= 0x2000_0000_0000_0000,
        -0x2000_0000_0000_0000 <= sph_c(s, r) <= 0x2000_0000_0000_0000,
        fits_i64(sph_b(s, r)),
        fits_i64(sph_c(s, r)),
        fits_i64(fmul(s.radius as int, s.radius as int)),
{
    let cb: int = COORD_MAX as int;
    let d = r.dir_s();
    let oc = sph_oc(s, r);
    lemma_mul_bound(d.0, d.0, cb, cb);
    lemma_mul_bound(d.1, d.1, cb, cb);
    lemma_mul_bound(d.2, d.2, cb, cb);
    lemma_div_mag(vdot_raw(d, d), FP as int, 3 * (cb * cb));
    lemma_mul_bound(oc.0, d.0, 2 * cb, cb);
    lemma_mul_bound(oc.1, d.1, 2 * cb, cb);
    lemma_mul_bound(oc.2, d.2, 2 * cb, cb);
    lemma_div_mag(vdot_raw(oc, d), FP as int, 6 * (cb * cb));
    lemma_mul_bound(oc.0, oc.0, 2 * cb, 2 * cb);
    lemma_mul_bound(oc.1, oc.1, 2 * cb, 2 * cb);
    lemma_mul_bound(oc.2, oc.2, 2 * cb, 2 * cb);
    lemma_div_mag(vdot_raw(oc, oc), FP as int, 12 * (cb * cb));
    lemma_fmul_bound(s.radius as int, s.radius as int, cb, cb);
}

} // verus!
