//! The closed set of material kinds and their scattering laws.
//!
//! `scatter_with` is the deterministic core: it takes the unit-sphere
//! sample and the reflectance draw as arguments and its result is pinned
//! exactly. `scatter` draws them from the sample source.

use vstd::prelude::*;
use crate::math::{
    FP, COORD_MAX, fmul, fdivs, sqrt_i, fp_mul, fp_div, sqrt_fp, lemma_div_mag,
    lemma_div_bound_denom, lemma_isqrt_above,
};
use crate::vec3::{
    Vec3, bounded3, vadd, vsub, vneg, vscale, vdot, vdot_raw, vlen, vunit, lemma_fmul_bound,
};
use crate::ray::Ray;
use crate::hit::HitRecord;
use crate::rng::Rng;

verus! {

/// Bound on every scattered direction's components.
pub const SCATTER_DIR_MAX: i64 = 0x1000_0000;

#[derive(Clone, Copy, PartialEq, Eq, Structural, Debug)]
pub enum Material {
    Lambertian { albedo: Vec3 },
    Metal { albedo: Vec3, fuzz: i64 },
    Dielectric { ref_idx: i64 },
}

/// A color: every component within the unit range.
pub open spec fn color_wf(c: (int, int, int)) -> bool {
    0 <= c.0 <= FP as int && 0 <= c.1 <= FP as int && 0 <= c.2 <= FP as int
}

/// What scattering asks of the incoming ray and the hit record: a bounded,
/// non-degenerate direction, a roughly unit normal, a bounded hit point.
pub open spec fn scatter_pre(r_in: Ray, rec: HitRecord) -> bool {
    &&& bounded3(r_in.dir_s(), COORD_MAX as int)
    &&& vdot_raw(r_in.dir_s(), r_in.dir_s()) >= FP as int
    &&& bounded3(rec.normal.s(), 2 * (FP as int))
    &&& bounded3(rec.p.s(), COORD_MAX as int)
}

/// A valid unit-sphere sample.
pub open spec fn sample_wf(smp: Vec3) -> bool {
    bounded3(smp.s(), FP as int) && vdot_raw(smp.s(), smp.s()) < (FP as int) * (FP as int)
}

/// Mirror reflection of `v` about `n`.
pub open spec fn reflect_s(v: (int, int, int), n: (int, int, int)) -> (int, int, int) {
    vsub(v, vscale(n, 2 * vdot(v, n)))
}

/// The outward normal the dielectric works against.
pub open spec fn diel_outward(d: (int, int, int), n: (int, int, int)) -> (int, int, int) {
    if vdot(d, n) > 0 {
        vneg(n)
    } else {
        n
    }
}

/// The effective refraction ratio.
pub open spec fn diel_ni(d: (int, int, int), n: (int, int, int), ri: int) -> int {
    if vdot(d, n) > 0 {
        ri
    } else {
        fdivs(FP as int, ri)
    }
}

pub open spec fn clamp_cos(x: int) -> int {
    if x > 524288 {
        524288
    } else if x < -524288 {
        -524288
    } else {
        x
    }
}

/// The cosine fed to the reflectance approximation.
pub open spec fn diel_cosine(d: (int, int, int), n: (int, int, int), ri: int) -> int {
    if vdot(d, n) > 0 {
        clamp_cos(fdivs(fmul(ri, vdot(d, n)), vlen(d)))
    } else {
        clamp_cos(fdivs(-vdot(d, n), vlen(d)))
    }
}

/// Discriminant of Snell's law: positive means refraction is possible.
pub open spec fn refr_disc(d: (int, int, int), out: (int, int, int), ni: int) -> int {
    let dt = vdot(vunit(d), out);
    (FP as int) - fmul(fmul(ni, ni), (FP as int) - fmul(dt, dt))
}

/// The refracted direction (meaningful when the discriminant is positive).
pub open spec fn refr_dir(d: (int, int, int), out: (int, int, int), ni: int) -> (int, int, int) {
    let uv = vunit(d);
    let dt = vdot(uv, out);
    vsub(vscale(vsub(uv, vscale(out, dt)), ni), vscale(out, sqrt_i(refr_disc(d, out, ni) * (
    FP as int))))
}

/// Schlick's reflectance approximation.
pub open spec fn schlick_s(cos: int, ri: int) -> int {
    let r0 = fmul(fdivs(ri - FP as int, ri + FP as int), fdivs(ri - FP as int, ri + FP as int));
    let om = (FP as int) - cos;
    let p2 = fmul(om, om);
    let p4 = fmul(p2, p2);
    let p5 = fmul(p4, om);
    r0 + fmul((FP as int) - r0, p5)
}

impl Material {
    /// Well-formedness: albedo is a color, fuzz within the unit range, and a
    /// refractive index above one (and small enough for the arithmetic).
    pub open spec fn wf(self) -> bool {
        match self {
            Material::Lambertian { albedo } => color_wf(albedo.s()),
            Material::Metal { albedo, fuzz } => color_wf(albedo.s()) && 0 <= fuzz <= FP,
            Material::Dielectric { ref_idx } => FP < ref_idx <= 4 * (FP as int),
        }
    }

    /// The deterministic scattering core. Lambertian: diffuse about the
    /// normal, attenuated by the albedo, never absorbed. Metal: mirror
    /// reflection fuzzed by the sample, absorbed if it points into the
    /// surface. Dielectric: refract by Snell's law unless total internal
    /// reflection or the Schlick draw chooses reflection; never absorbed.
    pub fn scatter_with(&self, r_in: &Ray, rec: &HitRecord, smp: Vec3, draw: i64) -> (out: Option<
        (Vec3, Ray),
    >)
        requires
            self.wf(),
            scatter_pre(*r_in, *rec),
            sample_wf(smp),
            0 <= draw < FP,
        ensures
            out.is_some() ==> ({
                let q = out.unwrap();
                &&& q.1.origin_s() == rec.p.s()
                &&& bounded3(q.1.dir_s(), SCATTER_DIR_MAX as int)
            }),
            match *self {
                Material::Lambertian { albedo } => {
                    &&& out.is_some()
                    &&& out.unwrap().0 == albedo
                    &&& out.unwrap().1.dir_s() == vadd(rec.normal.s(), smp.s())
                },
                Material::Metal { albedo, fuzz } => {
                    let dir = vadd(reflect_s(vunit(r_in.dir_s()), rec.normal.s()),
                        vscale(smp.s(), fuzz as int));
                    &&& out.is_some() <==> vdot(dir, rec.normal.s()) > 0
                    &&& out.is_some() ==> out.unwrap().0 == albedo && out.unwrap().1.dir_s() == dir
                },
                Material::Dielectric { ref_idx } => {
                    let d = r_in.dir_s();
                    let n = rec.normal.s();
                    let outw = diel_outward(d, n);
                    let ni = diel_ni(d, n, ref_idx as int);
                    let disc = refr_disc(d, outw, ni);
                    &&& out.is_some()
                    &&& out.unwrap().0.s() == (FP as int, FP as int, FP as int)
                    &&& (disc <= 0 ==> out.unwrap().1.dir_s() == reflect_s(vunit(d), n))
                    &&& (disc > 0 ==> ({
                        let dir = out.unwrap().1.dir_s();
                        &&& (draw < schlick_s(diel_cosine(d, n, ref_idx as int), ref_idx as int)
                            ==> dir == reflect_s(vunit(d), n))
                        &&& (draw >= schlick_s(diel_cosine(d, n, ref_idx as int), ref_idx as int)
                            ==> dir == refr_dir(d, outw, ni))
                    }))
                },
            },
    {
        match *self {
            Material::Lambertian { albedo } => {
                let dir: Vec3 = rec.normal.add(smp);
                Some((albedo, Ray::new(rec.p, dir)))
            },
            Material::Metal { albedo, fuzz } => {
                let uv: Vec3 = r_in.direction().unit_vector();
                let reflected: Vec3 = reflect_unit(uv, rec.normal);
                proof {
                    lemma_fmul_bound(smp.s().0, fuzz as int, FP as int, FP as int);
                    lemma_fmul_bound(smp.s().1, fuzz as int, FP as int, FP as int);
                    lemma_fmul_bound(smp.s().2, fuzz as int, FP as int, FP as int);
                }
                let dir: Vec3 = reflected.add(smp.scale(fuzz));
                if dir.dot(rec.normal) > 0 {
                    Some((albedo, Ray::new(rec.p, dir)))
                } else {
                    None
                }
            },
            Material::Dielectric { ref_idx } => {
                let v: Vec3 = r_in.direction();
                let n: Vec3 = rec.normal;
                proof {
                    crate::math::lemma_mul_bound(v.s().0, n.s().0, 68719476736, 131072);
                    crate::math::lemma_mul_bound(v.s().1, n.s().1, 68719476736, 131072);
                    crate::math::lemma_mul_bound(v.s().2, n.s().2, 68719476736, 131072);
                }
                let d_dot_n: i64 = v.dot(n);
                proof {
                    lemma_div_mag(vdot_raw(v.s(), n.s()), FP as int, 27021597764222976);
                    lemma_len_lower(v);
                }
                let len: i64 = v.length();
                let outward: Vec3;
                let ni: i64;
                let c0: i64;
                if d_dot_n > 0 {
                    outward = n.neg();
                    ni = ref_idx;
                    proof {
                        lemma_fmul_bound(ref_idx as int, d_dot_n as int, 262144, 412316860417);
                        lemma_div_bound_denom(fmul(ref_idx as int, d_dot_n as int) * (FP as int),
                            len as int, 200000000000000000, 256);
                    }
                    c0 = fp_div(fp_mul(ref_idx, d_dot_n), len);
                } else {
                    outward = n;
                    proof {
                        lemma_div_bound_denom((FP as int) * (FP as int), ref_idx as int,
                            4294967296, 65537);
                        vstd::arithmetic::div_mod::lemma_div_pos_is_pos((FP as int) * (FP as int),
                            ref_idx as int);
                        lemma_div_bound_denom((-(d_dot_n as int)) * (FP as int), len as int,
                            28000000000000000, 256);
                    }
                    ni = fp_div(FP, ref_idx);
                    c0 = fp_div(-d_dot_n, len);
                }
                let cosine: i64 = if c0 > 524288 {
                    524288
                } else if c0 < -524288 {
                    -524288
                } else {
                    c0
                };
                let uv: Vec3 = v.unit_vector();
                proof {
                    crate::math::lemma_mul_bound(uv.s().0, outward.s().0, FP as int, 2 * (
                    FP as int));
                    crate::math::lemma_mul_bound(uv.s().1, outward.s().1, FP as int, 2 * (
                    FP as int));
                    crate::math::lemma_mul_bound(uv.s().2, outward.s().2, FP as int, 2 * (
                    FP as int));
                }
                let dt: i64 = uv.dot(outward);
                proof {
                    lemma_div_mag(vdot_raw(uv.s(), outward.s()), FP as int, 25769803776);
                    lemma_fmul_bound(dt as int, dt as int, 6291456, 6291456);
                    lemma_fmul_bound(ni as int, ni as int, 262144, 262144);
                    lemma_fmul_bound(fmul(ni as int, ni as int), (FP as int) - fmul(dt as int,
                        dt as int), 1048577, 604045313);
                }
                let inner: i64 = FP - fp_mul(dt, dt);
                let disc: i64 = FP - fp_mul(fp_mul(ni, ni), inner);
                let refracted: Option<Vec3> = if disc > 0 {
                    proof {
                        lemma_fmul_bound(outward.s().0, dt as int, 131072, 6291456);
                        lemma_fmul_bound(outward.s().1, dt as int, 131072, 6291456);
                        lemma_fmul_bound(outward.s().2, dt as int, 131072, 6291456);
                    }
                    let w: Vec3 = uv.sub(outward.scale(dt));
                    proof {
                        lemma_fmul_bound(w.s().0, ni as int, 16777216, 262144);
                        lemma_fmul_bound(w.s().1, ni as int, 16777216, 262144);
                        lemma_fmul_bound(w.s().2, ni as int, 16777216, 262144);
                    }
                    let sq: i64 = sqrt_fp(disc);
                    proof {
                        crate::math::lemma_isqrt_below(sq as int, disc as int * (FP as int),
                            33554432);
                        lemma_fmul_bound(outward.s().0, sq as int, 131072, 33554432);
                        lemma_fmul_bound(outward.s().1, sq as int, 131072, 33554432);
                        lemma_fmul_bound(outward.s().2, sq as int, 131072, 33554432);
                    }
                    Some(w.scale(ni).sub(outward.scale(sq)))
                } else {
                    None
                };
                let reflect_prob: i64 = match refracted {
                    Some(_) => schlick(cosine, ref_idx),
                    None => FP,
                };
                let white: Vec3 = Vec3::new(FP, FP, FP);
                match refracted {
                    Some(refr) => {
                        if draw < reflect_prob {
                            Some((white, Ray::new(rec.p, reflect_unit(uv, n))))
                        } else {
                            Some((white, Ray::new(rec.p, refr)))
                        }
                    },
                    None => Some((white, Ray::new(rec.p, reflect_unit(uv, n)))),
                }
            },
        }
    }

    /// Scattering with the sample source: draws a unit-sphere sample and a
    /// reflectance draw, then defers to the deterministic core.
    pub fn scatter(&self, r_in: &Ray, rec: &HitRecord, rng: &mut Rng) -> (out: Option<
        (Vec3, Ray),
    >)
        requires
            self.wf(),
            scatter_pre(*r_in, *rec),
        ensures
            out.is_some() ==> ({
                let q = out.unwrap();
                &&& q.1.origin_s() == rec.p.s()
                &&& bounded3(q.1.dir_s(), SCATTER_DIR_MAX as int)
            }),
            match *self {
                Material::Lambertian { albedo } => {
                    &&& out.is_some()
                    &&& out.unwrap().0 == albedo
                    &&& exists|smp: Vec3|
                        sample_wf(smp) && out.unwrap().1.dir_s() == vadd(rec.normal.s(), smp.s())
                },
                Material::Metal { albedo, fuzz } => {
                    &&& out.is_some() ==> out.unwrap().0 == albedo
                    &&& out.is_some() ==> vdot(out.unwrap().1.dir_s(), rec.normal.s()) > 0
                    &&& exists|smp: Vec3|
                        {
                            let dir = vadd(reflect_s(vunit(r_in.dir_s()), rec.normal.s()),
                                vscale(smp.s(), fuzz as int));
                            &&& #[trigger] sample_wf(smp)
                            &&& (out.is_some() <==> vdot(dir, rec.normal.s()) > 0)
                            &&& (out.is_some() ==> out.unwrap().1.dir_s() == dir)
                        }
                },
                Material::Dielectric { ref_idx } => {
                    let d = r_in.dir_s();
                    let n = rec.normal.s();
                    let outw = diel_outward(d, n);
                    let ni = diel_ni(d, n, ref_idx as int);
                    let disc = refr_disc(d, outw, ni);
                    &&& out.is_some()
                    &&& out.unwrap().0.s() == (FP as int, FP as int, FP as int)
                    &&& (out.unwrap().1.dir_s() == reflect_s(vunit(d), n) || (disc > 0
                        && out.unwrap().1.dir_s() == refr_dir(d, outw, ni)))
                    &&& (disc <= 0 ==> out.unwrap().1.dir_s() == reflect_s(vunit(d), n))
                },
            },
    {
        let smp: Vec3 = rng.in_unit_sphere();
        let draw: i64 = rng.next_frac();
        let out = self.scatter_with(r_in, rec, smp, draw);
        proof {
            match *self {
                Material::Lambertian { albedo } => {
                    assert(sample_wf(smp) && out.unwrap().1.dir_s() == vadd(rec.normal.s(),
                        smp.s()));
                },
                Material::Metal { albedo, fuzz } => {
                    assert({
                        let dir = vadd(reflect_s(vunit(r_in.dir_s()), rec.normal.s()),
                            vscale(smp.s(), fuzz as int));
                        &&& sample_wf(smp)
                        &&& (out.is_some() <==> vdot(dir, rec.normal.s()) > 0)
                        &&& (out.is_some() ==> out.unwrap().1.dir_s() == dir)
                    });
                },
                Material::Dielectric { ref_idx } => {},
            }
        }
        out
    }
}

/// Mirror reflection of an already short vector about the normal.
fn reflect_unit(uv: Vec3, n: Vec3) -> (r: Vec3)
    requires
        bounded3(uv.s(), 2 * (FP as int)),
        bounded3(n.s(), 2 * (FP as int)),
    ensures
        r.s() == reflect_s(uv.s(), n.s()),
        bounded3(r.s(), 100 * (FP as int)),
{
    proof {
        crate::math::lemma_mul_bound(uv.s().0, n.s().0, 131072, 131072);
        crate::math::lemma_mul_bound(uv.s().1, n.s().1, 131072, 131072);
        crate::math::lemma_mul_bound(uv.s().2, n.s().2, 131072, 131072);
    }
    let d: i64 = uv.dot(n);
    proof {
        lemma_div_mag(vdot_raw(uv.s(), n.s()), FP as int, 51539607552);
        lemma_fmul_bound(n.s().0, 2 * (d as int), 131072, 1572866);
        lemma_fmul_bound(n.s().1, 2 * (d as int), 131072, 1572866);
        lemma_fmul_bound(n.s().2, 2 * (d as int), 131072, 1572866);
    }
    uv.sub(n.scale(2 * d))
}

/// Schlick's reflectance approximation, in fixed point.
fn schlick(cosine: i64, ref_idx: i64) -> (r: i64)
    requires
        FP < ref_idx <= 4 * (FP as int),
        -524288 <= cosine <= 524288,
    ensures
        r == schlick_s(cosine as int, ref_idx as int),
{
    proof {
        lemma_div_bound_denom((ref_idx - FP) as int * (FP as int), (ref_idx + FP) as int,
            12884901888, 131073);
        let r0: int = fdivs(ref_idx as int - FP as int, ref_idx as int + FP as int);
        lemma_fmul_bound(r0, r0, 98304, 98304);
        let r0s: int = fmul(r0, r0);
        let om: int = (FP as int) - cosine;
        lemma_fmul_bound(om, om, 589824, 589824);
        let p2: int = fmul(om, om);
        lemma_fmul_bound(p2, p2, 5308417, 5308417);
        let p4: int = fmul(p2, p2);
        lemma_fmul_bound(p4, om, 429982000, 589824);
        let p5: int = fmul(p4, om);
        lemma_fmul_bound((FP as int) - r0s, p5, 212993, 3870000000);
    }
    let r0: i64 = fp_div(ref_idx - FP, ref_idx + FP);
    let r0s: i64 = fp_mul(r0, r0);
    let om: i64 = FP - cosine;
    let p2: i64 = fp_mul(om, om);
    let p4: i64 = fp_mul(p2, p2);
    let p5: i64 = fp_mul(p4, om);
    r0s + fp_mul(FP - r0s, p5)
}

/// The length of a non-degenerate direction is at least 256.
proof fn lemma_len_lower(v: Vec3)
    requires
        vdot_raw(v.s(), v.s()) >= FP as int,
    ensures
        vlen(v.s()) >= 256,
{
    crate::math::lemma_sqrt_i(vdot_raw(v.s(), v.s()));
    lemma_isqrt_above(vlen(v.s()), vdot_raw(v.s(), v.s()), 256);
}

} // verus!
