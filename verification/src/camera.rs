//! The camera: maps normalized image-plane coordinates and a lens sample to
//! a ray. A zero aperture degenerates to a pinhole camera whose rays are a
//! pure function of (u, v).

use vstd::prelude::*;
use crate::math::{FP, COORD_MAX, fmul, fp_mul};
use crate::vec3::{
    Vec3, bounded3, vadd, vsub, vscale, vcross, vdot_raw, vunit, lemma_fmul_bound,
};
use crate::ray::Ray;
use crate::rng::Rng;

verus! {

/// Largest camera position component.
pub const CAM_POS_MAX: i64 = 0x4000_0000;

/// Largest focus distance.
pub const CAM_FOCUS_MAX: i64 = 0x1000_0000;

pub struct Camera {
    pub origin: Vec3,
    pub lower_left: Vec3,
    pub horizontal: Vec3,
    pub vertical: Vec3,
    pub u: Vec3,
    pub v: Vec3,
    pub w: Vec3,
    pub lens_radius: i64,
    pub aperture: i64,
}

/// Bounds that every camera built by `Camera::new` satisfies, wide enough
/// for `get_ray`'s arithmetic.
pub open spec fn camera_wf(c: Camera) -> bool {
    &&& bounded3(c.origin.s(), CAM_POS_MAX as int)
    &&& bounded3(c.lower_left.s(), 0x4_0000_0000)
    &&& bounded3(c.horizontal.s(), 0x4_0000_0000)
    &&& bounded3(c.vertical.s(), 0x4_0000_0000)
    &&& bounded3(c.u.s(), FP as int)
    &&& bounded3(c.v.s(), 0x2_0002)
    &&& bounded3(c.w.s(), FP as int)
    &&& 0 <= c.lens_radius <= FP
    &&& 0 <= c.aperture <= 2 * (FP as int)
}

/// The direction of the pinhole ray for image coordinates (s, t).
pub open spec fn pinhole_dir(c: Camera, s: int, t: int) -> (int, int, int) {
    vsub(vadd(vadd(c.lower_left.s(), vscale(c.horizontal.s(), s)), vscale(c.vertical.s(), t)),
        c.origin.s())
}

impl Camera {
    /// Builds the camera basis and viewport. `half_height` is the tangent
    /// of half the vertical field of view, in fixed point; the viewport
    /// sits at `focus_dist` along the forward axis.
    pub fn new(
        lookfrom: Vec3,
        lookat: Vec3,
        vup: Vec3,
        half_height: i64,
        aspect: i64,
        aperture: i64,
        focus_dist: i64,
    ) -> (c: Camera)
        requires
            bounded3(lookfrom.s(), CAM_POS_MAX as int),
            bounded3(lookat.s(), CAM_POS_MAX as int),
            bounded3(vup.s(), FP as int),
            vdot_raw(vsub(lookfrom.s(), lookat.s()), vsub(lookfrom.s(), lookat.s())) >= 1,
            vdot_raw(vcross(vup.s(), vunit(vsub(lookfrom.s(), lookat.s()))), vcross(vup.s(),
                vunit(vsub(lookfrom.s(), lookat.s())))) >= 1,
            0 < half_height <= 0x2_0000,
            0 < aspect <= 0x4_0000,
            0 <= aperture <= 0x2_0000,
            0 < focus_dist <= CAM_FOCUS_MAX,
        ensures
            camera_wf(c),
            c.origin == lookfrom,
            c.aperture == aperture,
            c.lens_radius == aperture / 2,
            c.w.s() == vunit(vsub(lookfrom.s(), lookat.s())),
            c.u.s() == vunit(vcross(vup.s(), c.w.s())),
            c.v.s() == vcross(c.w.s(), c.u.s()),
            ({
                let hw = fmul(half_height as int, aspect as int);
                let hwf = fmul(hw, focus_dist as int);
                let hhf = fmul(half_height as int, focus_dist as int);
                &&& c.horizontal.s() == vscale(c.u.s(), 2 * hwf)
                &&& c.vertical.s() == vscale(c.v.s(), 2 * hhf)
                &&& c.lower_left.s() == vsub(vsub(vsub(lookfrom.s(), vscale(c.u.s(), hwf)),
                    vscale(c.v.s(), hhf)), vscale(c.w.s(), focus_dist as int))
            }),
    {
        let w: Vec3 = lookfrom.sub(lookat).unit_vector();
        let cwu: Vec3 = vup.cross(w);
        proof {
            lemma_fmul_bound(vup.s().1, w.s().2, 65536, 65536);
            lemma_fmul_bound(vup.s().2, w.s().1, 65536, 65536);
            lemma_fmul_bound(vup.s().2, w.s().0, 65536, 65536);
            lemma_fmul_bound(vup.s().0, w.s().2, 65536, 65536);
            lemma_fmul_bound(vup.s().0, w.s().1, 65536, 65536);
            lemma_fmul_bound(vup.s().1, w.s().0, 65536, 65536);
        }
        let u: Vec3 = cwu.unit_vector();
        proof {
            lemma_fmul_bound(w.s().1, u.s().2, 65536, 65536);
            lemma_fmul_bound(w.s().2, u.s().1, 65536, 65536);
            lemma_fmul_bound(w.s().2, u.s().0, 65536, 65536);
            lemma_fmul_bound(w.s().0, u.s().2, 65536, 65536);
            lemma_fmul_bound(w.s().0, u.s().1, 65536, 65536);
            lemma_fmul_bound(w.s().1, u.s().0, 65536, 65536);
        }
        let v: Vec3 = w.cross(u);
        proof {
            lemma_fmul_bound(half_height as int, aspect as int, 131072, 262144);
            lemma_fmul_bound(fmul(half_height as int, aspect as int), focus_dist as int,
                524288, 268435456);
            lemma_fmul_bound(half_height as int, focus_dist as int, 131072, 268435456);
        }
        let hw: i64 = fp_mul(half_height, aspect);
        let hwf: i64 = fp_mul(hw, focus_dist);
        let hhf: i64 = fp_mul(half_height, focus_dist);
        proof {
            lemma_fmul_bound(u.s().0, hwf as int, 65536, 2147483649);
            lemma_fmul_bound(u.s().1, hwf as int, 65536, 2147483649);
            lemma_fmul_bound(u.s().2, hwf as int, 65536, 2147483649);
            lemma_fmul_bound(v.s().0, hhf as int, 131074, 2147483649);
            lemma_fmul_bound(v.s().1, hhf as int, 131074, 2147483649);
            lemma_fmul_bound(v.s().2, hhf as int, 131074, 2147483649);
            lemma_fmul_bound(w.s().0, focus_dist as int, 65536, 268435456);
            lemma_fmul_bound(w.s().1, focus_dist as int, 65536, 268435456);
            lemma_fmul_bound(w.s().2, focus_dist as int, 65536, 268435456);
            lemma_fmul_bound(u.s().0, 2 * (hwf as int), 65536, 4294967298);
            lemma_fmul_bound(u.s().1, 2 * (hwf as int), 65536, 4294967298);
            lemma_fmul_bound(u.s().2, 2 * (hwf as int), 65536, 4294967298);
            lemma_fmul_bound(v.s().0, 2 * (hhf as int), 131074, 4294967298);
            lemma_fmul_bound(v.s().1, 2 * (hhf as int), 131074, 4294967298);
            lemma_fmul_bound(v.s().2, 2 * (hhf as int), 131074, 4294967298);
        }
        let lower_left: Vec3 = lookfrom.sub(u.scale(hwf)).sub(v.scale(hhf)).sub(
            w.scale(focus_dist),
        );
        let horizontal: Vec3 = u.scale(2 * hwf);
        let vertical: Vec3 = v.scale(2 * hhf);
        Camera {
            origin: lookfrom,
            lower_left,
            horizontal,
            vertical,
            u,
            v,
            w,
            lens_radius: aperture / 2,
            aperture,
        }
    }

    /// The ray through image coordinates (s, t), each in [0, FP]. With a
    /// zero aperture the result is a pure function of (s, t) and the sample
    /// source is untouched; otherwise the origin is jittered on the lens
    /// disk for depth of field.
    pub fn get_ray(&self, s: i64, t: i64, rng: &mut Rng) -> (r: Ray)
        requires
            camera_wf(*self),
            0 <= s <= FP,
            0 <= t <= FP,
        ensures
            bounded3(r.dir_s(), COORD_MAX as int),
            self.aperture == 0 ==> r.origin_s() == self.origin.s() && r.dir_s() == pinhole_dir(
                *self, s as int, t as int) && *final(rng) == *old(rng),
            self.aperture == 0 ==> r.origin_s() == self.origin.s(),
            self.aperture > 0 ==> exists|rd: Vec3|
                {
                    &&& #[trigger] bounded3(rd.s(), FP as int)
                    &&& vdot_raw(rd.s(), rd.s()) < (FP as int) * (FP as int)
                    &&& rd.s().2 == 0
                    &&& ({
                        let off = vadd(vscale(self.u.s(), fmul(rd.s().0,
                            self.lens_radius as int)), vscale(self.v.s(), fmul(rd.s().1,
                            self.lens_radius as int)));
                        &&& r.origin_s() == vadd(self.origin.s(), off)
                        &&& r.dir_s() == vsub(pinhole_dir(*self, s as int, t as int), off)
                    })
                },
    {
        proof {
            lemma_fmul_bound(self.horizontal.s().0, s as int, 17179869184, 65536);
            lemma_fmul_bound(self.horizontal.s().1, s as int, 17179869184, 65536);
            lemma_fmul_bound(self.horizontal.s().2, s as int, 17179869184, 65536);
            lemma_fmul_bound(self.vertical.s().0, t as int, 17179869184, 65536);
            lemma_fmul_bound(self.vertical.s().1, t as int, 17179869184, 65536);
            lemma_fmul_bound(self.vertical.s().2, t as int, 17179869184, 65536);
        }
        let base: Vec3 = self.lower_left.add(self.horizontal.scale(s)).add(
            self.vertical.scale(t),
        );
        if self.aperture > 0 {
            let rd0: Vec3 = rng.in_unit_disk();
            proof {
                lemma_fmul_bound(rd0.s().0, self.lens_radius as int, 65536, 65536);
                lemma_fmul_bound(rd0.s().1, self.lens_radius as int, 65536, 65536);
            }
            let rx: i64 = fp_mul(rd0.x, self.lens_radius);
            let ry: i64 = fp_mul(rd0.y, self.lens_radius);
            proof {
                lemma_fmul_bound(self.u.s().0, rx as int, 65536, 65537);
                lemma_fmul_bound(self.u.s().1, rx as int, 65536, 65537);
                lemma_fmul_bound(self.u.s().2, rx as int, 65536, 65537);
                lemma_fmul_bound(self.v.s().0, ry as int, 131074, 65537);
                lemma_fmul_bound(self.v.s().1, ry as int, 131074, 65537);
                lemma_fmul_bound(self.v.s().2, ry as int, 131074, 65537);
            }
            let offset: Vec3 = self.u.scale(rx).add(self.v.scale(ry));
            let origin: Vec3 = self.origin.add(offset);
            let dir: Vec3 = base.sub(self.origin).sub(offset);
            let r: Ray = Ray::new(origin, dir);
            proof {
                assert(rd0.s().2 == 0 && fmul(rd0.s().0, self.lens_radius as int) == rx as int
                    && fmul(rd0.s().1, self.lens_radius as int) == ry as int);
            }
            r
        } else {
            Ray::new(self.origin, base.sub(self.origin))
        }
    }
}

} // verus!
