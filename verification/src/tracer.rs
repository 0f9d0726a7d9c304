//! The path-tracing recursion: query the scene, scatter at the hit, recurse
//! with the bounce budget decremented, and fall back to the sky gradient on
//! a miss.

use vstd::prelude::*;
use crate::math::{FP, COORD_MAX, T_MAX_LIMIT, fmul, fp_mul};
use crate::vec3::{Vec3, bounded3, vadd, vscale, vdot_raw, vunit, lemma_fmul_bound};
use crate::ray::Ray;
use crate::hit::HitRecord;
use crate::material::{Material, color_wf};
use crate::sphere::sph_normal;
use crate::world::{
    FlatScene, LensingWorld, flat_query, lens_query, lens_wf, all_wf, MAX_ITER, LENS_ORIGIN_MAX,
    lemma_flat_query_member, lemma_lens_query_member,
};
use crate::rng::Rng;

verus! {

/// Offset above zero for the near clip of every traced ray, to avoid
/// re-hitting the surface the ray just left.
pub const TRACE_T_MIN: i64 = 66;

/// A scene behind the single intersection protocol.
pub enum Scene {
    Flat(FlatScene),
    Lensing(LensingWorld),
}

pub open spec fn scene_wf(s: Scene) -> bool {
    match s {
        Scene::Flat(w) => all_wf(w.spheres@),
        Scene::Lensing(w) => lens_wf(w),
    }
}

/// What a traced ray must look like.
pub open spec fn trace_ray_wf(r: Ray) -> bool {
    &&& bounded3(r.origin_s(), LENS_ORIGIN_MAX as int)
    &&& bounded3(r.dir_s(), COORD_MAX as int)
    &&& vdot_raw(r.dir_s(), r.dir_s()) >= FP as int
}

/// The sky gradient: white blended toward sky blue by the upward component
/// of the unit direction.
pub open spec fn sky_s(d: (int, int, int)) -> (int, int, int) {
    let u = vunit(d);
    let t = (u.1 + FP as int) / 2;
    (
        (FP as int) - t + fmul(t, 32768),
        (FP as int) - t + fmul(t, 45875),
        (FP as int) - t + fmul(t, FP as int),
    )
}

/// Whether the scene's query for this ray reports a miss.
pub open spec fn scene_misses(s: Scene, r: Ray, t_min: int, t_max: int) -> bool {
    match s {
        Scene::Flat(w) => flat_query(w.spheres@, r, t_min, t_max).is_none(),
        Scene::Lensing(w) => lens_query(w.spheres@, w.gravity_point, w.gravity_strength as int,
            r, t_min, t_max, MAX_ITER as nat).is_none(),
    }
}

/// The sky color of a miss ray.
pub fn sky(dir: Vec3) -> (c: Vec3)
    requires
        bounded3(dir.s(), COORD_MAX as int),
        vdot_raw(dir.s(), dir.s()) >= 1,
    ensures
        c.s() == sky_s(dir.s()),
        color_wf(c.s()),
{
    let ud: Vec3 = dir.unit_vector();
    let t: i64 = (ud.y + FP) / 2;
    proof {
        lemma_fmul_bound(t as int, 32768, 65536, 32768);
        lemma_fmul_bound(t as int, 45875, 65536, 45875);
        lemma_fmul_bound(t as int, 65536, 65536, 65536);
        vstd::arithmetic::div_mod::lemma_div_pos_is_pos(t as int * 32768, FP as int);
        vstd::arithmetic::div_mod::lemma_div_pos_is_pos(t as int * 45875, FP as int);
        vstd::arithmetic::div_mod::lemma_div_multiples_vanish(t as int, FP as int);
        vstd::arithmetic::mul::lemma_mul_is_commutative(t as int, FP as int);
    }
    Vec3::new(FP - t + fp_mul(t, 32768), FP - t + fp_mul(t, 45875), FP - t + fp_mul(t, 65536))
}

/// A product of two unit-range components stays in unit range.
proof fn lemma_color_comp(a: int, b: int)
    requires
        0 <= a <= FP as int,
        0 <= b <= FP as int,
    ensures
        0 <= fmul(a, b) <= FP as int,
{
    lemma_fmul_bound(a, b, 65536, 65536);
    vstd::arithmetic::mul::lemma_mul_nonnegative(a, b);
    vstd::arithmetic::div_mod::lemma_div_pos_is_pos(a * b, FP as int);
}

/// Resolves one sample ray to a color: nearest hit, then scattering and a
/// recursive bounce with the budget decremented; black on absorption or an
/// exhausted budget; the sky gradient on a miss.
pub fn color(r: &Ray, scene: &Scene, depth: u32, rng: &mut Rng) -> (c: Vec3)
    requires
        scene_wf(*scene),
        trace_ray_wf(*r),
    ensures
        color_wf(c.s()),
        scene_misses(*scene, *r, TRACE_T_MIN as int, T_MAX_LIMIT as int) ==> c.s() == sky_s(
            r.dir_s()),
        !scene_misses(*scene, *r, TRACE_T_MIN as int, T_MAX_LIMIT as int) && depth == 0
            ==> c.s() == (0int, 0int, 0int),
    decreases depth,
{
    let mut rec: HitRecord = HitRecord::new();
    let hit: bool = match scene {
        Scene::Flat(w) => w.intersect(r, TRACE_T_MIN, T_MAX_LIMIT, &mut rec),
        Scene::Lensing(w) => w.intersect(r, TRACE_T_MIN, T_MAX_LIMIT, &mut rec),
    };
    if hit {
        if depth == 0 {
            return Vec3::zero();
        }
        // Fixed-point safety rails: a record whose normal or point left the
        // range the scattering arithmetic supports ends the path.
        let nb: bool = -2 * FP <= rec.normal.x && rec.normal.x <= 2 * FP && -2 * FP
            <= rec.normal.y && rec.normal.y <= 2 * FP && -2 * FP <= rec.normal.z && rec.normal.z
            <= 2 * FP;
        let pb: bool = -LENS_ORIGIN_MAX <= rec.p.x && rec.p.x <= LENS_ORIGIN_MAX
            && -LENS_ORIGIN_MAX <= rec.p.y && rec.p.y <= LENS_ORIGIN_MAX && -LENS_ORIGIN_MAX
            <= rec.p.z && rec.p.z <= LENS_ORIGIN_MAX;
        if !nb || !pb {
            return Vec3::zero();
        }
        proof {
            match scene {
                Scene::Flat(w) => {
                    lemma_flat_query_member(w.spheres@, *r, TRACE_T_MIN as int,
                        T_MAX_LIMIT as int);
                },
                Scene::Lensing(w) => {
                    lemma_lens_query_member(w.spheres@, w.gravity_point,
                        w.gravity_strength as int, *r, TRACE_T_MIN as int, T_MAX_LIMIT as int,
                        MAX_ITER as nat);
                },
            }
            assert(rec.material.wf());
        }
        match rec.material.scatter(r, &rec, rng) {
            Some((att, sray)) => {
                let nsq: i128 = sray.direction().norm_sq_raw();
                if nsq < 65536 {
                    return Vec3::zero();
                }
                let bounced: Vec3 = color(&sray, scene, depth - 1, rng);
                proof {
                    assert(color_wf(att.s())) by {
                        match rec.material {
                            Material::Lambertian { .. } => {},
                            Material::Metal { .. } => {},
                            Material::Dielectric { .. } => {},
                        }
                    }
                    lemma_color_comp(att.s().0, bounced.s().0);
                    lemma_color_comp(att.s().1, bounced.s().1);
                    lemma_color_comp(att.s().2, bounced.s().2);
                }
                att.mul_comp(bounced)
            },
            None => Vec3::zero(),
        }
    } else {
        sky(r.direction())
    }
}

/// A fixed normal-based shading rule, independent of materials: half the
/// outward normal shifted into the unit cube on a hit, the sky on a miss.
pub fn shade_normal(r: &Ray, scene: &Scene) -> (c: Vec3)
    requires
        scene_wf(*scene),
        trace_ray_wf(*r),
    ensures
        scene_misses(*scene, *r, TRACE_T_MIN as int, T_MAX_LIMIT as int) ==> c.s() == sky_s(
            r.dir_s()),
        !scene_misses(*scene, *r, TRACE_T_MIN as int, T_MAX_LIMIT as int) ==> ({
            let n = match *scene {
                Scene::Flat(w) => sph_normal(flat_query(w.spheres@, *r, TRACE_T_MIN as int,
                    T_MAX_LIMIT as int).unwrap().0, *r, flat_query(w.spheres@, *r,
                    TRACE_T_MIN as int, T_MAX_LIMIT as int).unwrap().1),
                Scene::Lensing(w) => ({
                    let q = lens_query(w.spheres@, w.gravity_point, w.gravity_strength as int,
                        *r, TRACE_T_MIN as int, T_MAX_LIMIT as int, MAX_ITER as nat).unwrap();
                    sph_normal(q.0, q.2, q.1)
                }),
            };
            bounded3(n, 2 * (FP as int)) ==> c.s() == vscale(vadd(n, (FP as int, FP as int,
                FP as int)), 32768)
        }),
{
    let mut rec: HitRecord = HitRecord::new();
    let hit: bool = match scene {
        Scene::Flat(w) => w.intersect(r, TRACE_T_MIN, T_MAX_LIMIT, &mut rec),
        Scene::Lensing(w) => w.intersect(r, TRACE_T_MIN, T_MAX_LIMIT, &mut rec),
    };
    if hit {
        let nb: bool = -2 * FP <= rec.normal.x && rec.normal.x <= 2 * FP && -2 * FP
            <= rec.normal.y && rec.normal.y <= 2 * FP && -2 * FP <= rec.normal.z && rec.normal.z
            <= 2 * FP;
        if !nb {
            return Vec3::zero();
        }
        proof {
            lemma_fmul_bound(rec.normal.s().0 + FP as int, 32768, 196608, 32768);
            lemma_fmul_bound(rec.normal.s().1 + FP as int, 32768, 196608, 32768);
            lemma_fmul_bound(rec.normal.s().2 + FP as int, 32768, 196608, 32768);
        }
        rec.normal.add(Vec3::new(FP, FP, FP)).scale(32768)
    } else {
        sky(r.direction())
    }
}

} // verus!
