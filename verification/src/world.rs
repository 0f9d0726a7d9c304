//! Scene aggregates: the straight-line list of spheres, and the
//! gravitational-lensing aggregate that marches a bending ray in fixed
//! steps, testing the primitives each step and absorbing rays that cross
//! the event horizon.

use vstd::prelude::*;
use crate::math::{FP, COORD_MAX, T_MAX_LIMIT, fmul, fp_mul};
use crate::vec3::{Vec3, bounded3, vsub, vdot_raw, vlen, lemma_fmul_bound};
use crate::ray::{Ray, grav_step, absorbed, HORIZON};
use crate::sphere::{Sphere, sphere_wf, ray_wf, window_wf, sphere_hit_t, rec_matches};
use crate::hit::HitRecord;

verus! {

/// Step length of the lensing integrator: about a tenth of a world unit.
pub const MAX_STEP: i64 = 6553;

/// Iteration budget of the lensing integrator.
pub const MAX_ITER: u32 = 500;

/// Largest starting origin of a lensing query, leaving room to march.
pub const LENS_ORIGIN_MAX: i64 = 0x8_0000_0000;

pub open spec fn all_wf(ss: Seq<Sphere>) -> bool {
    forall|i: int| 0 <= i < ss.len() ==> sphere_wf(#[trigger] ss[i])
}

/// The straight-line aggregate query: the nearest accepted hit over all
/// spheres, scanning in order and shrinking the window to the closest hit
/// found so far.
pub open spec fn flat_query(ss: Seq<Sphere>, r: Ray, t_min: int, t_max: int) -> Option<
    (Sphere, int),
>
    decreases ss.len(),
{
    if ss.len() == 0 {
        None
    } else {
        let prev = flat_query(ss.drop_last(), r, t_min, t_max);
        let bound = match prev {
            Some(st) => st.1,
            None => t_max,
        };
        match sphere_hit_t(ss.last(), r, t_min, bound) {
            Some(t) => Some((ss.last(), t)),
            None => prev,
        }
    }
}

/// One integrator pass of the lensing aggregate: like the straight-line
/// query, but a hit is accepted only within one step length.
pub open spec fn lens_pass(ss: Seq<Sphere>, r: Ray, t_min: int, t_max: int) -> Option<
    (Sphere, int),
>
    decreases ss.len(),
{
    if ss.len() == 0 {
        None
    } else {
        let prev = lens_pass(ss.drop_last(), r, t_min, t_max);
        let bound = match prev {
            Some(st) => st.1,
            None => t_max,
        };
        match sphere_hit_t(ss.last(), r, t_min, bound) {
            Some(t) => if t < MAX_STEP as int {
                Some((ss.last(), t))
            } else {
                prev
            },
            None => prev,
        }
    }
}

/// The full lensing query: up to `fuel` passes, marching and bending the
/// ray between passes, ending on a hit, on absorption, or on exhaustion.
/// A hit carries the marched ray it was found on.
pub open spec fn lens_query(
    ss: Seq<Sphere>,
    gp: Vec3,
    gs: int,
    r: Ray,
    t_min: int,
    t_max: int,
    fuel: nat,
) -> Option<(Sphere, int, Ray)>
    decreases fuel,
{
    if fuel == 0 {
        None
    } else {
        match lens_pass(ss, r, t_min, t_max) {
            Some(st) => Some((st.0, st.1, r)),
            None => {
                let r2 = grav_step(r, gp, fmul(MAX_STEP as int, gs), MAX_STEP as int);
                if r2.dir_s() == (0int, 0int, 0int) {
                    None
                } else {
                    lens_query(ss, gp, gs, r2, t_min, t_max, (fuel - 1) as nat)
                }
            },
        }
    }
}

pub struct FlatScene {
    pub spheres: Vec<Sphere>,
}

impl FlatScene {
    pub fn new() -> (w: FlatScene)
        ensures
            w.spheres@.len() == 0,
    {
        FlatScene { spheres: Vec::new() }
    }

    pub fn add_sphere(&mut self, s: Sphere)
        ensures
            final(self).spheres@ == old(self).spheres@.push(s),
    {
        self.spheres.push(s);
    }

    pub fn size(&self) -> (n: usize)
        ensures
            n == self.spheres@.len(),
    {
        self.spheres.len()
    }

    /// Nearest-hit query over all spheres: true iff some sphere is hit in
    /// the open window, with the record filled from the globally nearest
    /// accepted hit; the record is untouched on a miss.
    pub fn intersect(&self, r: &Ray, t_min: i64, t_max: i64, rec: &mut HitRecord) -> (hit: bool)
        requires
            all_wf(self.spheres@),
            ray_wf(*r),
            window_wf(t_min as int, t_max as int),
        ensures
            hit == flat_query(self.spheres@, *r, t_min as int, t_max as int).is_some(),
            hit ==> ({
                let q = flat_query(self.spheres@, *r, t_min as int, t_max as int).unwrap();
                &&& rec_matches(*final(rec), q.0, *r, q.1)
                &&& t_min < q.1 < t_max
            }),
            !hit ==> *final(rec) == *old(rec),
    {
        let ghost ss = self.spheres@;
        let mut best: HitRecord = HitRecord::new();
        let mut hit_anything: bool = false;
        let mut closest: i64 = t_max;
        let n: usize = self.spheres.len();
        let mut i: usize = 0;
        while i < n
            invariant
                n == ss.len(),
                ss == self.spheres@,
                all_wf(ss),
                ray_wf(*r),
                window_wf(t_min as int, t_max as int),
                0 <= i <= n,
                closest <= t_max,
                hit_anything == flat_query(ss.take(i as int), *r, t_min as int,
                    t_max as int).is_some(),
                hit_anything ==> ({
                    let q = flat_query(ss.take(i as int), *r, t_min as int, t_max as int).unwrap();
                    &&& closest == q.1
                    &&& rec_matches(best, q.0, *r, q.1)
                    &&& t_min < q.1 < t_max
                }),
                !hit_anything ==> closest == t_max,
            decreases n - i,
        {
            let ghost pre = ss.take(i as int);
            let got: bool = self.spheres[i].intersect(r, t_min, closest, &mut best);
            proof {
                assert(ss.take(i as int + 1).drop_last() =~= pre);
                assert(ss.take(i as int + 1).last() == ss[i as int]);
            }
            if got {
                hit_anything = true;
                closest = best.t;
            }
            i += 1;
        }
        proof {
            assert(ss.take(n as int) =~= ss);
        }
        if hit_anything {
            *rec = best;
            true
        } else {
            false
        }
    }
}

pub struct LensingWorld {
    pub spheres: Vec<Sphere>,
    pub gravity_point: Vec3,
    pub gravity_strength: i64,
}

/// Well-formedness of a lensing scene.
pub open spec fn lens_wf(w: LensingWorld) -> bool {
    &&& all_wf(w.spheres@)
    &&& bounded3(w.gravity_point.s(), COORD_MAX as int)
    &&& 0 <= w.gravity_strength <= FP
}

impl LensingWorld {
    pub fn new(gravity_point: Vec3, gravity_strength: i64) -> (w: LensingWorld)
        ensures
            w.spheres@.len() == 0,
            w.gravity_point == gravity_point,
            w.gravity_strength == gravity_strength,
    {
        let spheres: Vec<Sphere> = Vec::new();
        LensingWorld { spheres, gravity_point, gravity_strength }
    }

    pub fn add_sphere(&mut self, sphere: Sphere)
        ensures
            final(self).spheres@ == old(self).spheres@.push(sphere),
            final(self).gravity_point == old(self).gravity_point,
            final(self).gravity_strength == old(self).gravity_strength,
    {
        self.spheres.push(sphere);
    }

    pub fn size(&self) -> (n: usize)
        ensures
            n == self.spheres@.len(),
    {
        self.spheres.len()
    }

    /// The curved-ray query: march the ray in fixed steps, testing every
    /// sphere within one step length each iteration, bending between steps;
    /// a ray that crosses the event horizon is absorbed (a miss), and an
    /// exhausted budget is a miss. The record is untouched on a miss.
    pub fn intersect(&self, start_ray: &Ray, t_min: i64, t_max: i64, rec: &mut HitRecord) -> (hit:
        bool)
        requires
            lens_wf(*self),
            bounded3(start_ray.origin_s(), LENS_ORIGIN_MAX as int),
            bounded3(start_ray.dir_s(), COORD_MAX as int),
            vdot_raw(start_ray.dir_s(), start_ray.dir_s()) >= FP as int,
            window_wf(t_min as int, t_max as int),
        ensures
            hit == lens_query(self.spheres@, self.gravity_point, self.gravity_strength as int,
                *start_ray, t_min as int, t_max as int, MAX_ITER as nat).is_some(),
            hit ==> ({
                let q = lens_query(self.spheres@, self.gravity_point,
                    self.gravity_strength as int, *start_ray, t_min as int, t_max as int,
                    MAX_ITER as nat).unwrap();
                &&& rec_matches(*final(rec), q.0, q.2, q.1)
                &&& t_min < q.1 < MAX_STEP
            }),
            !hit ==> *final(rec) == *old(rec),
    {
        let ghost ss = self.spheres@;
        let ghost gp = self.gravity_point;
        let ghost gs = self.gravity_strength as int;
        let mut best: HitRecord = HitRecord::new();
        let mut ray: Ray = *start_ray;
        let mut j: u32 = 0;
        while j < MAX_ITER
            invariant
                ss == self.spheres@,
                gp == self.gravity_point,
                gs == self.gravity_strength as int,
                lens_wf(*self),
                window_wf(t_min as int, t_max as int),
                0 <= j <= MAX_ITER,
                bounded3(ray.origin_s(), LENS_ORIGIN_MAX as int + (j as int) * 65537),
                bounded3(ray.dir_s(), COORD_MAX as int),
                vdot_raw(ray.dir_s(), ray.dir_s()) >= FP as int,
                *rec == *old(rec),
                lens_query(ss, gp, gs, *start_ray, t_min as int, t_max as int, MAX_ITER as nat)
                    == lens_query(ss, gp, gs, ray, t_min as int, t_max as int, (MAX_ITER - j) as nat),
            decreases MAX_ITER - j,
        {
            proof {
                assert(ray_wf(ray));
            }
            let mut hit_anything: bool = false;
            let mut closest: i64 = t_max;
            let n: usize = self.spheres.len();
            let mut i: usize = 0;
            while i < n
                invariant
                    n == ss.len(),
                    ss == self.spheres@,
                    all_wf(ss),
                    ray_wf(ray),
                    window_wf(t_min as int, t_max as int),
                    0 <= i <= n,
                    closest <= t_max,
                    hit_anything == lens_pass(ss.take(i as int), ray, t_min as int,
                        t_max as int).is_some(),
                    hit_anything ==> ({
                        let q = lens_pass(ss.take(i as int), ray, t_min as int,
                            t_max as int).unwrap();
                        &&& closest == q.1
                        &&& rec_matches(best, q.0, ray, q.1)
                        &&& t_min < q.1 < MAX_STEP
                        &&& q.1 < t_max
                    }),
                    !hit_anything ==> closest == t_max,
                decreases n - i,
            {
                let ghost pre = ss.take(i as int);
                let got: bool = self.spheres[i].intersect(&ray, t_min, closest, &mut best);
                proof {
                    assert(ss.take(i as int + 1).drop_last() =~= pre);
                    assert(ss.take(i as int + 1).last() == ss[i as int]);
                }
                if got && best.t < MAX_STEP {
                    hit_anything = true;
                    closest = best.t;
                }
                i += 1;
            }
            proof {
                assert(ss.take(n as int) =~= ss);
            }
            if hit_anything {
                *rec = best;
                return true;
            }
            // March the ray forwards, bending it toward the gravity point.
            proof {
                lemma_fmul_bound(MAX_STEP as int, gs, MAX_STEP as int, FP as int);
                vstd::arithmetic::div_mod::lemma_div_pos_is_pos((MAX_STEP as int) * gs, FP as int);
                vstd::arithmetic::mul::lemma_mul_nonnegative(MAX_STEP as int, gs);
            }
            let s2: i64 = fp_mul(MAX_STEP, self.gravity_strength);
            ray = ray.apply_gravity_and_march(&self.gravity_point, s2, MAX_STEP);
            // A ray the black hole has eaten never comes back.
            if ray.direction() == Vec3::zero() {
                return false;
            }
            j += 1;
        }
        false
    }
}


/// A straight-line query's winner is one of the scene's spheres.
pub proof fn lemma_flat_query_member(ss: Seq<Sphere>, r: Ray, t_min: int, t_max: int)
    ensures
        match flat_query(ss, r, t_min, t_max) {
            Some(st) => exists|k: int| 0 <= k < ss.len() && ss[k] == st.0,
            None => true,
        },
    decreases ss.len(),
{
    if ss.len() > 0 {
        lemma_flat_query_member(ss.drop_last(), r, t_min, t_max);
        match flat_query(ss, r, t_min, t_max) {
            Some(st) => {
                if flat_query(ss.drop_last(), r, t_min, t_max) == Some(st)
                    && sphere_hit_t(ss.last(), r, t_min, match flat_query(ss.drop_last(), r,
                    t_min, t_max) {
                    Some(p) => p.1,
                    None => t_max,
                }).is_none() {
                    let k = choose|k: int| 0 <= k < ss.len() - 1 && ss.drop_last()[k] == st.0;
                    assert(ss[k] == st.0);
                } else {
                    assert(ss[ss.len() - 1] == st.0);
                }
            },
            None => {},
        }
    }
}

/// A lensing pass's winner is one of the scene's spheres.
pub proof fn lemma_lens_pass_member(ss: Seq<Sphere>, r: Ray, t_min: int, t_max: int)
    ensures
        match lens_pass(ss, r, t_min, t_max) {
            Some(st) => exists|k: int| 0 <= k < ss.len() && ss[k] == st.0,
            None => true,
        },
    decreases ss.len(),
{
    if ss.len() > 0 {
        lemma_lens_pass_member(ss.drop_last(), r, t_min, t_max);
        match lens_pass(ss, r, t_min, t_max) {
            Some(st) => {
                if st.0 == ss.last() {
                    assert(ss[ss.len() - 1] == st.0);
                } else {
                    let k = choose|k: int| 0 <= k < ss.len() - 1 && ss.drop_last()[k] == st.0;
                    assert(ss[k] == st.0);
                }
            },
            None => {},
        }
    }
}

/// A lensing query's winner is one of the scene's spheres, and the ray it
/// was found on is the marched ray of that step.
pub proof fn lemma_lens_query_member(
    ss: Seq<Sphere>,
    gp: Vec3,
    gs: int,
    r: Ray,
    t_min: int,
    t_max: int,
    fuel: nat,
)
    ensures
        match lens_query(ss, gp, gs, r, t_min, t_max, fuel) {
            Some(st) => exists|k: int| 0 <= k < ss.len() && ss[k] == st.0,
            None => true,
        },
    decreases fuel,
{
    if fuel > 0 {
        lemma_lens_pass_member(ss, r, t_min, t_max);
        match lens_pass(ss, r, t_min, t_max) {
            Some(_) => {},
            None => {
                let r2 = grav_step(r, gp, fmul(MAX_STEP as int, gs), MAX_STEP as int);
                lemma_lens_query_member(ss, gp, gs, r2, t_min, t_max, (fuel - 1) as nat);
            },
        }
    }
}

/// A straight-line query over a window that fits inside one integrator step
/// agrees with a single pass of the lensing aggregate: with no marching
/// done yet (and so whatever the gravity configuration, including a zero
/// strength), the two scene kinds answer identically.
pub proof fn lemma_flat_matches_single_step(ss: Seq<Sphere>, r: Ray, t_min: int, t_max: int)
    requires
        t_max <= MAX_STEP as int,
    ensures
        flat_query(ss, r, t_min, t_max) == lens_pass(ss, r, t_min, t_max),
        match flat_query(ss, r, t_min, t_max) {
            Some(st) => t_min < st.1 < t_max,
            None => true,
        },
    decreases ss.len(),
{
    if ss.len() > 0 {
        lemma_flat_matches_single_step(ss.drop_last(), r, t_min, t_max);
    }
}


/// The single-step agreement carried to the full query: a straight-line
/// hit inside one step length is exactly what a lensing query with any
/// remaining budget reports, on the unmarched ray.
pub proof fn lemma_flat_hit_matches_lens_query(
    ss: Seq<Sphere>,
    gp: Vec3,
    gs: int,
    r: Ray,
    t_min: int,
    t_max: int,
    fuel: nat,
)
    requires
        t_max <= MAX_STEP as int,
        flat_query(ss, r, t_min, t_max).is_some(),
        fuel > 0,
    ensures
        lens_query(ss, gp, gs, r, t_min, t_max, fuel) == Some(
            (
                flat_query(ss, r, t_min, t_max).unwrap().0,
                flat_query(ss, r, t_min, t_max).unwrap().1,
                r,
            ),
        ),
{
    lemma_flat_matches_single_step(ss, r, t_min, t_max);
}

/// A ray within the event-horizon radius of the gravity point is absorbed
/// by the very next integrator step.
pub proof fn lemma_horizon_absorbs(r: Ray, g: Vec3, strength: int, m: int)
    requires
        vlen(vsub(g.s(), r.origin_s())) <= HORIZON as int,
    ensures
        absorbed(grav_step(r, g, strength, m)),
{
}

/// A ray within the event horizon that finds no hit on its current pass
/// ends the whole lensing query as a miss, whatever budget remains.
pub proof fn lemma_absorbed_ends_query(
    ss: Seq<Sphere>,
    gp: Vec3,
    gs: int,
    r: Ray,
    t_min: int,
    t_max: int,
    fuel: nat,
)
    requires
        lens_pass(ss, r, t_min, t_max).is_none(),
        vlen(vsub(gp.s(), r.origin_s())) <= HORIZON as int,
    ensures
        lens_query(ss, gp, gs, r, t_min, t_max, fuel).is_none(),
{
    if fuel > 0 {
        lemma_horizon_absorbs(r, gp, fmul(MAX_STEP as int, gs), MAX_STEP as int);
    }
}

} // verus!
