//! A seeded linear-congruential sample source. Sampling is deterministic
//! and reproducible: the same seed always yields the same stream, which is
//! the documented concurrency/determinism choice of this renderer — tests
//! seed it, and parallel drivers give each worker its own stream.

use vstd::prelude::*;
use crate::math::FP;
use crate::vec3::{Vec3, bounded3, vdot_raw};

verus! {

pub struct Rng {
    pub s: u64,
}

/// One step of the linear-congruential generator.
pub open spec fn lcg(s: int) -> int {
    (s * 6364136223846793005 + 1442695040888963407) % 0x1_0000_0000_0000_0000
}

impl Rng {
    pub fn new(seed: u64) -> (r: Rng)
        ensures
            r.s == seed,
    {
        Rng { s: seed }
    }

    pub fn next_u64(&mut self) -> (r: u64)
        ensures
            final(self).s == lcg(old(self).s as int),
            r == final(self).s,
    {
        let w: u128 = (self.s as u128) * 6364136223846793005 + 1442695040888963407;
        let ns: u64 = (w % 0x1_0000_0000_0000_0000) as u64;
        self.s = ns;
        ns
    }

    /// A fixed-point fraction in [0, FP), from the middle bits of the state.
    pub fn next_frac(&mut self) -> (r: i64)
        ensures
            0 <= r < FP,
            final(self).s == lcg(old(self).s as int),
            r == (lcg(old(self).s as int) / 65536) % 65536,
    {
        let x: u64 = self.next_u64();
        ((x / 65536) % 65536) as i64
    }

    /// A signed fixed-point coordinate in [-FP, FP).
    fn next_coord(&mut self) -> (r: i64)
        ensures
            -FP <= r < FP,
    {
        let f: i64 = self.next_frac();
        2 * f - FP
    }

    /// A point strictly inside the unit sphere, by bounded rejection
    /// sampling; the center is the (never random) fallback.
    pub fn in_unit_sphere(&mut self) -> (v: Vec3)
        ensures
            vdot_raw(v.s(), v.s()) < (FP as int) * (FP as int),
            bounded3(v.s(), FP as int),
    {
        let mut k: u32 = 0;
        while k < 64
            invariant
                k <= 64,
            decreases 64 - k,
        {
            let x: i64 = self.next_coord();
            let y: i64 = self.next_coord();
            let z: i64 = self.next_coord();
            let c: Vec3 = Vec3::new(x, y, z);
            let nsq: i128 = c.norm_sq_raw();
            if nsq < 4294967296 {
                return c;
            }
            k += 1;
        }
        Vec3::zero()
    }

    /// A point strictly inside the unit disk in the x-y plane.
    pub fn in_unit_disk(&mut self) -> (v: Vec3)
        ensures
            vdot_raw(v.s(), v.s()) < (FP as int) * (FP as int),
            bounded3(v.s(), FP as int),
            v.s().2 == 0,
    {
        let mut k: u32 = 0;
        while k < 64
            invariant
                k <= 64,
            decreases 64 - k,
        {
            let x: i64 = self.next_coord();
            let y: i64 = self.next_coord();
            let c: Vec3 = Vec3::new(x, y, 0);
            let nsq: i128 = c.norm_sq_raw();
            if nsq < 4294967296 {
                return c;
            }
            k += 1;
        }
        Vec3::zero()
    }
}

} // verus!
