//! Three-component fixed-point vectors, used as points, directions and
//! colors. The spec model of a vector is the triple of its components as
//! mathematical integers.

use vstd::prelude::*;
use crate::math::{
    FP, fits_i64, fmul, fdivs, is_isqrt, sqrt_i, isqrt, fp_mul, fp_div, div_floor,
    lemma_mul_bound, lemma_div_mag, lemma_div_ordered, lemma_isqrt_below, lemma_isqrt_above,
};

verus! {

/// Arguments to the fixed-point dot product must stay under this bound so
/// that the result fits an `i64`.
pub const DOT_ARG_MAX: i64 = 0x40_0000_0000;

/// Arguments to length and normalization must stay under this (much larger)
/// bound so that the raw squared length fits an `i128`.
pub const LEN_ARG_MAX: i64 = 0x1000_0000_0000_0000;

#[derive(Clone, Copy, PartialEq, Eq, Structural, Debug)]
pub struct Vec3 {
    pub x: i64,
    pub y: i64,
    pub z: i64,
}

pub open spec fn bounded3(a: (int, int, int), b: int) -> bool {
    -b <= a.0 <= b && -b <= a.1 <= b && -b <= a.2 <= b
}

pub open spec fn vadd(a: (int, int, int), b: (int, int, int)) -> (int, int, int) {
    (a.0 + b.0, a.1 + b.1, a.2 + b.2)
}

pub open spec fn vsub(a: (int, int, int), b: (int, int, int)) -> (int, int, int) {
    (a.0 - b.0, a.1 - b.1, a.2 - b.2)
}

pub open spec fn vneg(a: (int, int, int)) -> (int, int, int) {
    (-a.0, -a.1, -a.2)
}

/// Scaling by a fixed-point scalar.
pub open spec fn vscale(a: (int, int, int), t: int) -> (int, int, int) {
    (fmul(a.0, t), fmul(a.1, t), fmul(a.2, t))
}

/// Component-wise (attenuation) product.
pub open spec fn vhad(a: (int, int, int), b: (int, int, int)) -> (int, int, int) {
    (fmul(a.0, b.0), fmul(a.1, b.1), fmul(a.2, b.2))
}

/// Raw dot product, before rescaling by FP.
pub open spec fn vdot_raw(a: (int, int, int), b: (int, int, int)) -> int {
    a.0 * b.0 + a.1 * b.1 + a.2 * b.2
}

/// Fixed-point dot product.
pub open spec fn vdot(a: (int, int, int), b: (int, int, int)) -> int {
    vdot_raw(a, b) / (FP as int)
}

pub open spec fn vcross(a: (int, int, int), b: (int, int, int)) -> (int, int, int) {
    (
        fmul(a.1, b.2) - fmul(a.2, b.1),
        fmul(a.2, b.0) - fmul(a.0, b.2),
        fmul(a.0, b.1) - fmul(a.1, b.0),
    )
}

/// Fixed-point Euclidean length: since components carry one factor FP each,
/// the raw dot product of a vector with itself carries FP squared, and its
/// integer square root is the length in fixed point.
pub open spec fn vlen(a: (int, int, int)) -> int {
    sqrt_i(vdot_raw(a, a))
}

/// Normalization to (fixed-point) unit length.
pub open spec fn vunit(a: (int, int, int)) -> (int, int, int) {
    (fdivs(a.0, vlen(a)), fdivs(a.1, vlen(a)), fdivs(a.2, vlen(a)))
}

pub open spec fn clamp255(v: int) -> int {
    if v < 0 {
        0
    } else if v > 255 {
        255
    } else {
        v
    }
}

/// A square is never negative.
pub proof fn lemma_sq_nonneg(x: int)
    by (nonlinear_arith)
    ensures
        x * x >= 0,
{
}

/// No component exceeds the vector's length.
pub proof fn lemma_comp_le_sqrt(x: int, n: int, r: int)
    by (nonlinear_arith)
    requires
        is_isqrt(r, n),
        x * x <= n,
    ensures
        -r <= x <= r,
{
}

/// A magnitude bound for the fixed-point product.
pub proof fn lemma_fmul_bound(a: int, b: int, aa: int, bb: int)
    requires
        -aa <= a <= aa,
        -bb <= b <= bb,
        0 <= aa,
        0 <= bb,
    ensures
        -((aa * bb) / (FP as int)) - 1 <= fmul(a, b) <= (aa * bb) / (FP as int),
{
    lemma_mul_bound(a, b, aa, bb);
    lemma_div_ordered(a * b, aa * bb, FP as int);
    lemma_div_ordered(-(aa * bb), a * b, FP as int);
    assert((-(aa * bb)) / (FP as int) >= -((aa * bb) / (FP as int)) - 1) by {
        vstd::arithmetic::div_mod::lemma_div_plus_one(-(aa * bb), FP as int);
        vstd::arithmetic::div_mod::lemma_fundamental_div_mod(aa * bb, FP as int);
        vstd::arithmetic::div_mod::lemma_fundamental_div_mod(-(aa * bb), FP as int);
    }
}


/// A component at least half the length maps to a quotient of magnitude at
/// least half of FP under normalization.
proof fn lemma_unit_comp_large(c: int, l: int)
    requires
        l >= 1,
        2 * c >= l || 2 * c <= -l,
    ensures
        fdivs(c, l) * fdivs(c, l) >= 0x4000_0000,
{
    vstd::arithmetic::div_mod::lemma_fundamental_div_mod(c * (FP as int), l);
    let q = fdivs(c, l);
    let r = (c * (FP as int)) % l;
    assert(q * q >= 0x4000_0000) by (nonlinear_arith)
        requires
            c * 65536 == l * q + r,
            0 <= r < l,
            l >= 1,
            2 * c >= l || 2 * c <= -l,
    ;
}

impl Vec3 {
    /// The spec view: components as mathematical integers.
    pub open spec fn s(self) -> (int, int, int) {
        (self.x as int, self.y as int, self.z as int)
    }

    pub fn new(x: i64, y: i64, z: i64) -> (r: Vec3)
        ensures
            r.s() == (x as int, y as int, z as int),
    {
        Vec3 { x, y, z }
    }

    pub fn zero() -> (r: Vec3)
        ensures
            r.s() == (0int, 0int, 0int),
    {
        Vec3 { x: 0, y: 0, z: 0 }
    }

    pub fn add(self, o: Vec3) -> (r: Vec3)
        requires
            fits_i64(self.x + o.x),
            fits_i64(self.y + o.y),
            fits_i64(self.z + o.z),
        ensures
            r.s() == vadd(self.s(), o.s()),
    {
        Vec3 { x: self.x + o.x, y: self.y + o.y, z: self.z + o.z }
    }

    pub fn sub(self, o: Vec3) -> (r: Vec3)
        requires
            fits_i64(self.x - o.x),
            fits_i64(self.y - o.y),
            fits_i64(self.z - o.z),
        ensures
            r.s() == vsub(self.s(), o.s()),
    {
        Vec3 { x: self.x - o.x, y: self.y - o.y, z: self.z - o.z }
    }

    pub fn neg(self) -> (r: Vec3)
        requires
            self.x > i64::MIN,
            self.y > i64::MIN,
            self.z > i64::MIN,
        ensures
            r.s() == vneg(self.s()),
    {
        Vec3 { x: -self.x, y: -self.y, z: -self.z }
    }

    /// Scalar multiplication by a fixed-point factor.
    pub fn scale(self, t: i64) -> (r: Vec3)
        requires
            fits_i64(fmul(self.x as int, t as int)),
            fits_i64(fmul(self.y as int, t as int)),
            fits_i64(fmul(self.z as int, t as int)),
        ensures
            r.s() == vscale(self.s(), t as int),
    {
        Vec3 { x: fp_mul(self.x, t), y: fp_mul(self.y, t), z: fp_mul(self.z, t) }
    }

    /// Component-wise product, used for color attenuation.
    pub fn mul_comp(self, o: Vec3) -> (r: Vec3)
        requires
            fits_i64(fmul(self.x as int, o.x as int)),
            fits_i64(fmul(self.y as int, o.y as int)),
            fits_i64(fmul(self.z as int, o.z as int)),
        ensures
            r.s() == vhad(self.s(), o.s()),
    {
        Vec3 { x: fp_mul(self.x, o.x), y: fp_mul(self.y, o.y), z: fp_mul(self.z, o.z) }
    }

    /// Fixed-point dot product.
    pub fn dot(self, o: Vec3) -> (r: i64)
        requires
            bounded3(self.s(), DOT_ARG_MAX as int),
            bounded3(o.s(), DOT_ARG_MAX as int),
        ensures
            r == vdot(self.s(), o.s()),
    {
        proof {
            lemma_mul_bound(self.x as int, o.x as int, DOT_ARG_MAX as int, DOT_ARG_MAX as int);
            lemma_mul_bound(self.y as int, o.y as int, DOT_ARG_MAX as int, DOT_ARG_MAX as int);
            lemma_mul_bound(self.z as int, o.z as int, DOT_ARG_MAX as int, DOT_ARG_MAX as int);
        }
        let w: i128 = (self.x as i128) * (o.x as i128) + (self.y as i128) * (o.y as i128)
            + (self.z as i128) * (o.z as i128);
        let q: i128 = div_floor(w, 65536);
        q as i64
    }

    pub fn cross(self, o: Vec3) -> (r: Vec3)
        requires
            bounded3(self.s(), DOT_ARG_MAX as int),
            bounded3(o.s(), DOT_ARG_MAX as int),
        ensures
            r.s() == vcross(self.s(), o.s()),
    {
        proof {
            let m: int = DOT_ARG_MAX as int;
            lemma_fmul_bound(self.y as int, o.z as int, m, m);
            lemma_fmul_bound(self.z as int, o.y as int, m, m);
            lemma_fmul_bound(self.z as int, o.x as int, m, m);
            lemma_fmul_bound(self.x as int, o.z as int, m, m);
            lemma_fmul_bound(self.x as int, o.y as int, m, m);
            lemma_fmul_bound(self.y as int, o.x as int, m, m);
        }
        Vec3 {
            x: fp_mul(self.y, o.z) - fp_mul(self.z, o.y),
            y: fp_mul(self.z, o.x) - fp_mul(self.x, o.z),
            z: fp_mul(self.x, o.y) - fp_mul(self.y, o.x),
        }
    }

    /// Raw squared length, before rescaling: the caller divides by FP if it
    /// wants the fixed-point squared length.
    pub fn norm_sq_raw(self) -> (r: i128)
        requires
            bounded3(self.s(), LEN_ARG_MAX as int),
        ensures
            r == vdot_raw(self.s(), self.s()),
            r >= 0,
    {
        proof {
            let m: int = LEN_ARG_MAX as int;
            lemma_mul_bound(self.x as int, self.x as int, m, m);
            lemma_mul_bound(self.y as int, self.y as int, m, m);
            lemma_mul_bound(self.z as int, self.z as int, m, m);
            lemma_sq_nonneg(self.x as int);
            lemma_sq_nonneg(self.y as int);
            lemma_sq_nonneg(self.z as int);
        }
        (self.x as i128) * (self.x as i128) + (self.y as i128) * (self.y as i128)
            + (self.z as i128) * (self.z as i128)
    }

    /// Euclidean length, in fixed point.
    pub fn length(self) -> (r: i64)
        requires
            bounded3(self.s(), LEN_ARG_MAX as int),
        ensures
            r == vlen(self.s()),
            r >= 0,
            is_isqrt(r as int, vdot_raw(self.s(), self.s())),
    {
        let n: i128 = self.norm_sq_raw();
        let r: i128 = isqrt(n);
        proof {
            let m: int = LEN_ARG_MAX as int;
            lemma_mul_bound(self.x as int, self.x as int, m, m);
            lemma_mul_bound(self.y as int, self.y as int, m, m);
            lemma_mul_bound(self.z as int, self.z as int, m, m);
            assert(n <= 3 * (m * m));
            assert(3 * (m * m) < ((3 * m) * (3 * m))) by (nonlinear_arith)
                requires
                    m >= 1,
            ;
            lemma_isqrt_below(r as int, n as int, 3 * m);
        }
        r as i64
    }

    /// Normalization of a non-degenerate vector to unit length.
    pub fn unit_vector(self) -> (r: Vec3)
        requires
            bounded3(self.s(), LEN_ARG_MAX as int),
            vdot_raw(self.s(), self.s()) >= 1,
        ensures
            r.s() == vunit(self.s()),
            bounded3(r.s(), FP as int),
            vdot_raw(r.s(), r.s()) >= FP as int,
    {
        let len: i64 = self.length();
        proof {
            let n = vdot_raw(self.s(), self.s());
            lemma_isqrt_above(len as int, n, 1);
            lemma_sq_nonneg(self.x as int);
            lemma_sq_nonneg(self.y as int);
            lemma_sq_nonneg(self.z as int);
            lemma_comp_le_sqrt(self.x as int, n, len as int);
            lemma_comp_le_sqrt(self.y as int, n, len as int);
            lemma_comp_le_sqrt(self.z as int, n, len as int);
            lemma_sq_nonneg(self.x as int - self.y as int);
            lemma_sq_nonneg(self.x as int - self.z as int);
            lemma_sq_nonneg(self.y as int - self.z as int);
            lemma_unit_div_bounds(self.x as int, len as int);
            lemma_unit_div_bounds(self.y as int, len as int);
            lemma_unit_div_bounds(self.z as int, len as int);
            let x = self.s().0;
            let y = self.s().1;
            let z = self.s().2;
            let l = len as int;
            assert((2 * x >= l || 2 * x <= -l) || (2 * y >= l || 2 * y <= -l) || (2 * z >= l
                || 2 * z <= -l)) by (nonlinear_arith)
                requires
                    x * x + y * y + z * z == n,
                    l * l <= n,
                    l >= 1,
            ;
            if 2 * x >= l || 2 * x <= -l {
                lemma_unit_comp_large(x, l);
            } else if 2 * y >= l || 2 * y <= -l {
                lemma_unit_comp_large(y, l);
            } else {
                lemma_unit_comp_large(z, l);
            }
            lemma_sq_nonneg(fdivs(x, l));
            lemma_sq_nonneg(fdivs(y, l));
            lemma_sq_nonneg(fdivs(z, l));
        }
        Vec3 { x: fp_div(self.x, len), y: fp_div(self.y, len), z: fp_div(self.z, len) }
    }

    /// Distance between two points.
    pub fn distance(self, o: Vec3) -> (r: i64)
        requires
            fits_i64(self.x - o.x),
            fits_i64(self.y - o.y),
            fits_i64(self.z - o.z),
            bounded3(vsub(self.s(), o.s()), LEN_ARG_MAX as int),
        ensures
            r == vlen(vsub(self.s(), o.s())),
            r >= 0,
            is_isqrt(r as int, vdot_raw(vsub(self.s(), o.s()), vsub(self.s(), o.s()))),
    {
        self.sub(o).length()
    }

    /// Clamps each component into the display range 0..=255.
    pub fn colorize(self) -> (r: (u8, u8, u8))
        ensures
            r.0 == clamp255((self.x * 255) / (FP as int)),
            r.1 == clamp255((self.y * 255) / (FP as int)),
            r.2 == clamp255((self.z * 255) / (FP as int)),
    {
        (colorize_comp(self.x), colorize_comp(self.y), colorize_comp(self.z))
    }
}

/// The quotient of a component by the vector's length stays in unit range.
proof fn lemma_unit_div_bounds(x: int, len: int)
    requires
        len >= 1,
        -len <= x <= len,
    ensures
        -(FP as int) <= fdivs(x, len) <= FP as int,
{
    lemma_div_ordered(x * (FP as int), len * (FP as int), len);
    lemma_div_ordered(-(len * (FP as int)), x * (FP as int), len);
    assert((len * (FP as int)) / len == FP as int && (-(len * (FP as int))) / len == -(FP
        as int)) by {
        vstd::arithmetic::div_mod::lemma_div_multiples_vanish(FP as int, len);
        vstd::arithmetic::div_mod::lemma_div_multiples_vanish(-(FP as int), len);
        vstd::arithmetic::mul::lemma_mul_is_commutative(len, FP as int);
        vstd::arithmetic::mul::lemma_mul_unary_negation(len, FP as int);
    }
}

fn colorize_comp(x: i64) -> (r: u8)
    ensures
        r == clamp255((x * 255) / (FP as int)),
{
    proof {
        lemma_mul_bound(x as int, 255, 0x8000_0000_0000_0000, 255);
        lemma_div_mag(x as int * 255, FP as int, 0x8000_0000_0000_0000int * 255);
    }
    let w: i128 = (x as i128) * 255;
    let q: i128 = div_floor(w, 65536);
    if q < 0 {
        0
    } else if q > 255 {
        255
    } else {
        q as u8
    }
}

} // verus!
