//! Fixed-point scalar arithmetic: floor division, fixed-point multiply and
//! divide, and an exact integer square root.

use vstd::prelude::*;
use vstd::arithmetic::div_mod::lemma_fundamental_div_mod;

verus! {

/// Fixed-point scale: a stored value `v` stands for the real number `v / FP`.
pub const FP: i64 = 65536;

/// Bound on world-scale coordinates (fixed-point), so that every
/// intermediate of the geometric pipeline fits its machine integer.
pub const COORD_MAX: i64 = 0x10_0000_0000;

/// Largest hit parameter the intersection routines accept as `t_max`.
pub const T_MAX_LIMIT: i64 = 0x20_0000_0000;

pub open spec fn fits_i64(v: int) -> bool {
    i64::MIN <= v <= i64::MAX
}

/// Fixed-point product: floor(a * b / FP).
pub open spec fn fmul(a: int, b: int) -> int {
    (a * b) / (FP as int)
}

/// Fixed-point quotient for a positive divisor: floor(a * FP / b).
pub open spec fn fdivs(a: int, b: int) -> int {
    (a * (FP as int)) / b
}

/// `r` is the integer square root of `n`.
pub open spec fn is_isqrt(r: int, n: int) -> bool {
    0 <= r && r * r <= n && n < ((r + 1) * (r + 1))
}

/// The integer square root, as a value.
pub open spec fn sqrt_i(n: int) -> int {
    choose|r: int| is_isqrt(r, n)
}

/// Two integer square roots of the same number are equal.
pub proof fn lemma_isqrt_unique(r1: int, r2: int, n: int)
    by (nonlinear_arith)
    requires
        0 <= r1,
        r1 * r1 <= n,
        n < ((r1 + 1) * (r1 + 1)),
        0 <= r2,
        r2 * r2 <= n,
        n < ((r2 + 1) * (r2 + 1)),
    ensures
        r1 == r2,
{
}

/// A bound on both factors bounds their product.
pub proof fn lemma_mul_bound(a: int, b: int, aa: int, bb: int)
    by (nonlinear_arith)
    requires
        -aa <= a <= aa,
        -bb <= b <= bb,
        0 <= aa,
        0 <= bb,
    ensures
        -(aa * bb) <= a * b <= aa * bb,
{
}

/// Floor division by a positive divisor keeps a magnitude bound.
pub proof fn lemma_div_mag(a: int, d: int, aa: int)
    requires
        d >= 1,
        -aa <= a <= aa,
    ensures
        -aa <= a / d <= aa,
{
    lemma_fundamental_div_mod(a, d);
    let q = a / d;
    let r = a % d;
    assert(-aa <= q <= aa) by (nonlinear_arith)
        requires
            a == d * q + r,
            0 <= r < d,
            d >= 1,
            -aa <= a <= aa,
    ;
}

/// Division is monotone in the dividend (positive divisor).
pub proof fn lemma_div_ordered(a: int, b: int, d: int)
    requires
        d >= 1,
        a <= b,
    ensures
        a / d <= b / d,
{
    lemma_fundamental_div_mod(a, d);
    lemma_fundamental_div_mod(b, d);
    let qa = a / d;
    let qb = b / d;
    assert(qa <= qb) by (nonlinear_arith)
        requires
            a == d * qa + (a % d),
            b == d * qb + (b % d),
            0 <= a % d < d,
            0 <= b % d < d,
            d >= 1,
            a <= b,
    ;
}


/// Magnitude bound for a quotient whose divisor is at least `dmin`.
pub proof fn lemma_div_bound_denom(a: int, d: int, aa: int, dmin: int)
    requires
        d >= dmin >= 1,
        -aa <= a <= aa,
    ensures
        -(aa / dmin) - 1 <= a / d <= aa / dmin,
{
    lemma_fundamental_div_mod(a, d);
    lemma_fundamental_div_mod(aa, dmin);
    let q = a / d;
    let r = a % d;
    let k = aa / dmin;
    let s = aa % dmin;
    assert(-k - 1 <= q <= k) by (nonlinear_arith)
        requires
            a == d * q + r,
            0 <= r < d,
            aa == dmin * k + s,
            0 <= s < dmin,
            d >= dmin >= 1,
            -aa <= a <= aa,
    ;
}

/// Floor division of `a` by positive `d`, on machine integers.
pub fn div_floor(a: i128, d: i128) -> (q: i128)
    requires
        d > 0,
        a > i128::MIN,
    ensures
        q == a as int / d as int,
{
    proof {
        lemma_fundamental_div_mod(a as int, d as int);
        lemma_div_mag(a as int, d as int, i128::MAX as int);
        if a < 0 {
            lemma_fundamental_div_mod(-a as int, d as int);
            lemma_div_mag(-a as int, d as int, i128::MAX as int);
        }
    }
    if a >= 0 {
        let q0: i128 = a / d;
        q0
    } else {
        let na: i128 = -a;
        let q1: i128 = na / d;
        let r1: i128 = na % d;
        proof {
            lemma_fundamental_div_mod(na as int, d as int);
            vstd::arithmetic::mul::lemma_mul_unary_negation(d as int, q1 as int);
            vstd::arithmetic::mul::lemma_mul_is_distributive_sub(d as int, -(q1 as int), 1);
            vstd::arithmetic::mul::lemma_mul_basics(d as int);
            if r1 == 0 {
                assert(a as int == (-(q1 as int)) * d + 0) by {
                    vstd::arithmetic::mul::lemma_mul_is_commutative(d as int, -(q1 as int));
                }
                vstd::arithmetic::div_mod::lemma_fundamental_div_mod_converse(
                    a as int, d as int, -(q1 as int), 0);
            } else {
                assert(a as int == (-(q1 as int) - 1) * d + (d - r1)) by {
                    vstd::arithmetic::mul::lemma_mul_is_commutative(d as int, -(q1 as int) - 1);
                }
                vstd::arithmetic::div_mod::lemma_fundamental_div_mod_converse(
                    a as int, d as int, -(q1 as int) - 1, d as int - r1 as int);
            }
        }
        if r1 == 0 {
            -q1
        } else {
            -q1 - 1
        }
    }
}

/// Fixed-point multiplication: floor(a * b / FP).
pub fn fp_mul(a: i64, b: i64) -> (r: i64)
    requires
        fits_i64(fmul(a as int, b as int)),
    ensures
        r == fmul(a as int, b as int),
{
    proof {
        lemma_mul_bound(a as int, b as int, 0x8000_0000_0000_0000, 0x8000_0000_0000_0000);
    }
    let w: i128 = (a as i128) * (b as i128);
    let q: i128 = div_floor(w, 65536);
    q as i64
}

/// Fixed-point division by a positive divisor: floor(a * FP / b).
pub fn fp_div(a: i64, b: i64) -> (r: i64)
    requires
        b > 0,
        fits_i64(fdivs(a as int, b as int)),
    ensures
        r == fdivs(a as int, b as int),
{
    proof {
        lemma_mul_bound(a as int, FP as int, 0x8000_0000_0000_0000, 0x1_0000);
    }
    let w: i128 = (a as i128) * 65536;
    let q: i128 = div_floor(w, b as i128);
    q as i64
}


/// Fixed-point square root: the root of `x` carries half the scale, so the
/// argument is rescaled by FP first.
pub fn sqrt_fp(x: i64) -> (r: i64)
    requires
        x >= 0,
    ensures
        r == sqrt_i(x * (FP as int)),
        is_isqrt(r as int, x * (FP as int)),
        r >= 0,
{
    let w: i128 = (x as i128) * 65536;
    let r: i128 = isqrt(w);
    proof {
        lemma_isqrt_below(r as int, w as int, 0x8000_0000_0000int);
        assert(w < (0x8000_0000_0000int * 0x8000_0000_0000int)) by (nonlinear_arith)
            requires
                w <= 0x7fff_ffff_ffff_ffff_0000int,
        ;
    }
    r as i64
}

/// Integer square root by binary search.
pub fn isqrt(n: i128) -> (r: i128)
    requires
        n >= 0,
    ensures
        is_isqrt(r as int, n as int),
        r == sqrt_i(n as int),
{
    let mut lo: i128 = 0;
    let mut hi: i128 = if n > 0xffff_ffff_ffff_ffff { 0xffff_ffff_ffff_ffff } else { n };
    proof {
        if n > 0xffff_ffff_ffff_ffff {
            assert((n as int) < ((hi as int + 1) * (hi as int + 1))) by (nonlinear_arith)
                requires
                    n <= i128::MAX,
                    hi as int == (0xffff_ffff_ffff_ffff as int),
            ;
        } else {
            assert((n as int) < ((hi as int + 1) * (hi as int + 1))) by (nonlinear_arith)
                requires
                    n >= 0,
                    hi == n,
            ;
        }
    }
    while lo < hi
        invariant
            0 <= lo <= hi <= 0xffff_ffff_ffff_ffff,
            lo * lo <= n,
            n < ((hi + 1) * (hi + 1)),
        decreases hi - lo,
    {
        let mid: i128 = lo + (hi - lo + 1) / 2;
        let q: i128 = n / mid;
        proof {
            lemma_fundamental_div_mod(n as int, mid as int);
            lemma_div_mag(n as int, mid as int, n as int);
            if mid <= q {
                assert(mid * mid <= n) by (nonlinear_arith)
                    requires
                        n as int == mid as int * (n as int / mid as int) + n as int % mid as int,
                        0 <= ((n as int) % (mid as int)) < (mid as int),
                        1 <= (mid as int) <= ((n as int) / (mid as int)),
                ;
            } else {
                assert(n < (mid * mid)) by (nonlinear_arith)
                    requires
                        n as int == mid as int * (n as int / mid as int) + n as int % mid as int,
                        0 <= ((n as int) % (mid as int)) < (mid as int),
                        0 <= ((n as int) / (mid as int)) < (mid as int),
                        1 <= (mid as int),
                ;
            }
        }
        if mid <= q {
            lo = mid;
        } else {
            hi = mid - 1;
        }
    }
    proof {
        assert(is_isqrt(lo as int, n as int));
        assert(is_isqrt(sqrt_i(n as int), n as int)) by {
            assert(exists|r: int| is_isqrt(r, n as int));
        }
        lemma_isqrt_unique(lo as int, sqrt_i(n as int), n as int);
    }
    lo
}


/// The integer square root exists for every nonnegative number.
pub proof fn lemma_sqrt_i(n: int)
    requires
        n >= 0,
    ensures
        is_isqrt(sqrt_i(n), n),
    decreases n,
{
    if n == 0 {
        assert(is_isqrt(0, 0));
    } else {
        lemma_sqrt_i(n - 1);
        let r = sqrt_i(n - 1);
        if (r + 1) * (r + 1) <= n {
            assert(is_isqrt(r + 1, n)) by (nonlinear_arith)
                requires
                    0 <= r,
                    r * r <= n - 1,
                    n - 1 < ((r + 1) * (r + 1)),
                    (r + 1) * (r + 1) <= n,
            ;
        } else {
            assert(is_isqrt(r, n));
        }
    }
    assert(exists|r: int| is_isqrt(r, n));
}

/// The square root of a number below a square is below the root.
pub proof fn lemma_isqrt_below(r: int, n: int, b: int)
    by (nonlinear_arith)
    requires
        is_isqrt(r, n),
        0 <= b,
        n < (b * b),
    ensures
        r < b,
{
}

/// The square root of a number at least a square is at least the root.
pub proof fn lemma_isqrt_above(r: int, n: int, b: int)
    by (nonlinear_arith)
    requires
        is_isqrt(r, n),
        0 <= b,
        b * b <= n,
    ensures
        b <= r,
{
}

} // verus!
