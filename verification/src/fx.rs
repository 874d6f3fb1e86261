//! Exact fixed-point scalar arithmetic.
//!
//! Geometric quantities in this crate are Q32.32 fixed-point numbers: a
//! scalar is an `i64` whose value is `raw / 2^32`. Every operation is total
//! and deterministic — results that would leave the representable range
//! saturate to the nearest bound, and division by zero saturates in the
//! direction of the dividend's sign. Each executable operation carries an
//! exact contract over the mathematical integers, so the algorithms built on
//! top are verified against precise arithmetic, not an approximation.

use vstd::prelude::*;

verus! {

/// Raw representation of the scalar one (2^32).
pub const FX_ONE: i64 = 0x1_0000_0000;

/// Raw representation of one half (2^31).
pub const FX_HALF: i64 = 0x8000_0000;

pub open spec fn clamp64(v: int) -> int {
    if v > i64::MAX {
        i64::MAX as int
    } else if v < i64::MIN {
        i64::MIN as int
    } else {
        v
    }
}

pub open spec fn abs_int(v: int) -> int {
    if v < 0 {
        -v
    } else {
        v
    }
}

pub open spec fn fx_add_spec(a: int, b: int) -> int {
    clamp64(a + b)
}

pub open spec fn fx_sub_spec(a: int, b: int) -> int {
    clamp64(a - b)
}

pub open spec fn fx_neg_spec(a: int) -> int {
    clamp64(-a)
}

pub open spec fn fx_abs_spec(a: int) -> int {
    clamp64(abs_int(a))
}

/// Product of two fixed-point scalars: the exact product is rescaled by
/// 2^32, rounded toward zero, and saturated.
pub open spec fn fx_mul_spec(a: int, b: int) -> int {
    let p: int = a * b;
    let m: int = abs_int(p) / 0x1_0000_0000;
    if p < 0 {
        clamp64(-m)
    } else {
        clamp64(m)
    }
}

/// Quotient of two fixed-point scalars: exact, rounded toward zero,
/// saturated. A zero divisor saturates in the direction of the dividend's
/// sign, and `0 / 0` is `0`.
pub open spec fn fx_div_spec(a: int, b: int) -> int {
    if b == 0 {
        if a == 0 {
            0
        } else if a < 0 {
            i64::MIN as int
        } else {
            i64::MAX as int
        }
    } else {
        let q: int = (abs_int(a) * 0x1_0000_0000) / abs_int(b);
        if (a < 0) != (b < 0) {
            clamp64(-q)
        } else {
            clamp64(q)
        }
    }
}

pub fn fx_add(a: i64, b: i64) -> (r: i64)
    ensures
        r == fx_add_spec(a as int, b as int),
{
    let s: i128 = a as i128 + b as i128;
    if s > i64::MAX as i128 {
        i64::MAX
    } else if s < i64::MIN as i128 {
        i64::MIN
    } else {
        s as i64
    }
}

pub fn fx_sub(a: i64, b: i64) -> (r: i64)
    ensures
        r == fx_sub_spec(a as int, b as int),
{
    let s: i128 = a as i128 - b as i128;
    if s > i64::MAX as i128 {
        i64::MAX
    } else if s < i64::MIN as i128 {
        i64::MIN
    } else {
        s as i64
    }
}

pub fn fx_neg(a: i64) -> (r: i64)
    ensures
        r == fx_neg_spec(a as int),
{
    if a == i64::MIN {
        i64::MAX
    } else {
        -a
    }
}

pub fn fx_abs(a: i64) -> (r: i64)
    ensures
        r == fx_abs_spec(a as int),
{
    if a == i64::MIN {
        i64::MAX
    } else if a < 0 {
        -a
    } else {
        a
    }
}

/// Magnitude of an `i64` as a `u64`; total, including `i64::MIN`.
fn mag64(a: i64) -> (r: u64)
    ensures
        r == abs_int(a as int),
{
    if a < 0 {
        (-(a as i128)) as u64
    } else {
        a as u64
    }
}

/// Saturating cast of an unsigned magnitude back to a signed scalar.
fn apply_sign(m: u128, neg: bool) -> (r: i64)
    ensures
        neg ==> r == clamp64(-(m as int)),
        !neg ==> r == clamp64(m as int),
{
    if neg {
        if m >= 0x8000_0000_0000_0000u128 {
            i64::MIN
        } else {
            -(m as i64)
        }
    } else {
        if m > i64::MAX as u128 {
            i64::MAX
        } else {
            m as i64
        }
    }
}

pub fn fx_mul(a: i64, b: i64) -> (r: i64)
    ensures
        r == fx_mul_spec(a as int, b as int),
{
    let ua: u128 = mag64(a) as u128;
    let ub: u128 = mag64(b) as u128;
    assert(ua * ub <= 0x8000_0000_0000_0000u128 * 0x8000_0000_0000_0000u128)
        by (nonlinear_arith)
        requires
            ua <= 0x8000_0000_0000_0000u128,
            ub <= 0x8000_0000_0000_0000u128;
    let p: u128 = ua * ub;
    let m: u128 = p / 0x1_0000_0000u128;
    let neg: bool = (a < 0) != (b < 0);
    proof {
        assert(ua * ub == abs_int(a as int * b as int)) by (nonlinear_arith)
            requires
                ua == abs_int(a as int),
                ub == abs_int(b as int);
        assert((((a as int) * (b as int)) < 0) ==> ((a < 0) != (b < 0))) by (nonlinear_arith);
        assert((((a < 0) != (b < 0)) && ((a as int) * (b as int)) != 0) ==> (((a as int) * (
        b as int)) < 0)) by (nonlinear_arith);
    }
    if neg && m == 0 {
        0
    } else {
        apply_sign(m, neg)
    }
}

pub fn fx_div(a: i64, b: i64) -> (r: i64)
    ensures
        r == fx_div_spec(a as int, b as int),
{
    if b == 0 {
        if a == 0 {
            0
        } else if a < 0 {
            i64::MIN
        } else {
            i64::MAX
        }
    } else {
        let ua: u128 = mag64(a) as u128;
        let ub: u128 = mag64(b) as u128;
        let q: u128 = (ua * 0x1_0000_0000u128) / ub;
        let neg: bool = (a < 0) != (b < 0);
        if neg && q == 0 {
            0
        } else {
            apply_sign(q, neg)
        }
    }
}

/// A whole number as a fixed-point scalar.
pub fn fx_from_int(n: i64) -> (r: i64)
    ensures
        r == clamp64(n as int * 0x1_0000_0000),
{
    let p: i128 = n as i128 * 0x1_0000_0000i128;
    if p > i64::MAX as i128 {
        i64::MAX
    } else if p < i64::MIN as i128 {
        i64::MIN
    } else {
        p as i64
    }
}

/// Largest integer whose square does not exceed `n`.
fn isqrt_u128(n: u128) -> (r: u128)
    requires
        n < 0x1_0000_0000_0000u128 * 0x1_0000_0000_0000u128,
    ensures
        r * r <= n,
        (r + 1) * (r + 1) > n,
{
    let mut lo: u128 = 0;
    let mut hi: u128 = 0x1_0000_0000_0000u128;
    proof {
        assert(hi * hi == 0x1_0000_0000_0000u128
            * 0x1_0000_0000_0000u128);
    }
    while hi - lo > 1
        invariant
            lo < hi,
            hi <= 0x1_0000_0000_0000u128,
            lo * lo <= n,
            hi * hi > n,
        decreases hi - lo,
    {
        let mid: u128 = lo + (hi - lo) / 2;
        assert(mid * mid < u128::MAX) by (nonlinear_arith)
            requires
                mid <= 0x1_0000_0000_0000u128;
        if mid * mid <= n {
            lo = mid;
        } else {
            hi = mid;
        }
    }
    lo
}

/// Fixed-point square root: for a positive scalar the result `r` is the
/// largest scalar with `r * r <= a` at full raw precision; a non-positive
/// scalar yields zero.
pub fn fx_sqrt(a: i64) -> (r: i64)
    ensures
        a <= 0 ==> r == 0,
        a > 0 ==> {
            &&& r >= 0
            &&& r * r <= a * 0x1_0000_0000
            &&& (r + 1) * (r + 1) > a * 0x1_0000_0000
        },
{
    if a <= 0 {
        0
    } else {
        let n: u128 = a as u128 * 0x1_0000_0000u128;
        let s: u128 = isqrt_u128(n);
        proof {
            assert(s * s <= n);
            assert(n < 0x1_0000_0000_0000u128 * 0x1_0000_0000_0000u128);
            assert(s < 0x1_0000_0000_0000u128) by (nonlinear_arith)
                requires
                    s * s <= n,
                    n < 0x1_0000_0000_0000u128 * 0x1_0000_0000_0000u128;
        }
        s as i64
    }
}

pub fn fx_min(a: i64, b: i64) -> (r: i64)
    ensures
        r == if a as int <= b as int { a as int } else { b as int },
{
    if a <= b {
        a
    } else {
        b
    }
}

pub fn fx_max(a: i64, b: i64) -> (r: i64)
    ensures
        r == if a as int >= b as int { a as int } else { b as int },
{
    if a >= b {
        a
    } else {
        b
    }
}

} // verus!
