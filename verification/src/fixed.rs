//! Fixed-point scalar arithmetic.
//!
//! A scalar stores a real value scaled by `SCALE` (so `SCALE` itself stands
//! for 1).  Multiplication and division of scalars rescale their raw integer
//! result; the rescaling divides, truncating toward zero, which `tdiv`
//! captures exactly.  `isqrt` is the usual integer square root.

use vstd::prelude::*;

verus! {

/// The unit of the fixed-point representation: raw value `SCALE` is 1.0.
pub const SCALE: i128 = 65536;

/// Truncating division (rounding toward zero), for a positive divisor.
/// Verus's `/` on `int` is Euclidean, so the negative case is spelled out.
pub open spec fn tdiv(p: int, q: int) -> int
    recommends
        q > 0,
{
    if p >= 0 {
        p / q
    } else {
        -((-p) / q)
    }
}

/// Product of two fixed-point scalars: the raw product carries the square of
/// the scale, so it is divided back down by `SCALE`.
pub open spec fn mul_fx(a: int, b: int) -> int {
    tdiv(a * b, SCALE as int)
}

/// Quotient of two fixed-point scalars.
pub open spec fn div_fx(a: int, b: int) -> int
    recommends
        b != 0,
{
    if b >= 0 {
        tdiv(a * SCALE, b)
    } else {
        tdiv(-(a * SCALE), -b)
    }
}

/// The integer square root: the greatest `r` with `r * r <= n`.
pub open spec fn is_isqrt(n: int, r: int) -> bool {
    &&& r >= 0
    &&& r * r <= n
    &&& n < (r + 1) * (r + 1)
}

/// `tdiv` of a value between `-m` and `m` stays between `-(m / q)` and
/// `m / q`.
pub proof fn lemma_tdiv_bound(p: int, q: int, m: int)
    requires
        q > 0,
        -m <= p <= m,
    ensures
        -(m / q) <= tdiv(p, q) <= m / q,
{
    if p >= 0 {
        vstd::arithmetic::div_mod::lemma_div_pos_is_pos(p, q);
        vstd::arithmetic::div_mod::lemma_div_is_ordered(p, m, q);
        vstd::arithmetic::div_mod::lemma_div_pos_is_pos(m, q);
    } else {
        vstd::arithmetic::div_mod::lemma_div_pos_is_pos(-p, q);
        vstd::arithmetic::div_mod::lemma_div_is_ordered(-p, m, q);
        vstd::arithmetic::div_mod::lemma_div_pos_is_pos(m, q);
    }
}

/// Truncating division is monotonic in the dividend.
pub proof fn lemma_tdiv_mono(p1: int, p2: int, q: int)
    requires
        q > 0,
        p1 <= p2,
    ensures
        tdiv(p1, q) <= tdiv(p2, q),
{
    if p1 >= 0 {
        vstd::arithmetic::div_mod::lemma_div_is_ordered(p1, p2, q);
    } else if p2 < 0 {
        vstd::arithmetic::div_mod::lemma_div_is_ordered(-p2, -p1, q);
    } else {
        vstd::arithmetic::div_mod::lemma_div_pos_is_pos(-p1, q);
        vstd::arithmetic::div_mod::lemma_div_pos_is_pos(p2, q);
    }
}

/// Dividing an exact multiple recovers the factor, whatever its sign.
pub proof fn lemma_tdiv_mul_cancel(k: int, q: int)
    requires
        q > 0,
    ensures
        tdiv(k * q, q) == k,
{
    if k >= 0 {
        vstd::arithmetic::div_mod::lemma_div_multiples_vanish(k, q);
        assert(k * q == q * k) by (nonlinear_arith);
    } else {
        vstd::arithmetic::div_mod::lemma_div_multiples_vanish(-k, q);
        assert(-(k * q) == q * (-k)) by (nonlinear_arith);
    }
}

/// A product of bounded factors is bounded by the product of the bounds.
pub proof fn lemma_mul_bound(x: int, y: int, a: int, b: int)
    requires
        -a <= x <= a,
        -b <= y <= b,
    ensures
        -(a * b) <= x * y <= a * b,
{
    assert(-(a * b) <= x * y <= a * b) by (nonlinear_arith)
        requires
            -a <= x <= a,
            -b <= y <= b,
    ;
}

/// Truncating exec division of an `i128` by a positive `i128`; all divisions
/// run on non-negative operands, as `u128`, so no signed hardware division
/// semantics are relied upon.
pub fn div_trunc(p: i128, q: i128) -> (r: i128)
    requires
        q > 0,
        -0x4000_0000_0000_0000_0000_0000_0000_0000 < p,
    ensures
        r == tdiv(p as int, q as int),
{
    if p >= 0 {
        let pu: u128 = p as u128;
        let qu: u128 = q as u128;
        let d: u128 = pu / qu;
        assert(d == p as int / q as int) by {
            assert(pu == p as int && qu == q as int);
        };
        assert(d <= pu);
        d as i128
    } else {
        let pn: i128 = -p;
        let pu: u128 = pn as u128;
        let qu: u128 = q as u128;
        let d: u128 = pu / qu;
        assert(d == (-(p as int)) / q as int) by {
            assert(pu == -(p as int) && qu == q as int);
        };
        assert(d <= pu);
        -(d as i128)
    }
}

/// Exec fixed-point multiplication.
pub fn mul_exec(a: i128, b: i128) -> (r: i128)
    requires
        -0x2000_0000_0000_0000_0000_0000_0000_0000 <= a * b
            <= 0x2000_0000_0000_0000_0000_0000_0000_0000,
    ensures
        r == mul_fx(a as int, b as int),
{
    let p: i128 = a * b;
    div_trunc(p, SCALE)
}

/// Exec fixed-point division.
pub fn div_exec(a: i128, b: i128) -> (r: i128)
    requires
        b != 0,
        b > -0x7fff_ffff_ffff_ffff_ffff_ffff_ffff_ffff,
        -0x2000_0000_0000_0000_0000_0000_0000_0000 <= a * SCALE
            <= 0x2000_0000_0000_0000_0000_0000_0000_0000,
    ensures
        r == div_fx(a as int, b as int),
{
    let p: i128 = a * SCALE;
    if b >= 0 {
        div_trunc(p, b)
    } else {
        div_trunc(-p, -b)
    }
}

/// The integer square root, by binary search on the root.
pub fn isqrt(n: i128) -> (r: i128)
    requires
        0 <= n < 0x4000_0000_0000_0000_0000_0000_0000_0000,
    ensures
        is_isqrt(n as int, r as int),
        0 <= r < 0x8000_0000_0000_0000,
{
    let nu: u128 = n as u128;
    let mut lo: u128 = 0;
    let mut hi: u128 = 0x8000_0000_0000_0000;
    // Invariant: lo * lo <= n < hi * hi.
    while lo + 1 < hi
        invariant
            0 <= lo < hi <= 0x8000_0000_0000_0000,
            nu == n,
            lo * lo <= nu,
            nu < hi * hi,
        decreases hi - lo,
    {
        let mid: u128 = lo + (hi - lo) / 2;
        assert(lo < mid < hi);
        assert(mid * mid <= 0x4000_0000_0000_0000_0000_0000_0000_0000) by (nonlinear_arith)
            requires
                0 < mid <= 0x8000_0000_0000_0000,
        ;
        if mid * mid <= nu {
            lo = mid;
        } else {
            hi = mid;
        }
    }
    assert(lo + 1 == hi);
    assert(lo * lo <= nu < (lo + 1) * (lo + 1));
    lo as i128
}

} // verus!
