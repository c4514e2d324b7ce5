//! The three-component vector type and its algebra.
//!
//! Components are fixed-point scalars (see `fixed`).  Each executable
//! operation is specified exactly against a mathematical model over `V3`,
//! a triple of unbounded integers; products and quotients state their
//! truncating rescale explicitly, so the contract pins every bit of the
//! result.

use vstd::prelude::*;

use crate::fixed::SCALE;
use crate::fixed::div_exec;
use crate::fixed::div_trunc;
use crate::fixed::is_isqrt;
use crate::fixed::isqrt;
use crate::fixed::lemma_mul_bound;
use crate::fixed::lemma_tdiv_bound;
use crate::fixed::lemma_tdiv_mono;
use crate::fixed::mul_exec;
use crate::fixed::mul_fx;
use crate::fixed::tdiv;

verus! {

/// The mathematical model of a vector: three unbounded integers, each a
/// fixed-point scalar.
pub struct V3 {
    pub x: int,
    pub y: int,
    pub z: int,
}

/// A vector of three fixed-point components.
#[derive(Clone, Copy, Debug, PartialEq, Eq, Structural)]
pub struct Vec3 {
    pub x: i128,
    pub y: i128,
    pub z: i128,
}

impl View for Vec3 {
    type V = V3;

    open spec fn view(&self) -> V3 {
        V3 { x: self.x as int, y: self.y as int, z: self.z as int }
    }
}

/// A ray: an origin, a unit-like direction, and a bounce counter.  Rays
/// are transient values; the tracing functions pass the origin and the
/// direction separately, so this type only bundles them for callers that
/// want to keep one around.
#[derive(Clone, Copy, Debug, PartialEq, Eq, Structural)]
pub struct Ray {
    pub orig: Vec3,
    pub dir: Vec3,
    pub hit_number: u8,
}

/// All three components lie between `-b` and `b`.
pub open spec fn fits_v(v: V3, b: int) -> bool {
    &&& -b <= v.x <= b
    &&& -b <= v.y <= b
    &&& -b <= v.z <= b
}

pub open spec fn zero_s() -> V3 {
    V3 { x: 0, y: 0, z: 0 }
}

pub open spec fn add_s(a: V3, b: V3) -> V3 {
    V3 { x: a.x + b.x, y: a.y + b.y, z: a.z + b.z }
}

pub open spec fn sub_s(a: V3, b: V3) -> V3 {
    V3 { x: a.x - b.x, y: a.y - b.y, z: a.z - b.z }
}

pub open spec fn neg_s(a: V3) -> V3 {
    V3 { x: -a.x, y: -a.y, z: -a.z }
}

/// Componentwise scaling by a fixed-point factor.
pub open spec fn scale_s(v: V3, s: int) -> V3 {
    V3 { x: mul_fx(v.x, s), y: mul_fx(v.y, s), z: mul_fx(v.z, s) }
}

/// Componentwise (Hadamard) product of two vectors.
pub open spec fn had_s(a: V3, b: V3) -> V3 {
    V3 { x: mul_fx(a.x, b.x), y: mul_fx(a.y, b.y), z: mul_fx(a.z, b.z) }
}

/// The raw (unrescaled) inner product; it carries the square of the scale.
pub open spec fn dot_raw(a: V3, b: V3) -> int {
    a.x * b.x + a.y * b.y + a.z * b.z
}

/// The inner product of two fixed-point vectors.
pub open spec fn dot_s(a: V3, b: V3) -> int {
    tdiv(dot_raw(a, b), SCALE as int)
}

/// The raw (unrescaled) cross product; it carries the square of the scale.
pub open spec fn cross_raw(a: V3, b: V3) -> V3 {
    V3 {
        x: a.y * b.z - a.z * b.y,
        y: a.z * b.x - a.x * b.z,
        z: a.x * b.y - a.y * b.x,
    }
}

/// The cross product of two fixed-point vectors.
pub open spec fn cross_s(a: V3, b: V3) -> V3 {
    V3 {
        x: tdiv(a.y * b.z - a.z * b.y, SCALE as int),
        y: tdiv(a.z * b.x - a.x * b.z, SCALE as int),
        z: tdiv(a.x * b.y - a.y * b.x, SCALE as int),
    }
}

pub open spec fn abs_s(v: V3) -> V3 {
    V3 {
        x: if v.x >= 0 { v.x } else { -v.x },
        y: if v.y >= 0 { v.y } else { -v.y },
        z: if v.z >= 0 { v.z } else { -v.z },
    }
}

/// The greatest of the three (signed) components.
pub open spec fn max3_s(v: V3) -> int {
    let xy = if v.x >= v.y { v.x } else { v.y };
    if xy >= v.z { xy } else { v.z }
}

/// The lesser of the third component and the greater of the first two.
pub open spec fn min3_s(v: V3) -> int {
    let xy = if v.x >= v.y { v.x } else { v.y };
    if xy <= v.z { xy } else { v.z }
}

/// The recursively defined integer square root, for use in specifications.
pub open spec fn isqrt_s(n: int) -> int
    decreases n,
{
    if n < 1 {
        0
    } else {
        let p = isqrt_s(n - 1);
        if (p + 1) * (p + 1) <= n {
            p + 1
        } else {
            p
        }
    }
}

/// `isqrt_s` really is the integer square root.
pub proof fn lemma_isqrt_s(n: int)
    requires
        n >= 0,
    ensures
        is_isqrt(n, isqrt_s(n)),
    decreases n,
{
    if n == 0 {
        assert(isqrt_s(0) == 0);
    } else {
        lemma_isqrt_s(n - 1);
        let p = isqrt_s(n - 1);
        assert((p + 2) * (p + 2) > (p + 1) * (p + 1)) by (nonlinear_arith)
            requires
                p >= 0,
        ;
    }
}

/// The integer square root is unique.
pub proof fn lemma_isqrt_unique(n: int, r1: int, r2: int)
    requires
        is_isqrt(n, r1),
        is_isqrt(n, r2),
    ensures
        r1 == r2,
{
    assert(r1 == r2) by (nonlinear_arith)
        requires
            r1 >= 0 && r1 * r1 <= n && n < (r1 + 1) * (r1 + 1),
            r2 >= 0 && r2 * r2 <= n && n < (r2 + 1) * (r2 + 1),
    ;
}

/// The norm of a fixed-point vector: the square root of the raw inner
/// product, which is directly at the scale of a fixed-point scalar.
pub open spec fn norm_s(v: V3) -> int {
    isqrt_s(dot_raw(v, v))
}

/// Normalization: divide by the norm when it is positive, else leave the
/// vector as it is.
pub open spec fn normalized_s(v: V3) -> V3 {
    let n = norm_s(v);
    if n > 0 {
        V3 { x: tdiv(v.x * SCALE, n), y: tdiv(v.y * SCALE, n), z: tdiv(v.z * SCALE, n) }
    } else {
        v
    }
}

/// Normalization by the greatest component, when it is positive.
pub open spec fn normalized_l0_s(v: V3) -> V3 {
    let m = max3_s(v);
    if m > 0 {
        V3 { x: tdiv(v.x * SCALE, m), y: tdiv(v.y * SCALE, m), z: tdiv(v.z * SCALE, m) }
    } else {
        v
    }
}

/// Bound under which vectors may enter the inner and cross products.
pub const GEOM_MAX: i128 = 0x40_0000_0000_0000;

/// Bound under which vector sums and differences stay exact.
pub const LIN_MAX: i128 = 0x2000_0000_0000_0000_0000_0000_0000_0000;

impl Vec3 {
    pub fn zero() -> (r: Vec3)
        ensures
            r@ == zero_s(),
    {
        Vec3 { x: 0, y: 0, z: 0 }
    }

    pub fn ones() -> (r: Vec3)
        ensures
            r@ == (V3 { x: SCALE as int, y: SCALE as int, z: SCALE as int }),
    {
        Vec3 { x: SCALE, y: SCALE, z: SCALE }
    }

    pub fn plus(self, other: Vec3) -> (r: Vec3)
        requires
            fits_v(self@, LIN_MAX as int),
            fits_v(other@, LIN_MAX as int),
        ensures
            r@ == add_s(self@, other@),
    {
        Vec3 { x: self.x + other.x, y: self.y + other.y, z: self.z + other.z }
    }

    pub fn minus(self, other: Vec3) -> (r: Vec3)
        requires
            fits_v(self@, LIN_MAX as int),
            fits_v(other@, LIN_MAX as int),
        ensures
            r@ == sub_s(self@, other@),
    {
        Vec3 { x: self.x - other.x, y: self.y - other.y, z: self.z - other.z }
    }

    pub fn neg(self) -> (r: Vec3)
        requires
            fits_v(self@, LIN_MAX as int),
        ensures
            r@ == neg_s(self@),
    {
        Vec3 { x: -self.x, y: -self.y, z: -self.z }
    }

    /// In-place accumulation, as `+=`.
    pub fn add(&mut self, other: Vec3)
        requires
            fits_v(old(self)@, LIN_MAX as int),
            fits_v(other@, LIN_MAX as int),
        ensures
            final(self)@ == add_s(old(self)@, other@),
    {
        self.x = self.x + other.x;
        self.y = self.y + other.y;
        self.z = self.z + other.z;
    }

    pub fn abs(&self) -> (r: Vec3)
        requires
            fits_v(self@, LIN_MAX as int),
        ensures
            r@ == abs_s(self@),
    {
        Vec3 {
            x: if self.x >= 0 { self.x } else { -self.x },
            y: if self.y >= 0 { self.y } else { -self.y },
            z: if self.z >= 0 { self.z } else { -self.z },
        }
    }

    /// The greatest of the three components.
    pub fn max(&self) -> (r: i128)
        ensures
            r == max3_s(self@),
    {
        let xy = if self.x >= self.y { self.x } else { self.y };
        if xy >= self.z { xy } else { self.z }
    }

    /// The lesser of the third component and the greater of the first two.
    pub fn min(&self) -> (r: i128)
        ensures
            r == min3_s(self@),
    {
        let xy = if self.x >= self.y { self.x } else { self.y };
        if xy <= self.z { xy } else { self.z }
    }

    /// In-place scaling by a fixed-point factor.
    pub fn scale(&mut self, s: i128)
        requires
            fits_v(old(self)@, GEOM_MAX as int),
            -GEOM_MAX <= s <= GEOM_MAX,
        ensures
            final(self)@ == scale_s(old(self)@, s as int),
    {
        proof {
            lemma_mul_bound(self@.x, s as int, GEOM_MAX as int, GEOM_MAX as int);
            lemma_mul_bound(self@.y, s as int, GEOM_MAX as int, GEOM_MAX as int);
            lemma_mul_bound(self@.z, s as int, GEOM_MAX as int, GEOM_MAX as int);
        }
        self.x = mul_exec(self.x, s);
        self.y = mul_exec(self.y, s);
        self.z = mul_exec(self.z, s);
    }

    pub fn scaled(&self, s: i128) -> (r: Vec3)
        requires
            fits_v(self@, GEOM_MAX as int),
            -GEOM_MAX <= s <= GEOM_MAX,
        ensures
            r@ == scale_s(self@, s as int),
    {
        let mut other = *self;
        other.scale(s);
        other
    }

    /// Componentwise (Hadamard) product.
    pub fn hadamard(self, other: Vec3) -> (r: Vec3)
        requires
            fits_v(self@, GEOM_MAX as int),
            fits_v(other@, GEOM_MAX as int),
        ensures
            r@ == had_s(self@, other@),
    {
        proof {
            lemma_mul_bound(self@.x, other@.x, GEOM_MAX as int, GEOM_MAX as int);
            lemma_mul_bound(self@.y, other@.y, GEOM_MAX as int, GEOM_MAX as int);
            lemma_mul_bound(self@.z, other@.z, GEOM_MAX as int, GEOM_MAX as int);
        }
        Vec3 {
            x: mul_exec(self.x, other.x),
            y: mul_exec(self.y, other.y),
            z: mul_exec(self.z, other.z),
        }
    }

    pub fn dot(self, other: Vec3) -> (r: i128)
        requires
            fits_v(self@, GEOM_MAX as int),
            fits_v(other@, GEOM_MAX as int),
        ensures
            r == dot_s(self@, other@),
    {
        proof {
            lemma_mul_bound(self@.x, other@.x, GEOM_MAX as int, GEOM_MAX as int);
            lemma_mul_bound(self@.y, other@.y, GEOM_MAX as int, GEOM_MAX as int);
            lemma_mul_bound(self@.z, other@.z, GEOM_MAX as int, GEOM_MAX as int);
        }
        let raw: i128 = self.x * other.x + self.y * other.y + self.z * other.z;
        div_trunc(raw, SCALE)
    }

    pub fn cross(&self, other: Vec3) -> (r: Vec3)
        requires
            fits_v(self@, GEOM_MAX as int),
            fits_v(other@, GEOM_MAX as int),
        ensures
            r@ == cross_s(self@, other@),
    {
        proof {
            lemma_mul_bound(self@.y, other@.z, GEOM_MAX as int, GEOM_MAX as int);
            lemma_mul_bound(self@.z, other@.y, GEOM_MAX as int, GEOM_MAX as int);
            lemma_mul_bound(self@.z, other@.x, GEOM_MAX as int, GEOM_MAX as int);
            lemma_mul_bound(self@.x, other@.z, GEOM_MAX as int, GEOM_MAX as int);
            lemma_mul_bound(self@.x, other@.y, GEOM_MAX as int, GEOM_MAX as int);
            lemma_mul_bound(self@.y, other@.x, GEOM_MAX as int, GEOM_MAX as int);
        }
        Vec3 {
            x: div_trunc(self.y * other.z - self.z * other.y, SCALE),
            y: div_trunc(self.z * other.x - self.x * other.z, SCALE),
            z: div_trunc(self.x * other.y - self.y * other.x, SCALE),
        }
    }

    /// The squared norm, as the inner product of the vector with itself.
    pub fn squared_norm(self) -> (r: i128)
        requires
            fits_v(self@, GEOM_MAX as int),
        ensures
            r == dot_s(self@, self@),
            r >= 0,
    {
        proof {
            assert(dot_raw(self@, self@) >= 0) by (nonlinear_arith);
            lemma_tdiv_mono(0, dot_raw(self@, self@), SCALE as int);
            assert(tdiv(0, SCALE as int) == 0);
        }
        self.dot(self)
    }

    /// A unit-length copy of the vector; the zero vector stays as it is.
    /// Every component of the result lies within one fixed-point unit.
    pub fn normalized(&self) -> (r: Vec3)
        requires
            fits_v(self@, GEOM_MAX as int),
        ensures
            r@ == normalized_s(self@),
            fits_v(r@, SCALE as int),
    {
        proof {
            lemma_mul_bound(self@.x, self@.x, GEOM_MAX as int, GEOM_MAX as int);
            lemma_mul_bound(self@.y, self@.y, GEOM_MAX as int, GEOM_MAX as int);
            lemma_mul_bound(self@.z, self@.z, GEOM_MAX as int, GEOM_MAX as int);
            assert(self@.x * self@.x >= 0) by (nonlinear_arith);
            assert(self@.y * self@.y >= 0) by (nonlinear_arith);
            assert(self@.z * self@.z >= 0) by (nonlinear_arith);
        }
        let raw: i128 = self.x * self.x + self.y * self.y + self.z * self.z;
        let n: i128 = isqrt(raw);
        proof {
            lemma_isqrt_s(raw as int);
            lemma_isqrt_unique(raw as int, n as int, isqrt_s(raw as int));
            assert(n == norm_s(self@));
        }
        if n > 0 {
            proof {
                lemma_normalized_component(self@.x, raw as int, n as int);
                lemma_normalized_component(self@.y, raw as int, n as int);
                lemma_normalized_component(self@.z, raw as int, n as int);
            }
            Vec3 {
                x: div_exec(self.x, n),
                y: div_exec(self.y, n),
                z: div_exec(self.z, n),
            }
        } else {
            proof {
                lemma_zero_norm_small(self@, raw as int, n as int);
            }
            *self
        }
    }

    /// In-place version of `normalized`.
    pub fn normalize(&mut self)
        requires
            fits_v(old(self)@, GEOM_MAX as int),
        ensures
            final(self)@ == normalized_s(old(self)@),
            fits_v(final(self)@, SCALE as int),
    {
        *self = self.normalized();
    }

    /// In-place division by the greatest component, when positive.
    pub fn normalize_l0(&mut self)
        requires
            fits_v(old(self)@, GEOM_MAX as int),
        ensures
            final(self)@ == normalized_l0_s(old(self)@),
    {
        *self = self.normalized_l0();
    }

    /// A copy of the vector divided by its greatest component, when positive.
    pub fn normalized_l0(&self) -> (r: Vec3)
        requires
            fits_v(self@, GEOM_MAX as int),
        ensures
            r@ == normalized_l0_s(self@),
    {
        let m = self.max();
        if m > 0 {
            Vec3 {
                x: div_exec(self.x, m),
                y: div_exec(self.y, m),
                z: div_exec(self.z, m),
            }
        } else {
            *self
        }
    }
}

/// Each component of a vector divided by its own norm stays within one
/// fixed-point unit, because no component exceeds the norm itself.
proof fn lemma_normalized_component(x: int, raw: int, n: int)
    requires
        n > 0,
        is_isqrt(raw, n),
        x * x <= raw,
    ensures
        -(SCALE as int) <= tdiv(x * SCALE as int, n) <= SCALE as int,
{
    assert(-n <= x <= n) by (nonlinear_arith)
        requires
            n > 0,
            x * x <= raw,
            raw < (n + 1) * (n + 1),
    ;
    lemma_mul_bound(x, SCALE as int, n, SCALE as int);
    lemma_tdiv_bound(x * SCALE as int, n, n * SCALE as int);
    assert((n * SCALE as int) / n == SCALE as int) by {
        vstd::arithmetic::div_mod::lemma_div_multiples_vanish(SCALE as int, n);
        assert(n * SCALE as int == SCALE as int * n) by (nonlinear_arith);
    };
}

/// When the integer square root of the raw squared norm is zero, the vector
/// is the zero vector.
proof fn lemma_zero_norm_small(v: V3, raw: int, n: int)
    requires
        n <= 0,
        is_isqrt(raw, n),
        raw == dot_raw(v, v),
    ensures
        v.x == 0 && v.y == 0 && v.z == 0,
{
    assert(raw < 1);
    assert(v.x == 0 && v.y == 0 && v.z == 0) by (nonlinear_arith)
        requires
            v.x * v.x + v.y * v.y + v.z * v.z < 1,
    ;
}

/// Executable range test matching `fits_v`.
pub fn fits_chk(v: &Vec3, b: i128) -> (r: bool)
    requires
        b >= 0,
    ensures
        r == fits_v(v@, b as int),
{
    -b <= v.x && v.x <= b && -b <= v.y && v.y <= b && -b <= v.z && v.z <= b
}

/// All three components are non-negative.
pub open spec fn nonneg_v(v: V3) -> bool {
    v.x >= 0 && v.y >= 0 && v.z >= 0
}

/// Scaling a non-negative vector by a non-negative factor keeps it
/// non-negative.
pub proof fn lemma_scale_s_nonneg(v: V3, s: int)
    requires
        nonneg_v(v),
        s >= 0,
    ensures
        nonneg_v(scale_s(v, s)),
{
    assert(v.x * s >= 0 && v.y * s >= 0 && v.z * s >= 0) by (nonlinear_arith)
        requires
            v.x >= 0 && v.y >= 0 && v.z >= 0 && s >= 0,
    ;
    lemma_tdiv_mono(0, v.x * s, SCALE as int);
    lemma_tdiv_mono(0, v.y * s, SCALE as int);
    lemma_tdiv_mono(0, v.z * s, SCALE as int);
}

/// The componentwise product of non-negative vectors is non-negative.
pub proof fn lemma_had_s_nonneg(a: V3, b: V3)
    requires
        nonneg_v(a),
        nonneg_v(b),
    ensures
        nonneg_v(had_s(a, b)),
{
    assert(a.x * b.x >= 0 && a.y * b.y >= 0 && a.z * b.z >= 0) by (nonlinear_arith)
        requires
            a.x >= 0 && a.y >= 0 && a.z >= 0 && b.x >= 0 && b.y >= 0 && b.z >= 0,
    ;
    lemma_tdiv_mono(0, a.x * b.x, SCALE as int);
    lemma_tdiv_mono(0, a.y * b.y, SCALE as int);
    lemma_tdiv_mono(0, a.z * b.z, SCALE as int);
}

/// The inner product of vectors bounded by `m` and `n` is bounded by
/// `3 * m * n / SCALE`.
pub proof fn lemma_dot_s_bound(a: V3, b: V3, m: int, n: int)
    requires
        m >= 0,
        n >= 0,
        fits_v(a, m),
        fits_v(b, n),
    ensures
        -((3 * m * n) / SCALE as int) <= dot_s(a, b) <= (3 * m * n) / SCALE as int,
        -(3 * m * n) <= dot_raw(a, b) <= 3 * m * n,
{
    lemma_mul_bound(a.x, b.x, m, n);
    lemma_mul_bound(a.y, b.y, m, n);
    lemma_mul_bound(a.z, b.z, m, n);
    assert(3 * m * n == 3 * (m * n)) by (nonlinear_arith);
    lemma_tdiv_bound(dot_raw(a, b), SCALE as int, 3 * m * n);
}

/// A vector bounded by `m`, scaled by a factor bounded by `n`, is bounded by
/// `m * n / SCALE`.
pub proof fn lemma_scale_s_bound(v: V3, s: int, m: int, n: int)
    requires
        m >= 0,
        n >= 0,
        fits_v(v, m),
        -n <= s <= n,
    ensures
        fits_v(scale_s(v, s), (m * n) / SCALE as int),
{
    lemma_mul_bound(v.x, s, m, n);
    lemma_mul_bound(v.y, s, m, n);
    lemma_mul_bound(v.z, s, m, n);
    assert(m * n >= 0) by (nonlinear_arith)
        requires
            m >= 0,
            n >= 0,
    ;
    lemma_tdiv_bound(v.x * s, SCALE as int, m * n);
    lemma_tdiv_bound(v.y * s, SCALE as int, m * n);
    lemma_tdiv_bound(v.z * s, SCALE as int, m * n);
}

/// The product of two bounded fixed-point scalars is bounded by
/// `m * n / SCALE`.
pub proof fn lemma_mul_fx_bound(a: int, b: int, m: int, n: int)
    requires
        m >= 0,
        n >= 0,
        -m <= a <= m,
        -n <= b <= n,
    ensures
        -((m * n) / SCALE as int) <= mul_fx(a, b) <= (m * n) / SCALE as int,
{
    lemma_mul_bound(a, b, m, n);
    lemma_tdiv_bound(a * b, SCALE as int, m * n);
}

/// The cross product of vectors bounded by `m` and `n` is bounded by
/// `2 * m * n / SCALE`.
pub proof fn lemma_cross_s_bound(a: V3, b: V3, m: int, n: int)
    requires
        m >= 0,
        n >= 0,
        fits_v(a, m),
        fits_v(b, n),
    ensures
        fits_v(cross_s(a, b), (2 * m * n) / SCALE as int),
{
    lemma_mul_bound(a.y, b.z, m, n);
    lemma_mul_bound(a.z, b.y, m, n);
    lemma_mul_bound(a.z, b.x, m, n);
    lemma_mul_bound(a.x, b.z, m, n);
    lemma_mul_bound(a.x, b.y, m, n);
    lemma_mul_bound(a.y, b.x, m, n);
    assert(2 * m * n == 2 * (m * n)) by (nonlinear_arith);
    lemma_tdiv_bound(a.y * b.z - a.z * b.y, SCALE as int, 2 * m * n);
    lemma_tdiv_bound(a.z * b.x - a.x * b.z, SCALE as int, 2 * m * n);
    lemma_tdiv_bound(a.x * b.y - a.y * b.x, SCALE as int, 2 * m * n);
}

/// A non-negative square below a square bound keeps its root below the
/// bound's root.
pub proof fn lemma_sqrt_le(r: int, bound: int)
    requires
        r >= 0,
        bound >= 0,
        r * r <= bound * bound,
    ensures
        r <= bound,
{
    assert(r <= bound) by (nonlinear_arith)
        requires
            r >= 0,
            bound >= 0,
            r * r <= bound * bound,
    ;
}

/// One normalized component `c = tdiv(x * SCALE, n)` squares to at most
/// `x^2 * SCALE^2 / n^2` and to more than that less one step.
proof fn lemma_norm_component(x: int, n: int)
    requires
        n >= 1,
        -n <= x <= n,
    ensures
        tdiv(x * SCALE as int, n) * tdiv(x * SCALE as int, n) * (n * n) <= (x * x) * (SCALE
            as int * SCALE as int),
        (x * x) * (SCALE as int * SCALE as int) < (tdiv(x * SCALE as int, n) * tdiv(
            x * SCALE as int,
            n,
        ) + 2 * abs_i(tdiv(x * SCALE as int, n)) + 1) * (n * n),
        -(SCALE as int) <= tdiv(x * SCALE as int, n) <= SCALE as int,
{
    let a = abs_i(x);
    let ca = (a * SCALE as int) / n;
    assert(a * SCALE as int >= 0) by (nonlinear_arith)
        requires
            a >= 0,
    ;
    vstd::arithmetic::div_mod::lemma_fundamental_div_mod(a * SCALE as int, n);
    vstd::arithmetic::div_mod::lemma_div_pos_is_pos(a * SCALE as int, n);
    let r = (a * SCALE as int) % n;
    assert(a * SCALE as int == n * ca + r && 0 <= r < n);
    assert(ca * ca * (n * n) <= (a * a) * (SCALE as int * SCALE as int)) by (nonlinear_arith)
        requires
            a * SCALE as int == n * ca + r,
            0 <= r,
            ca >= 0,
            n >= 1,
    ;
    assert((a * a) * (SCALE as int * SCALE as int) < (ca * ca + 2 * ca + 1) * (n * n))
        by (nonlinear_arith)
        requires
            a * SCALE as int == n * ca + r,
            0 <= r < n,
            ca >= 0,
            n >= 1,
    ;
    assert(ca <= SCALE as int) by {
        assert(a * SCALE as int <= n * SCALE as int) by (nonlinear_arith)
            requires
                a <= n,
                SCALE as int > 0,
        ;
        vstd::arithmetic::div_mod::lemma_div_is_ordered(a * SCALE as int, n * SCALE as int, n);
        vstd::arithmetic::div_mod::lemma_div_multiples_vanish(SCALE as int, n);
    };
    let c = tdiv(x * SCALE as int, n);
    if x >= 0 {
        assert(c == ca && abs_i(c) == ca);
    } else {
        assert(x * SCALE as int == -(a * SCALE as int)) by (nonlinear_arith)
            requires
                a == -x,
        ;
        assert(c == -ca && abs_i(c) == ca);
        assert((x * x) == (a * a) && c * c == ca * ca) by (nonlinear_arith)
            requires
                a == -x,
                c == -ca,
        ;
    }
}

/// The absolute value of an integer.
pub open spec fn abs_i(x: int) -> int {
    if x >= 0 {
        x
    } else {
        -x
    }
}

/// The normalized copy of a vector of norm at least one has unit squared
/// norm up to a few fixed-point steps, exactly bounded on both sides.
/// (A vector shorter than one unit can miss this badly — its components
/// carry too little information — so such inputs are left out.)
pub proof fn lemma_normalized_near_unit(v: V3)
    requires
        norm_s(v) >= SCALE as int,
    ensures
        SCALE as int - 7 <= dot_s(normalized_s(v), normalized_s(v)) <= SCALE as int + 2,
{
    let s = SCALE as int;
    let n = norm_s(v);
    let sumsq = dot_raw(v, v);
    assert(v.x * v.x >= 0 && v.y * v.y >= 0 && v.z * v.z >= 0) by (nonlinear_arith);
    lemma_isqrt_s(sumsq);
    assert(n * n <= sumsq < (n + 1) * (n + 1));
    assert(-n <= v.x <= n && -n <= v.y <= n && -n <= v.z <= n) by (nonlinear_arith)
        requires
            v.x * v.x <= sumsq,
            v.y * v.y <= sumsq,
            v.z * v.z <= sumsq,
            sumsq < (n + 1) * (n + 1),
            n >= 0,
    ;
    lemma_norm_component(v.x, n);
    lemma_norm_component(v.y, n);
    lemma_norm_component(v.z, n);
    let cx = tdiv(v.x * s, n);
    let cy = tdiv(v.y * s, n);
    let cz = tdiv(v.z * s, n);
    let u = normalized_s(v);
    assert(u == V3 { x: cx, y: cy, z: cz });
    let cc = cx * cx + cy * cy + cz * cz;
    assert(cc >= 0) by (nonlinear_arith)
        requires
            cc == cx * cx + cy * cy + cz * cz,
    ;

    // Upper bound: cc * n^2 <= sumsq * s^2 <= (n^2 + 2n) s^2, and with
    // n >= s that forces cc <= s^2 + 2s.
    assert(cc * (n * n) <= sumsq * (s * s)) by (nonlinear_arith)
        requires
            cx * cx * (n * n) <= (v.x * v.x) * (s * s),
            cy * cy * (n * n) <= (v.y * v.y) * (s * s),
            cz * cz * (n * n) <= (v.z * v.z) * (s * s),
            cc == cx * cx + cy * cy + cz * cz,
            sumsq == v.x * v.x + v.y * v.y + v.z * v.z,
    ;
    assert(cc <= s * s + 2 * s) by (nonlinear_arith)
        requires
            cc * (n * n) <= sumsq * (s * s),
            sumsq < (n + 1) * (n + 1),
            n >= s,
            s >= 2,
            cc >= 0,
    ;

    // Lower bound: s^2 n^2 <= sumsq * s^2 < (cc + 2(|cx|+|cy|+|cz|) + 3) n^2,
    // and each |c| is at most s.
    assert(s * s * (n * n) <= sumsq * (s * s)) by (nonlinear_arith)
        requires
            n * n <= sumsq,
    ;
    assert(sumsq * (s * s) < (cc + 2 * (abs_i(cx) + abs_i(cy) + abs_i(cz)) + 3) * (n * n))
        by (nonlinear_arith)
        requires
            (v.x * v.x) * (s * s) < (cx * cx + 2 * abs_i(cx) + 1) * (n * n),
            (v.y * v.y) * (s * s) < (cy * cy + 2 * abs_i(cy) + 1) * (n * n),
            (v.z * v.z) * (s * s) < (cz * cz + 2 * abs_i(cz) + 1) * (n * n),
            cc == cx * cx + cy * cy + cz * cz,
            sumsq == v.x * v.x + v.y * v.y + v.z * v.z,
    ;
    assert(s * s < cc + 2 * (abs_i(cx) + abs_i(cy) + abs_i(cz)) + 3) by (nonlinear_arith)
        requires
            s * s * (n * n) <= sumsq * (s * s),
            sumsq * (s * s) < (cc + 2 * (abs_i(cx) + abs_i(cy) + abs_i(cz)) + 3) * (n * n),
            n >= 1,
    ;
    assert(cc >= s * s - 6 * s - 2);

    // Rescaling to one fixed-point unit.
    assert(dot_s(u, u) == tdiv(cc, s));
    lemma_tdiv_mono(cc, s * s + 2 * s, s);
    assert(tdiv(s * s + 2 * s, s) == s + 2) by {
        crate::fixed::lemma_tdiv_mul_cancel(s + 2, s);
        assert((s + 2) * s == s * s + 2 * s) by (nonlinear_arith);
    };
    lemma_tdiv_mono(s * s - 6 * s - 2, cc, s);
    assert(tdiv(s * s - 6 * s - 2, s) == s - 7) by {
        vstd::arithmetic::div_mod::lemma_fundamental_div_mod_converse(
            s * s - 6 * s - 2,
            s,
            s - 7,
            s - 2,
        );
        assert(s * s - 6 * s - 2 == (s - 7) * s + (s - 2)) by (nonlinear_arith);
    };
}

/// The inner product is symmetric.
pub proof fn lemma_dot_comm(a: V3, b: V3)
    ensures
        dot_s(a, b) == dot_s(b, a),
        dot_raw(a, b) == dot_raw(b, a),
{
    assert(dot_raw(a, b) == dot_raw(b, a)) by (nonlinear_arith);
}

/// The cross product of a vector with itself vanishes.
pub proof fn lemma_cross_self(a: V3)
    ensures
        cross_s(a, a) == zero_s(),
        cross_raw(a, a) == zero_s(),
{
    assert(a.y * a.z - a.z * a.y == 0) by (nonlinear_arith);
    assert(a.z * a.x - a.x * a.z == 0) by (nonlinear_arith);
    assert(a.x * a.y - a.y * a.x == 0) by (nonlinear_arith);
    assert(tdiv(0, SCALE as int) == 0);
}

/// The cross product is orthogonal to both of its factors (stated over the
/// raw, unrounded model, where it holds exactly).
pub proof fn lemma_cross_orthogonal(a: V3, b: V3)
    ensures
        dot_raw(cross_raw(a, b), a) == 0,
        dot_raw(cross_raw(a, b), b) == 0,
{
    assert((a.y * b.z - a.z * b.y) * a.x + (a.z * b.x - a.x * b.z) * a.y + (a.x * b.y - a.y
        * b.x) * a.z == 0) by (nonlinear_arith);
    assert((a.y * b.z - a.z * b.y) * b.x + (a.z * b.x - a.x * b.z) * b.y + (a.x * b.y - a.y
        * b.x) * b.z == 0) by (nonlinear_arith);
}

} // verus!
