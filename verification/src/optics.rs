//! Reflection and refraction at a surface hit, by Snell's law, with the
//! small origin offset that keeps a secondary ray from re-intersecting the
//! surface it starts on.

use vstd::prelude::*;

use crate::fixed::SCALE;
use crate::fixed::div_exec;
use crate::fixed::div_fx;
use crate::fixed::isqrt;
use crate::fixed::lemma_mul_bound;
use crate::fixed::mul_exec;
use crate::fixed::mul_fx;
use crate::shapes::DIR_MAX;
use crate::shapes::HitM;
use crate::shapes::Intersection;
use crate::shapes::ORIG_MAX;
use crate::shapes::hit_wf;
use crate::vec3::V3;
use crate::vec3::Vec3;
use crate::vec3::add_s;
use crate::vec3::dot_raw;
use crate::vec3::dot_s;
use crate::vec3::fits_v;
use crate::vec3::isqrt_s;
use crate::vec3::lemma_dot_s_bound;
use crate::vec3::lemma_isqrt_s;
use crate::vec3::lemma_isqrt_unique;
use crate::vec3::lemma_mul_fx_bound;
use crate::vec3::lemma_scale_s_bound;
use crate::vec3::neg_s;
use crate::vec3::normalized_s;
use crate::vec3::scale_s;
use crate::vec3::sub_s;

verus! {

/// Offset of a secondary-ray origin along the normal, in fixed-point
/// units (about one part in eight thousand).
pub const RAY_EPS: i128 = 8;

/// Mirror reflection of `incident` about `normal`.
pub open spec fn reflect_s(d: V3, n: V3) -> V3 {
    sub_s(d, scale_s(n, 2 * dot_s(d, n)))
}

/// Mirror reflection of `incident` about `normal`:
/// `incident - 2 (incident . normal) normal`.
pub fn reflect(incident: Vec3, normal: Vec3) -> (r: Vec3)
    requires
        fits_v(incident@, DIR_MAX as int),
        fits_v(normal@, SCALE as int),
    ensures
        r@ == reflect_s(incident@, normal@),
        fits_v(r@, 0x80_0000),
{
    proof {
        lemma_dot_s_bound(incident@, normal@, DIR_MAX as int, SCALE as int);
    }
    let d = incident.dot(normal);
    proof {
        lemma_scale_s_bound(normal@, 2 * d as int, SCALE as int, 0x40_0000);
    }
    incident.minus(normal.scaled(2 * d))
}

/// The refraction ratio and the flipped values the two secondary-ray
/// builders share: on entry (`c < 0`) the ratio is the index itself and
/// `c` and the normal flip; on exit it is the reciprocal.
pub open spec fn snell_s(c0: int, n0: V3, eta: int) -> (int, int, V3) {
    let ratio = if c0 < 0 {
        eta
    } else {
        div_fx(SCALE as int, eta)
    };
    if c0 < 0 {
        (ratio, -c0, neg_s(n0))
    } else {
        (ratio, c0, n0)
    }
}

/// `1 - r^2 (1 - c^2)`, the squared cosine of the refracted angle.
pub open spec fn cos_theta_2_s(ratio: int, c: int) -> int {
    SCALE as int - mul_fx(mul_fx(ratio, ratio), SCALE as int - mul_fx(c, c))
}

/// The mirrored secondary ray at a hit, or nothing in the regime where
/// refraction succeeds (`cos_theta_2 > 0`), which this renderer treats as
/// producing no reflection.
pub open spec fn reflect_ray_s(d: V3, hit: HitM, eta: int) -> Option<(V3, V3)> {
    let c0 = dot_s(hit.normal, d);
    let (ratio, c, n) = snell_s(c0, hit.normal, eta);
    if cos_theta_2_s(ratio, c) > 0 {
        None
    } else {
        let reflected = reflect_s(d, n);
        let orig = if dot_s(reflected, hit.normal) < 0 {
            sub_s(hit.point, scale_s(hit.normal, RAY_EPS as int))
        } else {
            add_s(hit.point, scale_s(hit.normal, RAY_EPS as int))
        };
        Some((orig, reflected))
    }
}

/// The refracted secondary ray at a hit, or nothing under total internal
/// reflection (`cos_theta_2 < 0`).
pub open spec fn refract_ray_s(d: V3, hit: HitM, eta: int) -> Option<(V3, V3)> {
    let c0 = -dot_s(hit.normal, d);
    let (ratio, c, n) = snell_s(c0, hit.normal, eta);
    let ct2 = cos_theta_2_s(ratio, c);
    if ct2 < 0 {
        None
    } else {
        let sq = isqrt_s(ct2 * SCALE as int);
        let refracted = normalized_s(
            add_s(scale_s(d, ratio), scale_s(n, mul_fx(ratio, c) - sq)),
        );
        let orig = if dot_s(refracted, n) > 0 {
            add_s(hit.point, scale_s(n, RAY_EPS as int))
        } else {
            sub_s(hit.point, scale_s(n, RAY_EPS as int))
        };
        Some((orig, refracted))
    }
}

/// The mirrored secondary ray, exactly as `reflect_ray_s` states it: the
/// reflected direction and an origin nudged off the surface.
pub fn reflect_ray(incident: Vec3, intersection: &Intersection, refractive_index: i128) -> (r:
    Option<(Vec3, Vec3)>)
    requires
        hit_wf(intersection@),
        fits_v(incident@, DIR_MAX as int),
        1 <= refractive_index <= 0x1_0000_0000,
    ensures
        match r {
            Some(pair) => reflect_ray_s(incident@, intersection@, refractive_index as int)
                == Some((pair.0@, pair.1@)) && fits_v(pair.0@, ORIG_MAX as int) && fits_v(
                pair.1@,
                0x80_0000,
            ),
            None => reflect_ray_s(incident@, intersection@, refractive_index as int).is_none(),
        },
{
    let mut normal = intersection.normal;
    proof {
        lemma_dot_s_bound(intersection@.normal, incident@, SCALE as int, DIR_MAX as int);
    }
    let mut c = normal.dot(incident);

    let ratio = if c < 0 {
        refractive_index
    } else {
        div_exec(SCALE, refractive_index)
    };
    proof {
        if c >= 0 {
            crate::fixed::lemma_tdiv_bound(
                SCALE as int * SCALE as int,
                refractive_index as int,
                0x1_0000_0000,
            );
            vstd::arithmetic::div_mod::lemma_div_pos_is_pos(
                SCALE as int * SCALE as int,
                refractive_index as int,
            );
        }
    }

    if c < 0 {
        c = -c;
        normal = normal.neg();
    }

    proof {
        lemma_mul_bound(ratio as int, ratio as int, 0x1_0000_0000, 0x1_0000_0000);
        lemma_mul_fx_bound(ratio as int, ratio as int, 0x1_0000_0000, 0x1_0000_0000);
        lemma_mul_bound(c as int, c as int, 0x40_0000, 0x40_0000);
        lemma_mul_fx_bound(c as int, c as int, 0x40_0000, 0x40_0000);
    }
    let r2 = mul_exec(ratio, ratio);
    let one_minus_c2 = SCALE - mul_exec(c, c);
    proof {
        lemma_mul_bound(r2 as int, one_minus_c2 as int, 0x1_0000_0000_0000, 0x100_0000_0000);
        lemma_mul_fx_bound(r2 as int, one_minus_c2 as int, 0x1_0000_0000_0000, 0x100_0000_0000);
    }
    let cos_theta_2 = SCALE - mul_exec(r2, one_minus_c2);

    if cos_theta_2 > 0 {
        return None;
    }

    let reflected_ray = reflect(incident, normal);
    proof {
        lemma_dot_s_bound(reflected_ray@, intersection@.normal, 0x80_0000, SCALE as int);
        lemma_scale_s_bound(intersection@.normal, RAY_EPS as int, SCALE as int, RAY_EPS as int);
    }
    let offset = intersection.normal.scaled(RAY_EPS);
    let reflection_orig = if reflected_ray.dot(intersection.normal) < 0 {
        intersection.point.minus(offset)
    } else {
        intersection.point.plus(offset)
    };
    Some((reflection_orig, reflected_ray))
}

/// The refracted secondary ray, exactly as `refract_ray_s` states it.
pub fn refract_ray(incident: Vec3, intersection: &Intersection, refractive_index: i128) -> (r:
    Option<(Vec3, Vec3)>)
    requires
        hit_wf(intersection@),
        fits_v(incident@, DIR_MAX as int),
        1 <= refractive_index <= 0x1_0000_0000,
    ensures
        match r {
            Some(pair) => refract_ray_s(incident@, intersection@, refractive_index as int)
                == Some((pair.0@, pair.1@)) && fits_v(pair.0@, ORIG_MAX as int) && fits_v(
                pair.1@,
                SCALE as int,
            ),
            None => refract_ray_s(incident@, intersection@, refractive_index as int).is_none(),
        },
{
    let mut normal = intersection.normal;
    proof {
        lemma_dot_s_bound(intersection@.normal, incident@, SCALE as int, DIR_MAX as int);
    }
    let mut c = -(normal.dot(incident));

    let ratio = if c < 0 {
        refractive_index
    } else {
        div_exec(SCALE, refractive_index)
    };
    proof {
        if c >= 0 {
            crate::fixed::lemma_tdiv_bound(
                SCALE as int * SCALE as int,
                refractive_index as int,
                0x1_0000_0000,
            );
            vstd::arithmetic::div_mod::lemma_div_pos_is_pos(
                SCALE as int * SCALE as int,
                refractive_index as int,
            );
        }
    }

    if c < 0 {
        c = -c;
        normal = normal.neg();
    }

    proof {
        lemma_mul_bound(ratio as int, ratio as int, 0x1_0000_0000, 0x1_0000_0000);
        lemma_mul_fx_bound(ratio as int, ratio as int, 0x1_0000_0000, 0x1_0000_0000);
        lemma_mul_bound(c as int, c as int, 0x40_0000, 0x40_0000);
        lemma_mul_fx_bound(c as int, c as int, 0x40_0000, 0x40_0000);
    }
    let r2 = mul_exec(ratio, ratio);
    let one_minus_c2 = SCALE - mul_exec(c, c);
    proof {
        lemma_mul_bound(r2 as int, one_minus_c2 as int, 0x1_0000_0000_0000, 0x100_0000_0000);
        lemma_mul_fx_bound(r2 as int, one_minus_c2 as int, 0x1_0000_0000_0000, 0x100_0000_0000);
    }
    let cos_theta_2 = SCALE - mul_exec(r2, one_minus_c2);

    if cos_theta_2 < 0 {
        return None;
    }

    let sq = isqrt(cos_theta_2 * SCALE);
    proof {
        lemma_isqrt_s((cos_theta_2 * SCALE) as int);
        lemma_isqrt_unique(
            (cos_theta_2 * SCALE) as int,
            sq as int,
            isqrt_s((cos_theta_2 * SCALE) as int),
        );
        crate::vec3::lemma_sqrt_le(sq as int, 0x10_0000_0000_0000);
        lemma_mul_bound(ratio as int, c as int, 0x1_0000_0000, 0x40_0000);
        lemma_mul_fx_bound(ratio as int, c as int, 0x1_0000_0000, 0x40_0000);
        lemma_scale_s_bound(incident@, ratio as int, DIR_MAX as int, 0x1_0000_0000);
        lemma_scale_s_bound(
            normal@,
            mul_fx(ratio as int, c as int) - sq as int,
            SCALE as int,
            0x20_0000_0000_0000,
        );
    }
    let refracted_ray = incident.scaled(ratio).plus(
        normal.scaled(mul_exec(ratio, c) - sq),
    ).normalized();

    proof {
        lemma_dot_s_bound(refracted_ray@, normal@, SCALE as int, SCALE as int);
        lemma_scale_s_bound(normal@, RAY_EPS as int, SCALE as int, RAY_EPS as int);
    }
    let offset = normal.scaled(RAY_EPS);
    let refract_orig = if refracted_ray.dot(normal) > 0 {
        intersection.point.plus(offset)
    } else {
        intersection.point.minus(offset)
    };
    Some((refract_orig, refracted_ray))
}

/// The raw (unrounded) mirror reflection, at three powers of the scale.
pub open spec fn reflect_raw(d: V3, n: V3) -> V3 {
    V3 {
        x: d.x * (SCALE as int * SCALE as int) - 2 * dot_raw(d, n) * n.x,
        y: d.y * (SCALE as int * SCALE as int) - 2 * dot_raw(d, n) * n.y,
        z: d.z * (SCALE as int * SCALE as int) - 2 * dot_raw(d, n) * n.z,
    }
}

/// The law of reflection, over the raw model where it holds exactly: for
/// unit `d` and unit `n`, the reflected direction makes the opposite angle
/// with the normal and keeps unit length.
pub proof fn lemma_reflection_law(d: V3, n: V3)
    requires
        dot_raw(n, n) == SCALE as int * SCALE as int,
        dot_raw(d, d) == SCALE as int * SCALE as int,
    ensures
        dot_raw(reflect_raw(d, n), n) == -(SCALE as int * SCALE as int * dot_raw(d, n)),
        dot_raw(reflect_raw(d, n), reflect_raw(d, n)) == SCALE as int * SCALE as int * (SCALE
            as int * SCALE as int) * (SCALE as int * SCALE as int),
{
    let s2 = SCALE as int * SCALE as int;
    let k = dot_raw(d, n);
    let r = reflect_raw(d, n);
    let rx = d.x * s2 - 2 * k * n.x;
    let ry = d.y * s2 - 2 * k * n.y;
    let rz = d.z * s2 - 2 * k * n.z;
    assert(r.x == rx && r.y == ry && r.z == rz);

    assert(rx * n.x == s2 * (d.x * n.x) - 2 * (k * (n.x * n.x))) by (nonlinear_arith)
        requires
            rx == d.x * s2 - 2 * k * n.x,
    ;
    assert(ry * n.y == s2 * (d.y * n.y) - 2 * (k * (n.y * n.y))) by (nonlinear_arith)
        requires
            ry == d.y * s2 - 2 * k * n.y,
    ;
    assert(rz * n.z == s2 * (d.z * n.z) - 2 * (k * (n.z * n.z))) by (nonlinear_arith)
        requires
            rz == d.z * s2 - 2 * k * n.z,
    ;
    assert(s2 * (d.x * n.x) + s2 * (d.y * n.y) + s2 * (d.z * n.z) == s2 * k) by (nonlinear_arith)
        requires
            k == d.x * n.x + d.y * n.y + d.z * n.z,
    ;
    assert(k * (n.x * n.x) + k * (n.y * n.y) + k * (n.z * n.z) == k * s2) by (nonlinear_arith)
        requires
            n.x * n.x + n.y * n.y + n.z * n.z == s2,
    ;
    assert(s2 * k - 2 * (k * s2) == -(s2 * k)) by (nonlinear_arith);
    assert(dot_raw(r, n) == -(s2 * k));

    let ax = d.x * s2;
    let bx = 2 * k * n.x;
    assert(rx * rx == ax * ax - 2 * (ax * bx) + bx * bx) by (nonlinear_arith)
        requires
            rx == ax - bx,
    ;
    assert(ax * ax == s2 * (s2 * (d.x * d.x))) by (nonlinear_arith)
        requires
            ax == d.x * s2,
    ;
    assert(ax * bx == 2 * (k * (s2 * (d.x * n.x)))) by (nonlinear_arith)
        requires
            ax == d.x * s2,
            bx == 2 * k * n.x,
    ;
    assert(bx * bx == 4 * ((k * k) * (n.x * n.x))) by (nonlinear_arith)
        requires
            bx == 2 * k * n.x,
    ;
    assert(rx * rx == s2 * (s2 * (d.x * d.x)) - 4 * (k * (s2 * (d.x * n.x))) + 4 * ((k * k) * (
    n.x * n.x)));
    let ay = d.y * s2;
    let by = 2 * k * n.y;
    assert(ry * ry == ay * ay - 2 * (ay * by) + by * by) by (nonlinear_arith)
        requires
            ry == ay - by,
    ;
    assert(ay * ay == s2 * (s2 * (d.y * d.y))) by (nonlinear_arith)
        requires
            ay == d.y * s2,
    ;
    assert(ay * by == 2 * (k * (s2 * (d.y * n.y)))) by (nonlinear_arith)
        requires
            ay == d.y * s2,
            by == 2 * k * n.y,
    ;
    assert(by * by == 4 * ((k * k) * (n.y * n.y))) by (nonlinear_arith)
        requires
            by == 2 * k * n.y,
    ;
    assert(ry * ry == s2 * (s2 * (d.y * d.y)) - 4 * (k * (s2 * (d.y * n.y))) + 4 * ((k * k) * (
    n.y * n.y)));
    let az = d.z * s2;
    let bz = 2 * k * n.z;
    assert(rz * rz == az * az - 2 * (az * bz) + bz * bz) by (nonlinear_arith)
        requires
            rz == az - bz,
    ;
    assert(az * az == s2 * (s2 * (d.z * d.z))) by (nonlinear_arith)
        requires
            az == d.z * s2,
    ;
    assert(az * bz == 2 * (k * (s2 * (d.z * n.z)))) by (nonlinear_arith)
        requires
            az == d.z * s2,
            bz == 2 * k * n.z,
    ;
    assert(bz * bz == 4 * ((k * k) * (n.z * n.z))) by (nonlinear_arith)
        requires
            bz == 2 * k * n.z,
    ;
    assert(rz * rz == s2 * (s2 * (d.z * d.z)) - 4 * (k * (s2 * (d.z * n.z))) + 4 * ((k * k) * (
    n.z * n.z)));
    assert(s2 * (s2 * (d.x * d.x)) + s2 * (s2 * (d.y * d.y)) + s2 * (s2 * (d.z * d.z)) == s2 * (
    s2 * s2)) by (nonlinear_arith)
        requires
            d.x * d.x + d.y * d.y + d.z * d.z == s2,
    ;
    assert(k * (s2 * (d.x * n.x)) + k * (s2 * (d.y * n.y)) + k * (s2 * (d.z * n.z)) == k * (s2
        * k)) by (nonlinear_arith)
        requires
            k == d.x * n.x + d.y * n.y + d.z * n.z,
    ;
    assert((k * k) * (n.x * n.x) + (k * k) * (n.y * n.y) + (k * k) * (n.z * n.z) == (k * k)
        * s2) by (nonlinear_arith)
        requires
            n.x * n.x + n.y * n.y + n.z * n.z == s2,
    ;
    assert(s2 * (s2 * s2) - 4 * (k * (s2 * k)) + 4 * ((k * k) * s2) == s2 * s2 * (s2))
        by (nonlinear_arith);
    assert(dot_raw(r, r) == s2 * s2 * (s2));
}

} // verus!
