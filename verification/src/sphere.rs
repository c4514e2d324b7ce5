//! The sphere primitive and its ray intersection by the classic quadratic
//! solve.

use vstd::prelude::*;

use crate::fixed::SCALE;
use crate::fixed::isqrt;
use crate::fixed::lemma_mul_bound;
use crate::fixed::lemma_tdiv_mul_cancel;
use crate::fixed::mul_exec;
use crate::fixed::mul_fx;
use crate::shapes::BBoxM;
use crate::shapes::BoundingBox;
use crate::shapes::COORD_MAX;
use crate::shapes::DIR_MAX;
use crate::shapes::HitM;
use crate::shapes::Intersection;
use crate::shapes::ORIG_MAX;
use crate::shapes::RADIUS2_MAX;
use crate::shapes::Reflectance;
use crate::shapes::ReflM;
use crate::shapes::bbox_wf;
use crate::shapes::hit_wf;
use crate::shapes::refl_wf;
use crate::vec3::V3;
use crate::vec3::Vec3;
use crate::vec3::add_s;
use crate::vec3::dot_s;
use crate::vec3::fits_chk;
use crate::vec3::fits_v;
use crate::vec3::isqrt_s;
use crate::vec3::lemma_dot_s_bound;
use crate::vec3::lemma_isqrt_s;
use crate::vec3::lemma_isqrt_unique;
use crate::vec3::lemma_mul_fx_bound;
use crate::vec3::lemma_scale_s_bound;
use crate::vec3::lemma_sqrt_le;
use crate::vec3::normalized_s;
use crate::vec3::scale_s;
use crate::vec3::sub_s;

verus! {

/// The mathematical model of a sphere.
pub struct SphereM {
    pub center: V3,
    pub radius_square: int,
    pub reflectance: ReflM,
    pub bounding_box: BBoxM,
}

/// A sphere, stored by its center and squared radius.
#[derive(Debug, Clone)]
pub struct Sphere {
    pub center: Vec3,
    pub radius_square: i128,
    pub reflectance: Reflectance,
    pub bounding_box: BoundingBox,
}

impl View for Sphere {
    type V = SphereM;

    open spec fn view(&self) -> SphereM {
        SphereM {
            center: self.center@,
            radius_square: self.radius_square as int,
            reflectance: self.reflectance@,
            bounding_box: self.bounding_box@,
        }
    }
}

pub open spec fn sphere_wf(s: SphereM) -> bool {
    &&& fits_v(s.center, COORD_MAX as int)
    &&& 0 < s.radius_square <= RADIUS2_MAX as int
    &&& refl_wf(s.reflectance)
    &&& bbox_wf(s.bounding_box)
}

/// The nearest positive-parameter intersection of a ray with a sphere.
///
/// With `line` from the origin to the center, `tca` is the parameter of the
/// closest approach and `d2` the squared distance from the center to the
/// ray; the ray misses when `d2` exceeds the squared radius, and otherwise
/// hits at `tca` minus or plus the half-chord.  A hit whose point leaves the
/// coordinate range is treated as a numeric degeneracy and discarded.
pub open spec fn sphere_hit_s(s: SphereM, orig: V3, dir: V3) -> Option<HitM> {
    let line = sub_s(s.center, orig);
    let tca = dot_s(line, dir);
    let d2 = dot_s(line, line) - mul_fx(tca, tca);
    if d2 > s.radius_square {
        None
    } else {
        let thc = isqrt_s((s.radius_square - d2) * SCALE as int);
        let t0 = if tca - thc > 0 {
            tca - thc
        } else {
            tca + thc
        };
        if t0 <= 0 {
            None
        } else {
            let point = add_s(orig, scale_s(dir, t0));
            if !fits_v(point, COORD_MAX as int) {
                None
            } else {
                Some(
                    HitM {
                        point,
                        normal: normalized_s(sub_s(point, s.center)),
                        reflectance: s.reflectance,
                    },
                )
            }
        }
    }
}

/// The sphere a `create` call builds.
pub open spec fn sphere_make_s(center: V3, radius: int, refl: ReflM) -> SphereM {
    SphereM {
        center,
        radius_square: mul_fx(radius, radius),
        reflectance: refl,
        bounding_box: BBoxM {
            min: sub_s(center, V3 { x: radius, y: radius, z: radius }),
            max: add_s(center, V3 { x: radius, y: radius, z: radius }),
        },
    }
}

/// A sphere from its center, radius and material.  The radius spans at
/// least a few fixed-point units so that its square does not truncate to
/// zero, and the bounding box stays in coordinate range.
pub fn create(center: Vec3, radius: i128, reflectance: Reflectance) -> (r: Sphere)
    requires
        256 <= radius <= COORD_MAX,
        fits_v(center@, COORD_MAX - radius),
        refl_wf(reflectance@),
    ensures
        r@ == sphere_make_s(center@, radius as int, reflectance@),
        sphere_wf(r@),
{
    proof {
        lemma_mul_bound(radius as int, radius as int, COORD_MAX as int, COORD_MAX as int);
        lemma_mul_fx_bound(radius as int, radius as int, COORD_MAX as int, COORD_MAX as int);
        assert(65536 <= radius * radius) by (nonlinear_arith)
            requires
                256 <= radius,
        ;
        assert(mul_fx(radius as int, radius as int) >= 1) by {
            lemma_tdiv_mul_cancel(1, SCALE as int);
            crate::fixed::lemma_tdiv_mono(SCALE as int, radius as int * radius as int, SCALE as int);
        };
        lemma_tdiv_mul_cancel(radius as int, SCALE as int);
        assert(SCALE as int * radius as int == radius as int * SCALE as int) by (nonlinear_arith);
    }
    let extent = Vec3::ones().scaled(radius);
    Sphere {
        center,
        radius_square: mul_exec(radius, radius),
        reflectance,
        bounding_box: BoundingBox { min: center.minus(extent), max: center.plus(extent) },
    }
}

impl Sphere {
    /// The nearest intersection of the ray with the sphere, exactly as
    /// `sphere_hit_s` states it.
    pub fn intersect(&self, orig: &Vec3, dir: &Vec3) -> (r: Option<Intersection>)
        requires
            sphere_wf(self@),
            fits_v(orig@, ORIG_MAX as int),
            fits_v(dir@, DIR_MAX as int),
        ensures
            match r {
                Some(hit) => sphere_hit_s(self@, orig@, dir@) == Some(hit@) && hit_wf(hit@),
                None => sphere_hit_s(self@, orig@, dir@).is_none(),
            },
    {
        let line = self.center.minus(*orig);
        proof {
            lemma_dot_s_bound(line@, dir@, 0x1_0000_0000, DIR_MAX as int);
            lemma_dot_s_bound(line@, line@, 0x1_0000_0000, 0x1_0000_0000);
        }
        let tca = line.dot(*dir);
        proof {
            lemma_mul_bound(tca as int, tca as int, 0x18_0000_0000, 0x18_0000_0000);
            lemma_mul_fx_bound(tca as int, tca as int, 0x18_0000_0000, 0x18_0000_0000);
        }
        let tca2 = mul_exec(tca, tca);
        let d2 = line.dot(line) - tca2;

        if d2 > self.radius_square {
            return None;
        }
        let thc = isqrt((self.radius_square - d2) * SCALE);
        proof {
            lemma_isqrt_s(((self.radius_square - d2) * SCALE) as int);
            lemma_isqrt_unique(
                ((self.radius_square - d2) * SCALE) as int,
                thc as int,
                isqrt_s(((self.radius_square - d2) * SCALE) as int),
            );
            lemma_sqrt_le(thc as int, 0x80_0000_0000);
        }

        let mut t0 = tca - thc;
        if t0 <= 0 {
            t0 = tca + thc;
        }
        if t0 <= 0 {
            return None;
        }

        proof {
            lemma_scale_s_bound(dir@, t0 as int, DIR_MAX as int, 0x100_0000_0000);
        }
        let point = orig.plus(dir.scaled(t0));
        if !fits_chk(&point, COORD_MAX) {
            return None;
        }
        Some(
            Intersection {
                point,
                normal: point.minus(self.center).normalized(),
                reflectance: self.reflectance,
            },
        )
    }

    pub fn bounding_box(&self) -> (r: BoundingBox)
        ensures
            r@ == self@.bounding_box,
    {
        self.bounding_box.clone()
    }
}

} // verus!
