//! The triangle primitive: plane intersection followed by the
//! counter-clockwise inside test on the z-component of the edge cross
//! products (the convention of the polygon module as well).

use vstd::prelude::*;

use crate::fixed::SCALE;
use crate::fixed::div_exec;
use crate::fixed::div_trunc;
use crate::fixed::div_fx;
use crate::fixed::tdiv;
use crate::shapes::COORD_MAX;
use crate::shapes::DIR_MAX;
use crate::shapes::HitM;
use crate::shapes::Intersection;
use crate::shapes::ORIG_MAX;
use crate::shapes::Reflectance;
use crate::shapes::default_refl_s;
use crate::shapes::hit_wf;
use crate::fixed::lemma_tdiv_bound;
use crate::vec3::V3;
use crate::vec3::Vec3;
use crate::vec3::add_s;
use crate::vec3::cross_raw;
use crate::vec3::cross_s;
use crate::vec3::dot_s;
use crate::vec3::fits_chk;
use crate::vec3::fits_v;
use crate::vec3::lemma_cross_s_bound;
use crate::vec3::lemma_dot_s_bound;
use crate::vec3::lemma_scale_s_bound;
use crate::vec3::normalized_s;
use crate::vec3::scale_s;
use crate::vec3::sub_s;

verus! {

/// The mathematical model of a triangle.
pub struct TriM {
    pub vertices: Seq<V3>,
    pub normal: V3,
    pub center: V3,
}

/// A triangle: three ordered vertices with a precomputed unit plane normal
/// and centroid.  Counter-clockwise winding defines the front face.
#[derive(Clone, Debug)]
pub struct Triangle {
    pub vertices: Vec<Vec3>,
    pub normal: Vec3,
    pub center: Vec3,
}

impl View for Triangle {
    type V = TriM;

    open spec fn view(&self) -> TriM {
        TriM {
            vertices: self.vertices@.map_values(|v: Vec3| v@),
            normal: self.normal@,
            center: self.center@,
        }
    }
}

pub open spec fn tri_wf(t: TriM) -> bool {
    &&& t.vertices.len() == 3
    &&& forall|i: int| 0 <= i < 3 ==> fits_v(#[trigger] t.vertices[i], COORD_MAX as int)
    &&& fits_v(t.normal, SCALE as int)
    &&& fits_v(t.center, COORD_MAX as int)
}

/// The centroid of three vertices, each coordinate divided by three.
pub open spec fn centroid_s(a: V3, b: V3, c: V3) -> V3 {
    V3 {
        x: tdiv(a.x + b.x + c.x, 3),
        y: tdiv(a.y + b.y + c.y, 3),
        z: tdiv(a.z + b.z + c.z, 3),
    }
}

/// The unit plane normal: the normalized cross product of two consecutive
/// edges.
pub open spec fn tri_normal_s(a: V3, b: V3, c: V3) -> V3 {
    normalized_s(cross_s(sub_s(b, a), sub_s(c, b)))
}

/// The triangle a `create` call builds from three vertices.
pub open spec fn tri_make_s(a: V3, b: V3, c: V3) -> TriM {
    TriM { vertices: seq![a, b, c], normal: tri_normal_s(a, b, c), center: centroid_s(a, b, c) }
}

/// The counter-clockwise test: the z-component of the cross product of the
/// two edge vectors from `a` is positive.
pub open spec fn inside_s(a: V3, p1: V3, p2: V3) -> bool {
    cross_s(sub_s(p1, a), sub_s(p2, a)).z > 0
}

/// The ray/triangle intersection.
///
/// The ray meets the supporting plane at parameter `dist`; a zero
/// direction/normal product (anything smaller than one fixed-point unit
/// truncates to zero) counts as parallel, and a non-positive `dist` as
/// going away.  The plane point must then pass the inside test against all
/// three edges.  A point outside the coordinate range is a numeric
/// degeneracy and is discarded.
pub open spec fn tri_hit_s(t: TriM, orig: V3, dir: V3) -> Option<HitM> {
    let dp = dot_s(dir, t.normal);
    if dp == 0 {
        None
    } else {
        let dist = div_fx(dot_s(sub_s(t.center, orig), t.normal), dp);
        if dist <= 0 {
            None
        } else {
            let q = add_s(orig, scale_s(dir, dist));
            if !fits_v(q, COORD_MAX as int) {
                None
            } else if !(inside_s(q, t.vertices[0], t.vertices[1]) && inside_s(
                q,
                t.vertices[1],
                t.vertices[2],
            ) && inside_s(q, t.vertices[2], t.vertices[0])) {
                None
            } else {
                Some(HitM { point: q, normal: t.normal, reflectance: default_refl_s() })
            }
        }
    }
}

/// Executable counter-clockwise test.
pub fn inside(a: Vec3, p1: Vec3, p2: Vec3) -> (r: bool)
    requires
        fits_v(a@, COORD_MAX as int),
        fits_v(p1@, COORD_MAX as int),
        fits_v(p2@, COORD_MAX as int),
    ensures
        r == inside_s(a@, p1@, p2@),
{
    p1.minus(a).cross(p2.minus(a)).z > 0
}

impl Triangle {
    /// A triangle from exactly three vertices; the plane normal and the
    /// centroid are precomputed here.
    pub fn create(vertices: Vec<Vec3>) -> (r: Triangle)
        requires
            vertices@.len() == 3,
            forall|i: int| 0 <= i < 3 ==> fits_v(#[trigger] vertices@[i]@, COORD_MAX as int),
        ensures
            r@ == tri_make_s(vertices@[0]@, vertices@[1]@, vertices@[2]@),
            tri_wf(r@),
    {
        let v0 = vertices[0];
        let v1 = vertices[1];
        let v2 = vertices[2];
        proof {
            lemma_tdiv_bound(v0@.x + v1@.x + v2@.x, 3, 3 * COORD_MAX as int);
            lemma_tdiv_bound(v0@.y + v1@.y + v2@.y, 3, 3 * COORD_MAX as int);
            lemma_tdiv_bound(v0@.z + v1@.z + v2@.z, 3, 3 * COORD_MAX as int);
            lemma_cross_s_bound(
                sub_s(v1@, v0@),
                sub_s(v2@, v1@),
                2 * COORD_MAX as int,
                2 * COORD_MAX as int,
            );
        }
        let mean = Vec3 {
            x: div_trunc(v0.x + v1.x + v2.x, 3),
            y: div_trunc(v0.y + v1.y + v2.y, 3),
            z: div_trunc(v0.z + v1.z + v2.z, 3),
        };
        let edge_1 = v1.minus(v0);
        let edge_2 = v2.minus(v1);
        let normal = edge_1.cross(edge_2).normalized();
        let r = Triangle { vertices, normal, center: mean };
        proof {
            assert(r@.vertices =~= seq![v0@, v1@, v2@]);
        }
        r
    }

    /// Translate the triangle: every vertex and the centroid move by `off`.
    pub fn offset(&mut self, off: Vec3)
        requires
            fits_v(off@, COORD_MAX as int),
            old(self)@.vertices.len() == 3,
            forall|i: int| 0 <= i < 3 ==> fits_v(
                #[trigger] add_s(old(self)@.vertices[i], off@),
                COORD_MAX as int,
            ),
            fits_v(old(self)@.center, COORD_MAX as int),
            fits_v(add_s(old(self)@.center, off@), COORD_MAX as int),
            forall|i: int| 0 <= i < 3 ==> fits_v(#[trigger] old(self)@.vertices[i], COORD_MAX as int),
        ensures
            final(self)@.vertices =~= old(self)@.vertices.map_values(|v: V3| add_s(v, off@)),
            final(self)@.center == add_s(old(self)@.center, off@),
            final(self)@.normal == old(self)@.normal,
    {
        self.center = self.center.plus(off);
        let mut i: usize = 0;
        while i < self.vertices.len()
            invariant
                self.vertices@.len() == 3,
                0 <= i <= 3,
                fits_v(off@, COORD_MAX as int),
                self@.center == add_s(old(self)@.center, off@),
                self@.normal == old(self)@.normal,
                forall|k: int| 0 <= k < 3 ==> fits_v(#[trigger] old(self)@.vertices[k], COORD_MAX as int),
                forall|k: int| 0 <= k < 3 ==> fits_v(
                    #[trigger] add_s(old(self)@.vertices[k], off@),
                    COORD_MAX as int,
                ),
                forall|k: int| 0 <= k < i ==> self@.vertices[k] == add_s(
                    #[trigger] old(self)@.vertices[k],
                    off@,
                ),
                forall|k: int| i <= k < 3 ==> self@.vertices[k] == #[trigger] old(
                    self,
                )@.vertices[k],
            decreases 3 - i,
        {
            proof {
                assert(self.vertices@[i as int]@ == self@.vertices[i as int]);
                assert(self@.vertices[i as int] == old(self)@.vertices[i as int]);
            }
            let v = self.vertices[i].plus(off);
            self.vertices.set(i, v);
            i = i + 1;
        }
        proof {
            assert(final(self)@.vertices =~= old(self)@.vertices.map_values(
                |v: V3| add_s(v, off@),
            ));
        }
    }

    /// Scale every vertex by the fixed-point factor `s`; the centroid and
    /// normal are left as they are.
    pub fn scale(&mut self, s: i128)
        requires
            -crate::vec3::GEOM_MAX <= s <= crate::vec3::GEOM_MAX,
            old(self)@.vertices.len() == 3,
            forall|i: int| 0 <= i < 3 ==> fits_v(#[trigger] old(self)@.vertices[i], COORD_MAX as int),
            forall|i: int| 0 <= i < 3 ==> fits_v(
                #[trigger] scale_s(old(self)@.vertices[i], s as int),
                COORD_MAX as int,
            ),
        ensures
            final(self)@.vertices =~= old(self)@.vertices.map_values(
                |v: V3| scale_s(v, s as int),
            ),
            final(self)@.center == old(self)@.center,
            final(self)@.normal == old(self)@.normal,
    {
        let mut i: usize = 0;
        while i < self.vertices.len()
            invariant
                self.vertices@.len() == 3,
                0 <= i <= 3,
                -crate::vec3::GEOM_MAX <= s <= crate::vec3::GEOM_MAX,
                self@.center == old(self)@.center,
                self@.normal == old(self)@.normal,
                forall|k: int| 0 <= k < 3 ==> fits_v(#[trigger] old(self)@.vertices[k], COORD_MAX as int),
                forall|k: int| 0 <= k < i ==> self@.vertices[k] == scale_s(
                    #[trigger] old(self)@.vertices[k],
                    s as int,
                ),
                forall|k: int| i <= k < 3 ==> self@.vertices[k] == #[trigger] old(
                    self,
                )@.vertices[k],
            decreases 3 - i,
        {
            proof {
                assert(self.vertices@[i as int]@ == self@.vertices[i as int]);
                assert(self@.vertices[i as int] == old(self)@.vertices[i as int]);
            }
            let v = self.vertices[i].scaled(s);
            self.vertices.set(i, v);
            i = i + 1;
        }
        proof {
            assert(final(self)@.vertices =~= old(self)@.vertices.map_values(
                |v: V3| scale_s(v, s as int),
            ));
        }
    }

    /// The nearest intersection of the ray with the triangle, exactly as
    /// `tri_hit_s` states it.  The material handed back is the default one;
    /// a mesh replaces it with its own per-triangle material.
    pub fn intersect(&self, orig: &Vec3, dir: &Vec3) -> (r: Option<Intersection>)
        requires
            tri_wf(self@),
            fits_v(orig@, ORIG_MAX as int),
            fits_v(dir@, DIR_MAX as int),
        ensures
            match r {
                Some(hit) => tri_hit_s(self@, orig@, dir@) == Some(hit@) && hit_wf(hit@),
                None => tri_hit_s(self@, orig@, dir@).is_none(),
            },
    {
        proof {
            lemma_dot_s_bound(dir@, self@.normal, DIR_MAX as int, SCALE as int);
        }
        let dot_product = dir.dot(self.normal);
        if dot_product == 0 {
            return None;
        }
        proof {
            lemma_dot_s_bound(sub_s(self@.center, orig@), self@.normal, 0x2_0000_0000, SCALE as int);
        }
        let num = self.center.minus(*orig).dot(self.normal);
        let dist = div_exec(num, dot_product);
        if dist <= 0 {
            return None;
        }
        proof {
            let m: int = 0x10_0000_0000_0000;
            if dot_product >= 0 {
                lemma_tdiv_bound(num as int * SCALE as int, dot_product as int, m);
                vstd::arithmetic::div_mod::lemma_div_nonincreasing(m, dot_product as int);
            } else {
                lemma_tdiv_bound(-(num as int * SCALE as int), -(dot_product as int), m);
                vstd::arithmetic::div_mod::lemma_div_nonincreasing(m, -(dot_product as int));
            }
            lemma_scale_s_bound(dir@, dist as int, DIR_MAX as int, 0x10_0000_0000_0000);
        }
        let q = orig.plus(dir.scaled(dist));
        if !fits_chk(&q, COORD_MAX) {
            return None;
        }
        if !inside(q, self.vertices[0], self.vertices[1]) {
            return None;
        }
        if !inside(q, self.vertices[1], self.vertices[2]) {
            return None;
        }
        if !inside(q, self.vertices[2], self.vertices[0]) {
            return None;
        }
        Some(Intersection { point: q, normal: self.normal, reflectance: Reflectance::create_default() })
    }
}

/// The triangle translated by `off`: every vertex and the centroid move,
/// the normal stays.
pub open spec fn tri_offset_s(t: TriM, off: V3) -> TriM {
    TriM {
        vertices: t.vertices.map_values(|v: V3| add_s(v, off)),
        normal: t.normal,
        center: add_s(t.center, off),
    }
}

/// Whether the translated triangle stays in coordinate range.
pub open spec fn tri_offset_ok(t: TriM, off: V3) -> bool {
    &&& fits_v(add_s(t.center, off), COORD_MAX as int)
    &&& forall|k: int| 0 <= k < t.vertices.len() ==> fits_v(
        #[trigger] add_s(t.vertices[k], off),
        COORD_MAX as int,
    )
}

/// The triangle with every vertex scaled by `s`: the centroid and the
/// normal stay as they are.
pub open spec fn tri_scale_s(t: TriM, s: int) -> TriM {
    TriM {
        vertices: t.vertices.map_values(|v: V3| scale_s(v, s)),
        normal: t.normal,
        center: t.center,
    }
}

/// Whether the scaled triangle stays in coordinate range.
pub open spec fn tri_scale_ok(t: TriM, s: int) -> bool {
    forall|k: int| 0 <= k < t.vertices.len() ==> fits_v(
        #[trigger] scale_s(t.vertices[k], s),
        COORD_MAX as int,
    )
}

impl Triangle {
    /// A translated copy, or nothing when a coordinate would leave its
    /// range.
    pub fn try_offsetted(&self, off: Vec3) -> (r: Option<Triangle>)
        requires
            tri_wf(self@),
            fits_v(off@, COORD_MAX as int),
        ensures
            match r {
                Some(t2) => tri_offset_ok(self@, off@) && t2@ == tri_offset_s(self@, off@)
                    && tri_wf(t2@),
                None => !tri_offset_ok(self@, off@),
            },
    {
        let center = self.center.plus(off);
        if !fits_chk(&center, COORD_MAX) {
            return None;
        }
        let mut vertices: Vec<Vec3> = Vec::new();
        let mut i: usize = 0;
        while i < self.vertices.len()
            invariant
                tri_wf(self@),
                fits_v(off@, COORD_MAX as int),
                0 <= i <= 3,
                self.vertices@.len() == 3,
                vertices@.len() == i,
                forall|k: int| 0 <= k < i ==> #[trigger] vertices@[k]@ == add_s(
                    self@.vertices[k],
                    off@,
                ),
                forall|k: int| 0 <= k < i ==> fits_v(
                    #[trigger] add_s(self@.vertices[k], off@),
                    COORD_MAX as int,
                ),
            decreases 3 - i,
        {
            proof {
                assert(self.vertices@[i as int]@ == self@.vertices[i as int]);
            }
            let v = self.vertices[i].plus(off);
            if !fits_chk(&v, COORD_MAX) {
                return None;
            }
            vertices.push(v);
            i = i + 1;
        }
        let t2 = Triangle { vertices, normal: self.normal, center };
        proof {
            assert(t2@.vertices =~= self@.vertices.map_values(|v: V3| add_s(v, off@)));
        }
        Some(t2)
    }

    /// A scaled copy, or nothing when a coordinate would leave its range.
    pub fn try_scaled(&self, s: i128) -> (r: Option<Triangle>)
        requires
            tri_wf(self@),
            -crate::vec3::GEOM_MAX <= s <= crate::vec3::GEOM_MAX,
        ensures
            match r {
                Some(t2) => tri_scale_ok(self@, s as int) && t2@ == tri_scale_s(self@, s as int)
                    && tri_wf(t2@),
                None => !tri_scale_ok(self@, s as int),
            },
    {
        let mut vertices: Vec<Vec3> = Vec::new();
        let mut i: usize = 0;
        while i < self.vertices.len()
            invariant
                tri_wf(self@),
                -crate::vec3::GEOM_MAX <= s <= crate::vec3::GEOM_MAX,
                0 <= i <= 3,
                self.vertices@.len() == 3,
                vertices@.len() == i,
                forall|k: int| 0 <= k < i ==> #[trigger] vertices@[k]@ == scale_s(
                    self@.vertices[k],
                    s as int,
                ),
                forall|k: int| 0 <= k < i ==> fits_v(
                    #[trigger] scale_s(self@.vertices[k], s as int),
                    COORD_MAX as int,
                ),
            decreases 3 - i,
        {
            proof {
                assert(self.vertices@[i as int]@ == self@.vertices[i as int]);
            }
            let v = self.vertices[i].scaled(s);
            if !fits_chk(&v, COORD_MAX) {
                return None;
            }
            vertices.push(v);
            i = i + 1;
        }
        let t2 = Triangle { vertices, normal: self.normal, center: self.center };
        proof {
            assert(t2@.vertices =~= self@.vertices.map_values(|v: V3| scale_s(v, s as int)));
        }
        Some(t2)
    }
}

/// Winding independence: a cyclic rotation of the vertices yields the same
/// centroid, the same plane normal, and the same intersection for every
/// ray.  In this exact arithmetic the agreement is not merely within a
/// tolerance but literal.
pub proof fn lemma_winding_independence(a: V3, b: V3, c: V3, orig: V3, dir: V3)
    ensures
        tri_make_s(b, c, a).normal == tri_make_s(a, b, c).normal,
        tri_make_s(b, c, a).center == tri_make_s(a, b, c).center,
        tri_hit_s(tri_make_s(b, c, a), orig, dir) == tri_hit_s(tri_make_s(a, b, c), orig, dir),
{
    assert(cross_raw(sub_s(b, a), sub_s(c, b)) == cross_raw(sub_s(c, b), sub_s(a, c)))
        by (nonlinear_arith);
    assert(cross_s(sub_s(b, a), sub_s(c, b)) == cross_s(sub_s(c, b), sub_s(a, c)));
    let t1 = tri_make_s(a, b, c);
    let t2 = tri_make_s(b, c, a);
    assert(t2.normal == t1.normal);
    assert(t2.center == t1.center);
    let dp = dot_s(dir, t1.normal);
    if dp != 0 {
        let dist = div_fx(dot_s(sub_s(t1.center, orig), t1.normal), dp);
        if dist > 0 {
            let q = add_s(orig, scale_s(dir, dist));
            assert(t1.vertices[0] == a && t1.vertices[1] == b && t1.vertices[2] == c);
            assert(t2.vertices[0] == b && t2.vertices[1] == c && t2.vertices[2] == a);
        }
    }
}

} // verus!
