//! A planar convex polygon, counter-clockwise, with the same plane
//! intersection and edge test as the triangle, cycled over all vertex
//! pairs.

use vstd::prelude::*;

use crate::fixed::SCALE;
use crate::fixed::div_exec;
use crate::fixed::div_fx;
use crate::fixed::div_trunc;
use crate::fixed::lemma_tdiv_bound;
use crate::fixed::tdiv;
use crate::shapes::BBoxM;
use crate::shapes::BoundingBox;
use crate::shapes::COORD_MAX;
use crate::shapes::DIR_MAX;
use crate::shapes::HitM;
use crate::shapes::Intersection;
use crate::shapes::ORIG_MAX;
use crate::shapes::Reflectance;
use crate::shapes::ReflM;
use crate::shapes::bbox_wf;
use crate::shapes::hit_wf;
use crate::shapes::refl_wf;
use crate::shapes::vmax_s;
use crate::shapes::vmin_s;
use crate::triangle::inside;
use crate::triangle::inside_s;
use crate::triangle::tri_normal_s;
use crate::vec3::V3;
use crate::vec3::Vec3;
use crate::vec3::add_s;
use crate::vec3::dot_s;
use crate::vec3::fits_chk;
use crate::vec3::fits_v;
use crate::vec3::lemma_cross_s_bound;
use crate::vec3::lemma_dot_s_bound;
use crate::vec3::lemma_scale_s_bound;
use crate::vec3::scale_s;
use crate::vec3::sub_s;
use crate::vec3::zero_s;

verus! {

/// Most vertices a polygon may carry.
pub const POLY_MAX_VERTICES: usize = 65536;

/// The mathematical model of a convex polygon.
pub struct PolyM {
    pub vertices: Seq<V3>,
    pub reflectance: ReflM,
    pub plane_normal: V3,
    pub plane_point: V3,
    pub bounding_box: BBoxM,
}

/// A planar convex polygon with at least three vertices, counter-clockwise
/// when seen from the front face.
#[derive(Clone, Debug)]
pub struct ConvexPolygon {
    pub vertices: Vec<Vec3>,
    pub reflectance: Reflectance,
    pub plane_normal: Vec3,
    pub plane_point: Vec3,
    pub bounding_box: BoundingBox,
}

impl View for ConvexPolygon {
    type V = PolyM;

    open spec fn view(&self) -> PolyM {
        PolyM {
            vertices: self.vertices@.map_values(|v: Vec3| v@),
            reflectance: self.reflectance@,
            plane_normal: self.plane_normal@,
            plane_point: self.plane_point@,
            bounding_box: self.bounding_box@,
        }
    }
}

pub open spec fn poly_wf(p: PolyM) -> bool {
    &&& 3 <= p.vertices.len() <= POLY_MAX_VERTICES
    &&& forall|i: int| 0 <= i < p.vertices.len() ==> fits_v(
        #[trigger] p.vertices[i],
        COORD_MAX as int,
    )
    &&& refl_wf(p.reflectance)
    &&& fits_v(p.plane_normal, SCALE as int)
    &&& fits_v(p.plane_point, COORD_MAX as int)
    &&& bbox_wf(p.bounding_box)
}

/// The sum of the first `i` vertices.
pub open spec fn vsum_upto(vs: Seq<V3>, i: int) -> V3
    decreases i,
{
    if i <= 0 {
        zero_s()
    } else {
        add_s(vsum_upto(vs, i - 1), vs[i - 1])
    }
}

/// The bounding box of a point set: the box around the first vertex grown
/// by the first `i` vertices in turn.
pub open spec fn bbox_upto(vs: Seq<V3>, i: int) -> BBoxM
    decreases i,
{
    if i <= 0 {
        BBoxM { min: vs[0], max: vs[0] }
    } else {
        let b = bbox_upto(vs, i - 1);
        BBoxM { min: vmin_s(b.min, vs[i - 1]), max: vmax_s(b.max, vs[i - 1]) }
    }
}

/// The mean of the vertices, each coordinate divided by the count.
pub open spec fn poly_center_s(vs: Seq<V3>) -> V3 {
    let s = vsum_upto(vs, vs.len() as int);
    V3 {
        x: tdiv(s.x, vs.len() as int),
        y: tdiv(s.y, vs.len() as int),
        z: tdiv(s.z, vs.len() as int),
    }
}

/// The polygon a `create` call builds.
pub open spec fn poly_make_s(vs: Seq<V3>, refl: ReflM) -> PolyM {
    PolyM {
        vertices: vs,
        reflectance: refl,
        plane_normal: tri_normal_s(vs[0], vs[1], vs[2]),
        plane_point: poly_center_s(vs),
        bounding_box: bbox_upto(vs, vs.len() as int),
    }
}

/// The box grown around fitting vertices keeps fitting.
proof fn lemma_bbox_upto_fits(vs: Seq<V3>, i: int)
    requires
        vs.len() >= 1,
        0 <= i <= vs.len(),
        forall|k: int| 0 <= k < vs.len() ==> fits_v(#[trigger] vs[k], COORD_MAX as int),
    ensures
        fits_v(bbox_upto(vs, i).min, COORD_MAX as int),
        fits_v(bbox_upto(vs, i).max, COORD_MAX as int),
    decreases i,
{
    if i > 0 {
        lemma_bbox_upto_fits(vs, i - 1);
    }
}

/// The hit point passes the counter-clockwise test on every edge from
/// index `i` on (each vertex paired with its cyclic successor).
pub open spec fn poly_edges_ok(vs: Seq<V3>, q: V3, i: int) -> bool
    decreases vs.len() - i,
{
    if i >= vs.len() {
        true
    } else {
        inside_s(q, vs[i], vs[(i + 1) % vs.len() as int]) && poly_edges_ok(vs, q, i + 1)
    }
}

/// If every edge from `i` on passes, each single edge from `i` on passes.
proof fn lemma_edges_ok_index(vs: Seq<V3>, q: V3, i: int, k: int)
    requires
        0 <= i <= k < vs.len(),
        poly_edges_ok(vs, q, i),
    ensures
        inside_s(q, vs[k], vs[(k + 1) % vs.len() as int]),
    decreases k - i,
{
    if i < k {
        lemma_edges_ok_index(vs, q, i + 1, k);
    }
}

/// If each single edge from `i` on passes, every edge from `i` on passes.
proof fn lemma_edges_ok_build(vs: Seq<V3>, q: V3, i: int)
    requires
        0 <= i,
        forall|k: int| i <= k < vs.len() ==> inside_s(
            q,
            #[trigger] vs[k],
            vs[(k + 1) % vs.len() as int],
        ),
    ensures
        poly_edges_ok(vs, q, i),
    decreases vs.len() - i,
{
    if i < vs.len() {
        lemma_edges_ok_build(vs, q, i + 1);
    }
}

/// The ray/polygon intersection: the plane hit as for the triangle, then
/// the edge test cycled over all vertex pairs.
pub open spec fn poly_hit_s(p: PolyM, orig: V3, dir: V3) -> Option<HitM> {
    let dp = dot_s(dir, p.plane_normal);
    if dp == 0 {
        None
    } else {
        let dist = div_fx(dot_s(sub_s(p.plane_point, orig), p.plane_normal), dp);
        if dist <= 0 {
            None
        } else {
            let q = add_s(orig, scale_s(dir, dist));
            if !fits_v(q, COORD_MAX as int) {
                None
            } else if !poly_edges_ok(p.vertices, q, 0) {
                None
            } else {
                Some(HitM { point: q, normal: p.plane_normal, reflectance: p.reflectance })
            }
        }
    }
}

impl ConvexPolygon {
    /// A polygon from its vertices (three at least) and material; the
    /// plane data and the bounding box are precomputed here.
    pub fn create(vertices: Vec<Vec3>, reflectance: Reflectance) -> (r: ConvexPolygon)
        requires
            3 <= vertices@.len() <= POLY_MAX_VERTICES,
            forall|i: int| 0 <= i < vertices@.len() ==> fits_v(
                #[trigger] vertices@[i]@,
                COORD_MAX as int,
            ),
            refl_wf(reflectance@),
        ensures
            r@ == poly_make_s(vertices@.map_values(|v: Vec3| v@), reflectance@),
            poly_wf(r@),
    {
        let ghost vs = vertices@.map_values(|v: Vec3| v@);
        let n = vertices.len();
        let mut sum = Vec3::zero();
        let mut bounding_box = BoundingBox::create(vertices[0]);
        let mut i: usize = 0;
        while i < n
            invariant
                n == vertices@.len(),
                3 <= n <= POLY_MAX_VERTICES,
                vs == vertices@.map_values(|v: Vec3| v@),
                forall|k: int| 0 <= k < n ==> fits_v(#[trigger] vs[k], COORD_MAX as int),
                0 <= i <= n,
                sum@ == vsum_upto(vs, i as int),
                fits_v(sum@, i as int * COORD_MAX as int),
                bounding_box@ == bbox_upto(vs, i as int),
            decreases n - i,
        {
            proof {
                assert(vertices@[i as int]@ == vs[i as int]);
                assert(i as int * COORD_MAX as int + COORD_MAX as int == (i + 1) as int
                    * COORD_MAX as int) by (nonlinear_arith);
            }
            sum.add(vertices[i]);
            bounding_box.update(vertices[i]);
            i = i + 1;
        }
        proof {
            lemma_tdiv_bound(sum@.x, n as int, n as int * COORD_MAX as int);
            lemma_tdiv_bound(sum@.y, n as int, n as int * COORD_MAX as int);
            lemma_tdiv_bound(sum@.z, n as int, n as int * COORD_MAX as int);
            vstd::arithmetic::div_mod::lemma_div_multiples_vanish(COORD_MAX as int, n as int);
            lemma_bbox_upto_fits(vs, n as int);
            lemma_cross_s_bound(
                sub_s(vs[1], vs[0]),
                sub_s(vs[2], vs[1]),
                2 * COORD_MAX as int,
                2 * COORD_MAX as int,
            );
        }
        let mean = Vec3 {
            x: div_trunc(sum.x, n as i128),
            y: div_trunc(sum.y, n as i128),
            z: div_trunc(sum.z, n as i128),
        };
        let edge_1 = vertices[1].minus(vertices[0]);
        let edge_2 = vertices[2].minus(vertices[1]);
        let plane_normal = edge_1.cross(edge_2).normalized();
        ConvexPolygon { vertices, reflectance, plane_normal, plane_point: mean, bounding_box }
    }

    /// Translate the polygon: every vertex and the plane point move by
    /// `off`; the bounding box is left as it is.
    pub fn offset(&mut self, off: Vec3)
        requires
            fits_v(off@, COORD_MAX as int),
            fits_v(old(self)@.plane_point, COORD_MAX as int),
            fits_v(add_s(old(self)@.plane_point, off@), COORD_MAX as int),
            forall|i: int| 0 <= i < old(self)@.vertices.len() ==> fits_v(
                #[trigger] old(self)@.vertices[i],
                COORD_MAX as int,
            ),
            forall|i: int| 0 <= i < old(self)@.vertices.len() ==> fits_v(
                #[trigger] add_s(old(self)@.vertices[i], off@),
                COORD_MAX as int,
            ),
        ensures
            final(self)@.vertices =~= old(self)@.vertices.map_values(|v: V3| add_s(v, off@)),
            final(self)@.plane_point == add_s(old(self)@.plane_point, off@),
            final(self)@.plane_normal == old(self)@.plane_normal,
            final(self)@.reflectance == old(self)@.reflectance,
            final(self)@.bounding_box == old(self)@.bounding_box,
    {
        self.plane_point = self.plane_point.plus(off);
        let n = self.vertices.len();
        let mut i: usize = 0;
        while i < n
            invariant
                n == self.vertices@.len(),
                0 <= i <= n,
                fits_v(off@, COORD_MAX as int),
                self@.plane_point == add_s(old(self)@.plane_point, off@),
                self@.plane_normal == old(self)@.plane_normal,
                self@.reflectance == old(self)@.reflectance,
                self@.bounding_box == old(self)@.bounding_box,
                forall|k: int| 0 <= k < n ==> fits_v(
                    #[trigger] old(self)@.vertices[k],
                    COORD_MAX as int,
                ),
                forall|k: int| 0 <= k < n ==> fits_v(
                    #[trigger] add_s(old(self)@.vertices[k], off@),
                    COORD_MAX as int,
                ),
                forall|k: int| 0 <= k < i ==> self@.vertices[k] == add_s(
                    #[trigger] old(self)@.vertices[k],
                    off@,
                ),
                forall|k: int| i <= k < n ==> self@.vertices[k] == #[trigger] old(
                    self,
                )@.vertices[k],
            decreases n - i,
        {
            proof {
                assert(self.vertices@[i as int]@ == self@.vertices[i as int]);
                assert(self@.vertices[i as int] == old(self)@.vertices[i as int]);
            }
            let v = self.vertices[i].plus(off);
            self.vertices.set(i, v);
            i = i + 1;
        }
        proof {
            assert(final(self)@.vertices =~= old(self)@.vertices.map_values(
                |v: V3| add_s(v, off@),
            ));
        }
    }

    /// The nearest intersection of the ray with the polygon, exactly as
    /// `poly_hit_s` states it.
    pub fn intersect(&self, orig: &Vec3, dir: &Vec3) -> (r: Option<Intersection>)
        requires
            poly_wf(self@),
            fits_v(orig@, ORIG_MAX as int),
            fits_v(dir@, DIR_MAX as int),
        ensures
            match r {
                Some(hit) => poly_hit_s(self@, orig@, dir@) == Some(hit@) && hit_wf(hit@),
                None => poly_hit_s(self@, orig@, dir@).is_none(),
            },
    {
        proof {
            lemma_dot_s_bound(dir@, self@.plane_normal, DIR_MAX as int, SCALE as int);
        }
        let dotprod = dir.dot(self.plane_normal);
        if dotprod == 0 {
            return None;
        }
        proof {
            lemma_dot_s_bound(
                sub_s(self@.plane_point, orig@),
                self@.plane_normal,
                0x2_0000_0000,
                SCALE as int,
            );
        }
        let num = self.plane_point.minus(*orig).dot(self.plane_normal);
        let dist = div_exec(num, dotprod);
        if dist <= 0 {
            return None;
        }
        proof {
            let m: int = 0x10_0000_0000_0000;
            if dotprod >= 0 {
                lemma_tdiv_bound(num as int * SCALE as int, dotprod as int, m);
                vstd::arithmetic::div_mod::lemma_div_nonincreasing(m, dotprod as int);
            } else {
                lemma_tdiv_bound(-(num as int * SCALE as int), -(dotprod as int), m);
                vstd::arithmetic::div_mod::lemma_div_nonincreasing(m, -(dotprod as int));
            }
            lemma_scale_s_bound(dir@, dist as int, DIR_MAX as int, 0x10_0000_0000_0000);
        }
        let q = orig.plus(dir.scaled(dist));
        if !fits_chk(&q, COORD_MAX) {
            return None;
        }
        let n_vertices = self.vertices.len();
        let mut i: usize = 0;
        while i < n_vertices
            invariant
                poly_wf(self@),
                n_vertices == self.vertices@.len(),
                fits_v(orig@, ORIG_MAX as int),
                fits_v(dir@, DIR_MAX as int),
                dot_s(dir@, self@.plane_normal) != 0,
                dist == div_fx(
                    dot_s(sub_s(self@.plane_point, orig@), self@.plane_normal),
                    dot_s(dir@, self@.plane_normal),
                ),
                dist > 0,
                q@ == add_s(orig@, scale_s(dir@, dist as int)),
                fits_v(q@, COORD_MAX as int),
                0 <= i <= n_vertices,
                forall|k: int| 0 <= k < i ==> inside_s(
                    q@,
                    #[trigger] self@.vertices[k],
                    self@.vertices[(k + 1) % n_vertices as int],
                ),
            decreases n_vertices - i,
        {
            let j = (i + 1) % n_vertices;
            proof {
                assert(self.vertices@[i as int]@ == self@.vertices[i as int]);
                assert(self.vertices@[j as int]@ == self@.vertices[j as int]);
                assert(self@.vertices.len() == n_vertices);
                assert(j as int == (i as int + 1) % n_vertices as int);
            }
            if !inside(q, self.vertices[i], self.vertices[j]) {
                proof {
                    assert(!inside_s(q@, self@.vertices[i as int], self@.vertices[j as int]));
                    if poly_edges_ok(self@.vertices, q@, 0) {
                        lemma_edges_ok_index(self@.vertices, q@, 0, i as int);
                        assert(inside_s(
                            q@,
                            self@.vertices[i as int],
                            self@.vertices[(i as int + 1) % self@.vertices.len() as int],
                        ));
                        assert(false);
                    }
                }
                return None;
            }
            i = i + 1;
        }
        proof {
            lemma_edges_ok_build(self@.vertices, q@, 0);
        }
        Some(
            Intersection {
                point: q,
                normal: self.plane_normal,
                reflectance: self.reflectance,
            },
        )
    }

    pub fn bounding_box(&self) -> (r: BoundingBox)
        ensures
            r@ == self@.bounding_box,
    {
        self.bounding_box
    }
}

} // verus!
