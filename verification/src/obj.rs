//! The mesh aggregate: a bag of triangles with one material per triangle
//! and a cached bounding box.  It intersects like a primitive by scanning
//! its triangles for the hit nearest to the ray origin.

use vstd::prelude::*;

use crate::fixed::SCALE;
use crate::shapes::BBoxM;
use crate::shapes::BoundingBox;
use crate::shapes::COORD_MAX;
use crate::shapes::DIR_MAX;
use crate::shapes::HitM;
use crate::shapes::Intersection;
use crate::shapes::ORIG_MAX;
use crate::shapes::Reflectance;
use crate::shapes::ReflM;
use crate::shapes::bbox_wf;
use crate::shapes::dist2_s;
use crate::shapes::hit_wf;
use crate::shapes::refl_wf;
use crate::shapes::vmax_s;
use crate::shapes::vmin_s;
use crate::triangle::TriM;
use crate::triangle::Triangle;
use crate::triangle::tri_hit_s;
use crate::triangle::tri_offset_ok;
use crate::triangle::tri_offset_s;
use crate::triangle::tri_wf;
use crate::vec3::V3;
use crate::vec3::Vec3;
use crate::vec3::add_s;
use crate::vec3::fits_v;
use crate::vec3::lemma_dot_s_bound;
use crate::vec3::sub_s;

verus! {

/// The mathematical model of a mesh.
pub struct ObjM {
    pub triangles: Seq<TriM>,
    pub reflectances: Seq<ReflM>,
    pub bounding_box: BBoxM,
}

/// A triangle mesh with per-triangle materials and a cached bounding box.
#[derive(Clone, Debug)]
pub struct Obj {
    pub triangles: Vec<Triangle>,
    pub reflectances: Vec<Reflectance>,
    pub bounding_box: BoundingBox,
}

impl View for Obj {
    type V = ObjM;

    open spec fn view(&self) -> ObjM {
        ObjM {
            triangles: self.triangles@.map_values(|t: Triangle| t@),
            reflectances: self.reflectances@.map_values(|r: Reflectance| r@),
            bounding_box: self.bounding_box@,
        }
    }
}

pub open spec fn obj_wf(o: ObjM) -> bool {
    &&& o.triangles.len() == o.reflectances.len()
    &&& forall|i: int| 0 <= i < o.triangles.len() ==> tri_wf(#[trigger] o.triangles[i])
    &&& forall|i: int| 0 <= i < o.reflectances.len() ==> refl_wf(#[trigger] o.reflectances[i])
    &&& bbox_wf(o.bounding_box)
}

/// The best hit among the first `i` triangles: nearest by squared distance
/// to the ray origin, the earlier triangle winning ties, with the mesh's
/// per-triangle material substituted into the hit.
pub open spec fn obj_best_upto(o: ObjM, orig: V3, dir: V3, i: int) -> Option<HitM>
    decreases i,
{
    if i <= 0 {
        None
    } else {
        let prev = obj_best_upto(o, orig, dir, i - 1);
        match tri_hit_s(o.triangles[i - 1], orig, dir) {
            None => prev,
            Some(h) => {
                let with_refl = HitM {
                    point: h.point,
                    normal: h.normal,
                    reflectance: o.reflectances[i - 1],
                };
                match prev {
                    None => Some(with_refl),
                    Some(p) => if dist2_s(h.point, orig) < dist2_s(p.point, orig) {
                        Some(with_refl)
                    } else {
                        Some(p)
                    },
                }
            },
        }
    }
}

/// The law of the mesh scan: a returned hit lies on one of the triangles
/// (carrying that triangle's material), no triangle's hit is strictly
/// nearer, and the scan returns nothing only when no triangle intersects.
pub proof fn lemma_mesh_nearest(o: ObjM, orig: V3, dir: V3, i: int)
    requires
        0 <= i <= o.triangles.len(),
    ensures
        match obj_best_upto(o, orig, dir, i) {
            Option::Some(hit) => {
                &&& exists|t: int|
                    0 <= t < i && (#[trigger] tri_hit_s(o.triangles[t], orig, dir)).is_some()
                        && hit.point == tri_hit_s(o.triangles[t], orig, dir).unwrap().point
                        && hit.normal == tri_hit_s(o.triangles[t], orig, dir).unwrap().normal
                        && hit.reflectance == o.reflectances[t]
                &&& forall|t: int|
                    0 <= t < i && (#[trigger] tri_hit_s(o.triangles[t], orig, dir)).is_some()
                        ==> dist2_s(hit.point, orig) <= dist2_s(
                        tri_hit_s(o.triangles[t], orig, dir).unwrap().point,
                        orig,
                    )
            },
            Option::None => forall|t: int|
                0 <= t < i ==> (#[trigger] tri_hit_s(o.triangles[t], orig, dir)).is_none(),
        },
    decreases i,
{
    if i > 0 {
        lemma_mesh_nearest(o, orig, dir, i - 1);
        let prev = obj_best_upto(o, orig, dir, i - 1);
        let cur = obj_best_upto(o, orig, dir, i);
        if cur.is_some() {
            let best = cur.unwrap();
            assert forall|t: int|
                0 <= t < i && (#[trigger] tri_hit_s(o.triangles[t], orig, dir)).is_some()
                implies dist2_s(best.point, orig) <= dist2_s(
                tri_hit_s(o.triangles[t], orig, dir).unwrap().point,
                orig,
            ) by {
                if t < i - 1 {
                    assert(prev.is_some());
                    let pb = prev.unwrap();
                    assert(dist2_s(pb.point, orig) <= dist2_s(
                        tri_hit_s(o.triangles[t], orig, dir).unwrap().point,
                        orig,
                    ));
                }
            };
        }
    }
}

pub open spec fn bb_upd(b: BBoxM, v: V3) -> BBoxM {
    BBoxM { min: vmin_s(b.min, v), max: vmax_s(b.max, v) }
}

/// The box around the first triangle's first vertex grown by every vertex
/// of the first `i` triangles.
pub open spec fn obj_bbox_upto(ts: Seq<TriM>, i: int) -> BBoxM
    decreases i,
{
    if i <= 0 {
        BBoxM { min: ts[0].vertices[0], max: ts[0].vertices[0] }
    } else {
        let b = obj_bbox_upto(ts, i - 1);
        bb_upd(bb_upd(bb_upd(b, ts[i - 1].vertices[0]), ts[i - 1].vertices[1]), ts[i - 1].vertices[2])
    }
}

proof fn lemma_obj_bbox_fits(ts: Seq<TriM>, i: int)
    requires
        ts.len() >= 1,
        0 <= i <= ts.len(),
        forall|k: int| 0 <= k < ts.len() ==> tri_wf(#[trigger] ts[k]),
    ensures
        fits_v(obj_bbox_upto(ts, i).min, COORD_MAX as int),
        fits_v(obj_bbox_upto(ts, i).max, COORD_MAX as int),
    decreases i,
{
    assert(tri_wf(ts[0]));
    if i > 0 {
        lemma_obj_bbox_fits(ts, i - 1);
        assert(tri_wf(ts[i - 1]));
    }
}

impl Obj {
    /// Translate the whole mesh: every triangle moves by `off`; the cached
    /// bounding box is left as it is until `update_bounding_box`.
    pub fn offset(&mut self, off: Vec3)
        requires
            obj_wf(old(self)@),
            fits_v(off@, COORD_MAX as int),
            forall|i: int| 0 <= i < old(self)@.triangles.len() ==> tri_offset_ok(
                #[trigger] old(self)@.triangles[i],
                off@,
            ),
        ensures
            final(self)@.triangles =~= old(self)@.triangles.map_values(
                |t: TriM| tri_offset_s(t, off@),
            ),
            final(self)@.reflectances == old(self)@.reflectances,
            final(self)@.bounding_box == old(self)@.bounding_box,
            obj_wf(final(self)@),
    {
        let n = self.triangles.len();
        let mut out: Vec<Triangle> = Vec::new();
        let mut i: usize = 0;
        while i < n
            invariant
                obj_wf(old(self)@),
                self == old(self),
                fits_v(off@, COORD_MAX as int),
                n == self.triangles@.len(),
                forall|k: int| 0 <= k < n ==> tri_offset_ok(
                    #[trigger] old(self)@.triangles[k],
                    off@,
                ),
                0 <= i <= n,
                out@.len() == i,
                forall|k: int| 0 <= k < i ==> #[trigger] out@[k]@ == tri_offset_s(
                    old(self)@.triangles[k],
                    off@,
                ),
                forall|k: int| 0 <= k < i ==> tri_wf(#[trigger] out@[k]@),
            decreases n - i,
        {
            proof {
                assert(self.triangles@[i as int]@ == self@.triangles[i as int]);
                assert(tri_wf(self@.triangles[i as int]));
            }
            match self.triangles[i].try_offsetted(off) {
                Some(t2) => {
                    out.push(t2);
                },
                None => {
                    proof {
                        assert(false);
                    }
                },
            }
            i = i + 1;
        }
        self.triangles = out;
        proof {
            assert(final(self)@.triangles =~= old(self)@.triangles.map_values(
                |t: TriM| tri_offset_s(t, off@),
            ));
        }
    }

    /// Recompute the cached bounding box from every vertex of every
    /// triangle.
    pub fn update_bounding_box(&mut self)
        requires
            obj_wf(old(self)@),
            old(self)@.triangles.len() >= 1,
        ensures
            final(self)@.triangles == old(self)@.triangles,
            final(self)@.reflectances == old(self)@.reflectances,
            final(self)@.bounding_box == obj_bbox_upto(
                old(self)@.triangles,
                old(self)@.triangles.len() as int,
            ),
            obj_wf(final(self)@),
    {
        let n = self.triangles.len();
        proof {
            assert(self.triangles@[0]@ == self@.triangles[0]);
            assert(tri_wf(self@.triangles[0]));
        }
        let first = &self.triangles[0];
        let mut bb = BoundingBox::create(first.vertices[0]);
        let mut i: usize = 0;
        while i < n
            invariant
                obj_wf(old(self)@),
                self == old(self),
                n == self.triangles@.len(),
                n >= 1,
                0 <= i <= n,
                bb@ == obj_bbox_upto(old(self)@.triangles, i as int),
            decreases n - i,
        {
            proof {
                assert(self.triangles@[i as int]@ == self@.triangles[i as int]);
                assert(tri_wf(self@.triangles[i as int]));
            }
            let t = &self.triangles[i];
            bb.update(t.vertices[0]);
            bb.update(t.vertices[1]);
            bb.update(t.vertices[2]);
            i = i + 1;
        }
        proof {
            lemma_obj_bbox_fits(old(self)@.triangles, n as int);
        }
        self.bounding_box = bb;
    }

    /// The nearest triangle hit, with that triangle's own material, exactly
    /// as `obj_best_upto` over the whole mesh states it.
    pub fn intersect(&self, orig: &Vec3, dir: &Vec3) -> (r: Option<Intersection>)
        requires
            obj_wf(self@),
            fits_v(orig@, ORIG_MAX as int),
            fits_v(dir@, DIR_MAX as int),
        ensures
            match r {
                Some(hit) => obj_best_upto(self@, orig@, dir@, self@.triangles.len() as int)
                    == Some(hit@) && hit_wf(hit@),
                None => obj_best_upto(
                    self@,
                    orig@,
                    dir@,
                    self@.triangles.len() as int,
                ).is_none(),
            },
    {
        let n = self.triangles.len();
        let mut best: Option<Intersection> = None;
        let mut best_dist: i128 = 0;
        let mut i: usize = 0;
        while i < n
            invariant
                obj_wf(self@),
                fits_v(orig@, ORIG_MAX as int),
                fits_v(dir@, DIR_MAX as int),
                n == self.triangles@.len(),
                0 <= i <= n,
                match best {
                    None => obj_best_upto(self@, orig@, dir@, i as int).is_none(),
                    Some(b) => obj_best_upto(self@, orig@, dir@, i as int) == Some(b@) && hit_wf(
                        b@,
                    ) && best_dist == dist2_s(b@.point, orig@),
                },
            decreases n - i,
        {
            proof {
                assert(self.triangles@[i as int]@ == self@.triangles[i as int]);
                assert(tri_wf(self@.triangles[i as int]));
                assert(self.reflectances@[i as int]@ == self@.reflectances[i as int]);
                assert(refl_wf(self@.reflectances[i as int]));
            }
            let res = self.triangles[i].intersect(orig, dir);
            if let Some(inter) = res {
                proof {
                    lemma_dot_s_bound(
                        sub_s(inter@.point, orig@),
                        sub_s(inter@.point, orig@),
                        0x2_0000_0000,
                        0x2_0000_0000,
                    );
                }
                let dist_hit = inter.point.minus(*orig).squared_norm();
                let replace = match &best {
                    None => true,
                    Some(_) => dist_hit < best_dist,
                };
                if replace {
                    best = Some(
                        Intersection {
                            point: inter.point,
                            normal: inter.normal,
                            reflectance: self.reflectances[i],
                        },
                    );
                    best_dist = dist_hit;
                }
            }
            i = i + 1;
        }
        best
    }

    pub fn bounding_box(&self) -> (r: BoundingBox)
        ensures
            r@ == self@.bounding_box,
    {
        self.bounding_box
    }
}

/// One step of autoscaling a triangle: recenter at the collection's
/// middle, scale, and move back.
pub open spec fn tri_rescale_s(t: TriM, mid: V3, s: int) -> TriM {
    crate::triangle::tri_offset_s(
        crate::triangle::tri_scale_s(crate::triangle::tri_offset_s(t, crate::vec3::neg_s(mid)), s),
        mid,
    )
}

/// Whether all three steps keep every coordinate in range.
pub open spec fn tri_rescale_ok(t: TriM, mid: V3, s: int) -> bool {
    &&& crate::triangle::tri_offset_ok(t, crate::vec3::neg_s(mid))
    &&& crate::triangle::tri_scale_ok(
        crate::triangle::tri_offset_s(t, crate::vec3::neg_s(mid)),
        s,
    )
    &&& crate::triangle::tri_offset_ok(
        crate::triangle::tri_scale_s(crate::triangle::tri_offset_s(t, crate::vec3::neg_s(mid)), s),
        mid,
    )
}

pub open spec fn obj_rescale_ok(o: ObjM, mid: V3, s: int) -> bool {
    forall|k: int| 0 <= k < o.triangles.len() ==> tri_rescale_ok(#[trigger] o.triangles[k], mid, s)
}

/// The bounding box of a whole collection: the box at the origin grown by
/// every object's cached corners in turn.
pub open spec fn scene_bbox_upto(objs: Seq<ObjM>, i: int) -> BBoxM
    decreases i,
{
    if i <= 0 {
        BBoxM { min: crate::vec3::zero_s(), max: crate::vec3::zero_s() }
    } else {
        let b = scene_bbox_upto(objs, i - 1);
        bb_upd(bb_upd(b, objs[i - 1].bounding_box.min), objs[i - 1].bounding_box.max)
    }
}

proof fn lemma_scene_bbox_fits(objs: Seq<ObjM>, i: int)
    requires
        0 <= i <= objs.len(),
        forall|k: int| 0 <= k < objs.len() ==> obj_wf(#[trigger] objs[k]),
    ensures
        fits_v(scene_bbox_upto(objs, i).min, COORD_MAX as int),
        fits_v(scene_bbox_upto(objs, i).max, COORD_MAX as int),
    decreases i,
{
    if i > 0 {
        lemma_scene_bbox_fits(objs, i - 1);
        assert(obj_wf(objs[i - 1]));
    }
}

/// What autoscaling leaves of each mesh: with a positive overall extent,
/// each mesh whose triangles all rescale in range is recentered and scaled
/// to the desired extent; any other mesh keeps its triangles.  Every mesh
/// gets its bounding box recomputed.
pub open spec fn autoscale_spec(objs: Seq<ObjM>, desired_scale: int) -> Seq<ObjM> {
    let bb = scene_bbox_upto(objs, objs.len() as int);
    let extent = crate::vec3::max3_s(crate::vec3::abs_s(crate::vec3::sub_s(bb.max, bb.min)));
    let mid = crate::vec3::scale_s(crate::vec3::add_s(bb.max, bb.min), (SCALE as int) / 2);
    let s = crate::fixed::div_fx(desired_scale, extent);
    Seq::new(
        objs.len(),
        |i: int|
            {
                let o = objs[i];
                let ts = if extent > 0 && obj_rescale_ok(o, mid, s) {
                    o.triangles.map_values(|t: TriM| tri_rescale_s(t, mid, s))
                } else {
                    o.triangles
                };
                ObjM {
                    triangles: ts,
                    reflectances: o.reflectances,
                    bounding_box: obj_bbox_upto(ts, ts.len() as int),
                }
            },
    )
}

/// A plain copy of a material list.
fn copy_reflectances(rs: &Vec<Reflectance>) -> (r: Vec<Reflectance>)
    ensures
        r@ =~= rs@,
{
    let n = rs.len();
    let mut out: Vec<Reflectance> = Vec::new();
    let mut i: usize = 0;
    while i < n
        invariant
            n == rs@.len(),
            0 <= i <= n,
            out@.len() == i,
            forall|k: int| 0 <= k < i ==> #[trigger] out@[k] == rs@[k],
        decreases n - i,
    {
        out.push(rs[i]);
        i = i + 1;
    }
    out
}

/// A plain copy of a triangle, field by field.
fn copy_triangle(t: &Triangle) -> (r: Triangle)
    requires
        t@.vertices.len() == 3,
    ensures
        r@ == t@,
{
    let mut vertices: Vec<Vec3> = Vec::new();
    vertices.push(t.vertices[0]);
    vertices.push(t.vertices[1]);
    vertices.push(t.vertices[2]);
    let r = Triangle { vertices, normal: t.normal, center: t.center };
    proof {
        assert(r@.vertices =~= t@.vertices);
    }
    r
}

impl Obj {
    /// The mesh's triangles recentered and rescaled, or nothing when any
    /// coordinate would leave its range.
    fn try_rescaled_triangles(&self, mid: Vec3, s: i128) -> (r: Option<Vec<Triangle>>)
        requires
            obj_wf(self@),
            fits_v(mid@, COORD_MAX as int),
            -crate::vec3::GEOM_MAX <= s <= crate::vec3::GEOM_MAX,
        ensures
            match r {
                Some(ts) => obj_rescale_ok(self@, mid@, s as int) && ts@.map_values(
                    |t: Triangle| t@,
                ) =~= self@.triangles.map_values(|t: TriM| tri_rescale_s(t, mid@, s as int))
                    && forall|k: int| 0 <= k < ts@.len() ==> tri_wf(#[trigger] ts@[k]@),
                None => !obj_rescale_ok(self@, mid@, s as int),
            },
    {
        let n = self.triangles.len();
        let mut out: Vec<Triangle> = Vec::new();
        let mut i: usize = 0;
        while i < n
            invariant
                obj_wf(self@),
                fits_v(mid@, COORD_MAX as int),
                -crate::vec3::GEOM_MAX <= s <= crate::vec3::GEOM_MAX,
                n == self.triangles@.len(),
                0 <= i <= n,
                out@.len() == i,
                forall|k: int| 0 <= k < i ==> tri_rescale_ok(
                    #[trigger] self@.triangles[k],
                    mid@,
                    s as int,
                ),
                forall|k: int| 0 <= k < i ==> #[trigger] out@[k]@ == tri_rescale_s(
                    self@.triangles[k],
                    mid@,
                    s as int,
                ),
                forall|k: int| 0 <= k < i ==> tri_wf(#[trigger] out@[k]@),
            decreases n - i,
        {
            proof {
                assert(self.triangles@[i as int]@ == self@.triangles[i as int]);
                assert(tri_wf(self@.triangles[i as int]));
            }
            let centered = match self.triangles[i].try_offsetted(mid.neg()) {
                Some(t) => t,
                None => {
                    return None;
                },
            };
            let scaled = match centered.try_scaled(s) {
                Some(t) => t,
                None => {
                    return None;
                },
            };
            let back = match scaled.try_offsetted(mid) {
                Some(t) => t,
                None => {
                    return None;
                },
            };
            out.push(back);
            i = i + 1;
        }
        Some(out)
    }
}

/// Rescale a collection of meshes so that its overall extent becomes the
/// desired one: each mesh is recentered at the collection's middle, scaled
/// by the ratio of extents, moved back, and given a fresh bounding box,
/// exactly as `autoscale_spec` states it.  A mesh that would leave the
/// coordinate range keeps its triangles (a numeric degeneracy), and a
/// collection of zero extent is only re-boxed.
pub fn autoscale(objects: &mut Vec<Obj>, desired_scale: i128)
    requires
        0 < desired_scale <= COORD_MAX,
        forall|k: int| 0 <= k < old(objects)@.len() ==> obj_wf(#[trigger] old(objects)@[k]@)
            && old(objects)@[k]@.triangles.len() >= 1,
    ensures
        final(objects)@.map_values(|o: Obj| o@) =~= autoscale_spec(
            old(objects)@.map_values(|o: Obj| o@),
            desired_scale as int,
        ),
        forall|k: int| 0 <= k < final(objects)@.len() ==> obj_wf(#[trigger] final(objects)@[k]@),
{
    let ghost os = objects@.map_values(|o: Obj| o@);
    let n = objects.len();
    let mut bb = BoundingBox::create(Vec3::zero());
    let mut i: usize = 0;
    while i < n
        invariant
            os == objects@.map_values(|o: Obj| o@),
            n == objects@.len(),
            forall|k: int| 0 <= k < n ==> obj_wf(#[trigger] os[k]) && os[k].triangles.len() >= 1,
            0 <= i <= n,
            bb@ == scene_bbox_upto(os, i as int),
        decreases n - i,
    {
        proof {
            assert(objects@[i as int]@ == os[i as int]);
            assert(obj_wf(os[i as int]));
        }
        let object_bb = objects[i].bounding_box();
        bb.update(object_bb.min);
        bb.update(object_bb.max);
        i = i + 1;
    }
    proof {
        lemma_scene_bbox_fits(os, n as int);
    }
    let extent = bb.scale();
    let middle = bb.middle();
    proof {
        crate::vec3::lemma_scale_s_bound(
            add_s(bb@.max, bb@.min),
            (SCALE as int) / 2,
            2 * COORD_MAX as int,
            (SCALE as int) / 2,
        );
    }

    let mut out: Vec<Obj> = Vec::new();
    let mut i: usize = 0;
    while i < n
        invariant
            os == objects@.map_values(|o: Obj| o@),
            n == objects@.len(),
            forall|k: int| 0 <= k < n ==> obj_wf(#[trigger] os[k]) && os[k].triangles.len() >= 1,
            extent as int == crate::vec3::max3_s(
                crate::vec3::abs_s(
                    crate::vec3::sub_s(
                        scene_bbox_upto(os, n as int).max,
                        scene_bbox_upto(os, n as int).min,
                    ),
                ),
            ),
            middle@ == crate::vec3::scale_s(
                crate::vec3::add_s(scene_bbox_upto(os, n as int).max, scene_bbox_upto(os, n as int).min),
                (SCALE as int) / 2,
            ),
            fits_v(middle@, COORD_MAX as int),
            0 < desired_scale <= COORD_MAX,
            0 <= i <= n,
            out@.len() == i,
            forall|k: int| 0 <= k < i ==> #[trigger] out@[k]@ == autoscale_spec(
                os,
                desired_scale as int,
            )[k],
            forall|k: int| 0 <= k < i ==> obj_wf(#[trigger] out@[k]@),
        decreases n - i,
    {
        proof {
            assert(objects@[i as int]@ == os[i as int]);
            assert(obj_wf(os[i as int]));
        }
        let source_obj = &objects[i];
        let mut triangles: Option<Vec<Triangle>> = None;
        if extent > 0 {
            proof {
                crate::fixed::lemma_tdiv_bound(
                    desired_scale as int * SCALE as int,
                    extent as int,
                    COORD_MAX as int * SCALE as int,
                );
                vstd::arithmetic::div_mod::lemma_div_pos_is_pos(
                    COORD_MAX as int * SCALE as int,
                    extent as int,
                );
                vstd::arithmetic::div_mod::lemma_div_nonincreasing(
                    COORD_MAX as int * SCALE as int,
                    extent as int,
                );
                crate::fixed::lemma_mul_bound(
                    desired_scale as int,
                    SCALE as int,
                    COORD_MAX as int,
                    SCALE as int,
                );
            }
            let s = crate::fixed::div_exec(desired_scale, extent);
            triangles = source_obj.try_rescaled_triangles(middle, s);
        }
        let mut new_obj = match triangles {
            Some(ts) => Obj {
                triangles: ts,
                reflectances: copy_reflectances(&source_obj.reflectances),
                bounding_box: source_obj.bounding_box,
            },
            None => {
                let mut copies: Vec<Triangle> = Vec::new();
                let mut t: usize = 0;
                let tri_count = source_obj.triangles.len();
                while t < tri_count
                    invariant
                        obj_wf(os[i as int]),
                        source_obj@ == os[i as int],
                        tri_count == source_obj.triangles@.len(),
                        0 <= t <= tri_count,
                        copies@.len() == t,
                        forall|k: int| 0 <= k < t ==> #[trigger] copies@[k]@ == os[i as int].triangles[k],
                    decreases tri_count - t,
                {
                    proof {
                        assert(source_obj.triangles@[t as int]@ == os[i as int].triangles[t as int]);
                        assert(tri_wf(os[i as int].triangles[t as int]));
                    }
                    copies.push(copy_triangle(&source_obj.triangles[t]));
                    t = t + 1;
                }
                Obj {
                    triangles: copies,
                    reflectances: copy_reflectances(&source_obj.reflectances),
                    bounding_box: source_obj.bounding_box,
                }
            },
        };
        proof {
            assert(new_obj@.triangles =~= autoscale_spec(os, desired_scale as int)[i as int].triangles);
            assert(new_obj@.reflectances =~= os[i as int].reflectances);
        }
        new_obj.update_bounding_box();
        out.push(new_obj);
        i = i + 1;
    }
    *objects = out;
}

} // verus!
