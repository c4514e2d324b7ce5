//! Surface materials, intersections, bounding boxes, and the closed set of
//! shapes the scene can hold, with the two searches over a shape collection.

use vstd::prelude::*;

use crate::fixed::SCALE;
use crate::vec3::V3;
use crate::vec3::Vec3;
use crate::vec3::abs_s;
use crate::vec3::add_s;
use crate::vec3::dot_s;
use crate::vec3::fits_v;
use crate::vec3::max3_s;
use crate::vec3::scale_s;
use crate::vec3::sub_s;
use crate::vec3::zero_s;

verus! {

/// Coordinates of scene geometry (centers, vertices, lights, camera, and
/// intersection points) stay within this bound.
pub const COORD_MAX: i128 = 0x4000_0000;

/// Ray origins may sit slightly off a surface, so they get twice the room.
pub const ORIG_MAX: i128 = 0x8000_0000;

/// Ray directions are unit-like vectors: a normalized vector stays within
/// `SCALE`, and a mirrored direction within a few units of that.
pub const DIR_MAX: i128 = 0x8_0000;

/// Squared radii stay within this bound.
pub const RADIUS2_MAX: i128 = 0x1000_0000_0000;

/// The mathematical model of a surface material.
pub struct ReflM {
    pub diffusion: int,
    pub diffuse_color: V3,
    pub specular: int,
    pub specular_exponent: int,
    pub is_glass_like: bool,
    pub reflection: int,
    pub refractive_index: int,
}

/// The bundle of surface parameters consumed by the shading equation.
/// Scalars in `[0, 1]` are fixed-point values in `[0, SCALE]`.
#[derive(Clone, Copy, Debug)]
pub struct Reflectance {
    pub diffusion: i128,
    pub diffuse_color: Vec3,
    pub specular: i128,
    pub specular_exponent: u32,
    pub is_glass_like: bool,
    pub reflection: i128,
    pub refractive_index: i128,
}

impl View for Reflectance {
    type V = ReflM;

    open spec fn view(&self) -> ReflM {
        ReflM {
            diffusion: self.diffusion as int,
            diffuse_color: self.diffuse_color@,
            specular: self.specular as int,
            specular_exponent: self.specular_exponent as int,
            is_glass_like: self.is_glass_like,
            reflection: self.reflection as int,
            refractive_index: self.refractive_index as int,
        }
    }
}

/// Well-formedness of a material: every ratio lies in `[0, 1]`, the exponent
/// is at least one, and the refractive index is positive (and bounded, so
/// that its reciprocal and squares stay in range).
pub open spec fn refl_wf(r: ReflM) -> bool {
    &&& 0 <= r.diffusion <= SCALE as int
    &&& 0 <= r.diffuse_color.x <= SCALE as int
    &&& 0 <= r.diffuse_color.y <= SCALE as int
    &&& 0 <= r.diffuse_color.z <= SCALE as int
    &&& 0 <= r.specular <= SCALE as int
    &&& 1 <= r.specular_exponent
    &&& 0 <= r.reflection <= SCALE as int
    &&& 1 <= r.refractive_index <= 0x1_0000_0000
}

pub open spec fn default_refl_s() -> ReflM {
    ReflM {
        diffusion: SCALE as int,
        diffuse_color: V3 { x: SCALE as int, y: SCALE as int, z: SCALE as int },
        specular: SCALE as int,
        specular_exponent: 30,
        is_glass_like: false,
        reflection: 62259,
        refractive_index: SCALE as int,
    }
}

impl Reflectance {
    /// A matte white surface with a touch of mirror, the fallback material.
    pub fn create_default() -> (r: Reflectance)
        ensures
            r@ == default_refl_s(),
            refl_wf(r@),
    {
        Reflectance {
            diffusion: SCALE,
            diffuse_color: Vec3::ones(),
            specular: SCALE,
            specular_exponent: 30,
            is_glass_like: false,
            reflection: 62259,
            refractive_index: SCALE,
        }
    }
}

/// The mathematical model of a ray/surface intersection.
pub struct HitM {
    pub point: V3,
    pub normal: V3,
    pub reflectance: ReflM,
}

/// A ray/surface intersection: where, facing which way, and on what
/// material.
#[derive(Clone, Copy, Debug)]
pub struct Intersection {
    pub point: Vec3,
    pub normal: Vec3,
    pub reflectance: Reflectance,
}

impl View for Intersection {
    type V = HitM;

    open spec fn view(&self) -> HitM {
        HitM { point: self.point@, normal: self.normal@, reflectance: self.reflectance@ }
    }
}

/// An intersection handed out by a shape: the point is in coordinate range,
/// the normal is unit-like, and the material is well formed.
pub open spec fn hit_wf(h: HitM) -> bool {
    &&& fits_v(h.point, COORD_MAX as int)
    &&& fits_v(h.normal, SCALE as int)
    &&& refl_wf(h.reflectance)
}

impl Intersection {
    pub fn create_default() -> (r: Intersection)
        ensures
            r@.point == zero_s(),
            r@.normal == zero_s(),
            r@.reflectance == default_refl_s(),
    {
        Intersection {
            point: Vec3::zero(),
            normal: Vec3::zero(),
            reflectance: Reflectance::create_default(),
        }
    }
}

/// The mathematical model of an axis-aligned bounding box.
pub struct BBoxM {
    pub min: V3,
    pub max: V3,
}

/// An axis-aligned bounding box.
#[derive(Clone, Copy, Debug)]
pub struct BoundingBox {
    pub min: Vec3,
    pub max: Vec3,
}

impl View for BoundingBox {
    type V = BBoxM;

    open spec fn view(&self) -> BBoxM {
        BBoxM { min: self.min@, max: self.max@ }
    }
}

/// The squared distance between two points, as a fixed-point scalar.
pub open spec fn dist2_s(p: V3, orig: V3) -> int {
    dot_s(sub_s(p, orig), sub_s(p, orig))
}

pub open spec fn vmin_s(a: V3, b: V3) -> V3 {
    V3 {
        x: if a.x <= b.x { a.x } else { b.x },
        y: if a.y <= b.y { a.y } else { b.y },
        z: if a.z <= b.z { a.z } else { b.z },
    }
}

pub open spec fn vmax_s(a: V3, b: V3) -> V3 {
    V3 {
        x: if a.x >= b.x { a.x } else { b.x },
        y: if a.y >= b.y { a.y } else { b.y },
        z: if a.z >= b.z { a.z } else { b.z },
    }
}

pub open spec fn bbox_wf(b: BBoxM) -> bool {
    &&& fits_v(b.min, COORD_MAX as int)
    &&& fits_v(b.max, COORD_MAX as int)
}

impl BoundingBox {
    /// The degenerate box around a single point.
    pub fn create(vec: Vec3) -> (r: BoundingBox)
        ensures
            r@.min == vec@,
            r@.max == vec@,
    {
        BoundingBox { min: vec, max: vec }
    }

    /// Grow the box so that it also encloses `vec`.
    pub fn update(&mut self, vec: Vec3)
        ensures
            final(self)@.min == vmin_s(old(self)@.min, vec@),
            final(self)@.max == vmax_s(old(self)@.max, vec@),
    {
        if vec.x < self.min.x {
            self.min.x = vec.x;
        }
        if vec.y < self.min.y {
            self.min.y = vec.y;
        }
        if vec.z < self.min.z {
            self.min.z = vec.z;
        }
        if vec.x > self.max.x {
            self.max.x = vec.x;
        }
        if vec.y > self.max.y {
            self.max.y = vec.y;
        }
        if vec.z > self.max.z {
            self.max.z = vec.z;
        }
    }

    /// The largest absolute extent of the box along any axis.
    pub fn scale(&self) -> (r: i128)
        requires
            bbox_wf(self@),
        ensures
            r == max3_s(abs_s(sub_s(self@.max, self@.min))),
    {
        let diff = self.max.minus(self.min).abs();
        diff.max()
    }

    /// The center of the box.
    pub fn middle(&self) -> (r: Vec3)
        requires
            bbox_wf(self@),
        ensures
            r@ == scale_s(add_s(self@.max, self@.min), (SCALE as int) / 2),
    {
        self.max.plus(self.min).scaled(SCALE / 2)
    }
}

/// The mathematical model of a shape.
pub enum ShapeM {
    Sphere(crate::sphere::SphereM),
    Triangle(crate::triangle::TriM),
    Polygon(crate::polygon::PolyM),
    Mesh(crate::obj::ObjM),
}

/// The closed set of shapes a scene can hold.  Each kind answers the same
/// two questions: the nearest ray intersection, and a bounding box.
#[derive(Clone, Debug)]
pub enum Shape {
    Sphere(crate::sphere::Sphere),
    Triangle(crate::triangle::Triangle),
    Polygon(crate::polygon::ConvexPolygon),
    Mesh(crate::obj::Obj),
}

impl View for Shape {
    type V = ShapeM;

    open spec fn view(&self) -> ShapeM {
        match self {
            Shape::Sphere(s) => ShapeM::Sphere(s@),
            Shape::Triangle(t) => ShapeM::Triangle(t@),
            Shape::Polygon(p) => ShapeM::Polygon(p@),
            Shape::Mesh(o) => ShapeM::Mesh(o@),
        }
    }
}

pub open spec fn shape_wf(s: ShapeM) -> bool {
    match s {
        ShapeM::Sphere(sp) => crate::sphere::sphere_wf(sp),
        ShapeM::Triangle(t) => crate::triangle::tri_wf(t),
        ShapeM::Polygon(p) => crate::polygon::poly_wf(p),
        ShapeM::Mesh(o) => crate::obj::obj_wf(o),
    }
}

/// The nearest intersection of a ray with one shape, whichever kind it is.
pub open spec fn shape_hit_spec(s: ShapeM, orig: V3, dir: V3) -> Option<HitM> {
    match s {
        ShapeM::Sphere(sp) => crate::sphere::sphere_hit_s(sp, orig, dir),
        ShapeM::Triangle(t) => crate::triangle::tri_hit_s(t, orig, dir),
        ShapeM::Polygon(p) => crate::polygon::poly_hit_s(p, orig, dir),
        ShapeM::Mesh(o) => crate::obj::obj_best_upto(o, orig, dir, o.triangles.len() as int),
    }
}

pub open spec fn shape_bb_s(s: ShapeM) -> BBoxM {
    match s {
        ShapeM::Sphere(sp) => sp.bounding_box,
        ShapeM::Triangle(t) => BBoxM { min: t.center, max: t.center },
        ShapeM::Polygon(p) => p.bounding_box,
        ShapeM::Mesh(o) => o.bounding_box,
    }
}

impl Shape {
    /// The nearest intersection of the ray with this shape, exactly as
    /// `shape_hit_spec` states it.
    pub fn intersect(&self, orig: &Vec3, dir: &Vec3) -> (r: Option<Intersection>)
        requires
            shape_wf(self@),
            fits_v(orig@, ORIG_MAX as int),
            fits_v(dir@, DIR_MAX as int),
        ensures
            match r {
                Some(hit) => shape_hit_spec(self@, orig@, dir@) == Some(hit@) && hit_wf(hit@),
                None => shape_hit_spec(self@, orig@, dir@).is_none(),
            },
    {
        match self {
            Shape::Sphere(s) => s.intersect(orig, dir),
            Shape::Triangle(t) => t.intersect(orig, dir),
            Shape::Polygon(p) => p.intersect(orig, dir),
            Shape::Mesh(o) => o.intersect(orig, dir),
        }
    }

    /// The shape's bounding box (a triangle, which caches none, answers
    /// the degenerate box at its centroid).
    pub fn bounding_box(&self) -> (r: BoundingBox)
        ensures
            r@ == shape_bb_s(self@),
    {
        match self {
            Shape::Sphere(s) => s.bounding_box(),
            Shape::Triangle(t) => BoundingBox { min: t.center, max: t.center },
            Shape::Polygon(p) => p.bounding_box(),
            Shape::Mesh(o) => o.bounding_box(),
        }
    }
}

/// Whether the ray meets any shape at all, in no particular order; shadow
/// rays need no more, so the scan stops at the first hit.
pub fn intersect_shape_set(orig: &Vec3, dir: &Vec3, shapes: &Vec<Shape>) -> (r: bool)
    requires
        forall|k: int| 0 <= k < shapes@.len() ==> shape_wf(#[trigger] shapes@[k]@),
        fits_v(orig@, ORIG_MAX as int),
        fits_v(dir@, DIR_MAX as int),
    ensures
        r == exists|k: int| 0 <= k < shapes@.len() && shape_hit_spec(
            #[trigger] shapes@[k]@,
            orig@,
            dir@,
        ).is_some(),
{
    let n = shapes.len();
    let mut i: usize = 0;
    while i < n
        invariant
            n == shapes@.len(),
            forall|k: int| 0 <= k < n ==> shape_wf(#[trigger] shapes@[k]@),
            fits_v(orig@, ORIG_MAX as int),
            fits_v(dir@, DIR_MAX as int),
            0 <= i <= n,
            forall|k: int| 0 <= k < i ==> shape_hit_spec(
                #[trigger] shapes@[k]@,
                orig@,
                dir@,
            ).is_none(),
        decreases n - i,
    {
        let result = shape_index(shapes, i).intersect(orig, dir);
        if result.is_some() {
            return true;
        }
        i = i + 1;
    }
    false
}

/// Borrow the shape at `i`.
fn shape_index(shapes: &Vec<Shape>, i: usize) -> (r: &Shape)
    requires
        i < shapes@.len(),
    ensures
        r == shapes@[i as int],
{
    &shapes[i]
}

/// The nearest hit among the first `i` shapes, with the index of the shape
/// that produced it: nearest by squared distance to the ray origin, the
/// earlier shape winning ties.
pub open spec fn closest_upto(ss: Seq<ShapeM>, orig: V3, dir: V3, i: int) -> Option<(HitM, int)>
    decreases i,
{
    if i <= 0 {
        None
    } else {
        let prev = closest_upto(ss, orig, dir, i - 1);
        match shape_hit_spec(ss[i - 1], orig, dir) {
            None => prev,
            Some(h) => match prev {
                None => Some((h, i - 1)),
                Some(p) => if dist2_s(h.point, orig) < dist2_s(p.0.point, orig) {
                    Some((h, i - 1))
                } else {
                    Some(p)
                },
            },
        }
    }
}

/// The law of the nearest-hit search: when it returns a hit, that hit
/// really comes from the shape at the returned index, no shape's hit is
/// strictly nearer, and every earlier shape's hit is strictly farther (the
/// tie-break keeps the first-encountered); when it returns nothing, no
/// shape intersects the ray.
pub proof fn lemma_closest_is_nearest(ss: Seq<ShapeM>, orig: V3, dir: V3, i: int)
    requires
        0 <= i <= ss.len(),
    ensures
        match closest_upto(ss, orig, dir, i) {
            Option::Some(pair) => {
                &&& 0 <= pair.1 < i
                &&& shape_hit_spec(ss[pair.1], orig, dir) == Some(pair.0)
                &&& forall|k: int|
                    0 <= k < i && (#[trigger] shape_hit_spec(ss[k], orig, dir)).is_some()
                        ==> dist2_s(pair.0.point, orig) <= dist2_s(
                        shape_hit_spec(ss[k], orig, dir).unwrap().point,
                        orig,
                    )
                &&& forall|k: int|
                    0 <= k < pair.1 && (#[trigger] shape_hit_spec(ss[k], orig, dir)).is_some()
                        ==> dist2_s(pair.0.point, orig) < dist2_s(
                        shape_hit_spec(ss[k], orig, dir).unwrap().point,
                        orig,
                    )
            },
            Option::None => forall|k: int|
                0 <= k < i ==> (#[trigger] shape_hit_spec(ss[k], orig, dir)).is_none(),
        },
    decreases i,
{
    if i > 0 {
        lemma_closest_is_nearest(ss, orig, dir, i - 1);
        let prev = closest_upto(ss, orig, dir, i - 1);
        let cur = closest_upto(ss, orig, dir, i);
        if cur.is_some() {
            let best = cur.unwrap();
            assert forall|k: int|
                0 <= k < i && (#[trigger] shape_hit_spec(ss[k], orig, dir)).is_some() implies dist2_s(
                best.0.point,
                orig,
            ) <= dist2_s(shape_hit_spec(ss[k], orig, dir).unwrap().point, orig) by {
                if k < i - 1 {
                    assert(prev.is_some());
                    let pb = prev.unwrap();
                    assert(dist2_s(pb.0.point, orig) <= dist2_s(
                        shape_hit_spec(ss[k], orig, dir).unwrap().point,
                        orig,
                    ));
                }
            };
            assert forall|k: int|
                0 <= k < best.1 && (#[trigger] shape_hit_spec(ss[k], orig, dir)).is_some()
                implies dist2_s(best.0.point, orig) < dist2_s(
                shape_hit_spec(ss[k], orig, dir).unwrap().point,
                orig,
            ) by {
                let pb = prev.unwrap();
                assert(k < i - 1);
                if best.1 == i - 1 {
                    assert(dist2_s(pb.0.point, orig) <= dist2_s(
                        shape_hit_spec(ss[k], orig, dir).unwrap().point,
                        orig,
                    ));
                } else {
                    assert(best == pb);
                    assert(dist2_s(pb.0.point, orig) < dist2_s(
                        shape_hit_spec(ss[k], orig, dir).unwrap().point,
                        orig,
                    ));
                }
            };
        }
    }
}

/// The hit nearest to the ray origin across all shapes, with the index of
/// the winning shape, exactly as `closest_upto` over the whole collection
/// states it.
pub fn find_closest_intersect(orig: &Vec3, dir: Vec3, shapes: &Vec<Shape>) -> (r: Option<
    (Intersection, u8),
>)
    requires
        shapes@.len() <= 255,
        forall|k: int| 0 <= k < shapes@.len() ==> shape_wf(#[trigger] shapes@[k]@),
        fits_v(orig@, ORIG_MAX as int),
        fits_v(dir@, DIR_MAX as int),
    ensures
        match r {
            Some(pair) => closest_upto(
                shapes@.map_values(|s: Shape| s@),
                orig@,
                dir@,
                shapes@.len() as int,
            ) == Some((pair.0@, pair.1 as int)) && hit_wf(pair.0@),
            None => closest_upto(
                shapes@.map_values(|s: Shape| s@),
                orig@,
                dir@,
                shapes@.len() as int,
            ).is_none(),
        },
{
    let ghost ss = shapes@.map_values(|s: Shape| s@);
    let n = shapes.len();
    let mut best: Option<Intersection> = None;
    let mut best_index: u8 = 0;
    let mut best_dist: i128 = 0;
    let mut i: usize = 0;
    while i < n
        invariant
            ss == shapes@.map_values(|s: Shape| s@),
            n == shapes@.len(),
            n <= 255,
            forall|k: int| 0 <= k < n ==> shape_wf(#[trigger] shapes@[k]@),
            fits_v(orig@, ORIG_MAX as int),
            fits_v(dir@, DIR_MAX as int),
            0 <= i <= n,
            match best {
                None => closest_upto(ss, orig@, dir@, i as int).is_none(),
                Some(b) => closest_upto(ss, orig@, dir@, i as int) == Some(
                    (b@, best_index as int),
                ) && hit_wf(b@) && best_dist == dist2_s(b@.point, orig@) && best_index < i,
            },
        decreases n - i,
    {
        proof {
            assert(ss[i as int] == shapes@[i as int]@);
        }
        let test = shape_index(shapes, i).intersect(orig, &dir);
        if let Some(intersection) = test {
            proof {
                crate::vec3::lemma_dot_s_bound(
                    sub_s(intersection@.point, orig@),
                    sub_s(intersection@.point, orig@),
                    0x2_0000_0000,
                    0x2_0000_0000,
                );
            }
            let dist_hit = intersection.point.minus(*orig).squared_norm();
            let replace = match &best {
                None => true,
                Some(_) => dist_hit < best_dist,
            };
            if replace {
                best = Some(intersection);
                best_index = i as u8;
                best_dist = dist_hit;
            }
        }
        i = i + 1;
    }
    match best {
        Some(intersection) => Some((intersection, best_index)),
        None => None,
    }
}

} // verus!
