//! The scene: a heterogeneous list of shapes, a list of lights, and the
//! camera position.

use vstd::prelude::*;

use crate::lights::Light;
use crate::lights::LightM;
use crate::lights::create_light;
use crate::lights::light_make_s;
use crate::lights::light_wf;
use crate::polygon::ConvexPolygon;
use crate::polygon::poly_make_s;
use crate::shapes::COORD_MAX;
use crate::shapes::Reflectance;
use crate::shapes::ReflM;
use crate::shapes::Shape;
use crate::shapes::ShapeM;
use crate::shapes::shape_wf;
use crate::sphere::sphere_make_s;
use crate::vec3::V3;
use crate::vec3::Vec3;
use crate::vec3::add_s;
use crate::vec3::fits_v;
use crate::vec3::zero_s;

verus! {

/// The mathematical model of a scene.
pub struct SceneM {
    pub lights: Seq<LightM>,
    pub shapes: Seq<ShapeM>,
    pub camera: V3,
}

/// A scene: lights, shapes, and the camera position (the only field that
/// changes between renders).
pub struct Scene {
    pub lights: Vec<Light>,
    pub shapes: Vec<Shape>,
    pub camera: Vec3,
}

impl View for Scene {
    type V = SceneM;

    open spec fn view(&self) -> SceneM {
        SceneM {
            lights: self.lights@.map_values(|l: Light| l@),
            shapes: self.shapes@.map_values(|s: Shape| s@),
            camera: self.camera@,
        }
    }
}

/// A scene in range: few enough shapes for an index to fit a byte, every
/// element well formed, and the camera within the coordinate range.
pub open spec fn scene_wf(s: SceneM) -> bool {
    &&& s.shapes.len() <= 255
    &&& s.lights.len() <= 255
    &&& forall|i: int| 0 <= i < s.shapes.len() ==> shape_wf(#[trigger] s.shapes[i])
    &&& forall|i: int| 0 <= i < s.lights.len() ==> light_wf(#[trigger] s.lights[i])
    &&& fits_v(s.camera, COORD_MAX as int)
}

pub open spec fn refl_red_s() -> ReflM {
    ReflM {
        diffusion: 65536,
        diffuse_color: V3 { x: 52429, y: 0, z: 0 },
        specular: 65536,
        specular_exponent: 100,
        is_glass_like: false,
        reflection: 62259,
        refractive_index: 65536,
    }
}

pub open spec fn refl_triangle_s() -> ReflM {
    ReflM { diffuse_color: V3 { x: 39322, y: 0, z: 45875 }, ..refl_red_s() }
}

pub open spec fn refl_floor_s() -> ReflM {
    ReflM {
        diffuse_color: V3 { x: 19661, y: 58982, z: 58982 },
        is_glass_like: true,
        reflection: 32768,
        refractive_index: 98304,
        ..refl_red_s()
    }
}

pub open spec fn refl_blue_s() -> ReflM {
    ReflM {
        diffusion: 6554,
        diffuse_color: V3 { x: 0, y: 0, z: 13107 },
        is_glass_like: true,
        reflection: 13107,
        refractive_index: 98304,
        ..refl_red_s()
    }
}

pub open spec fn refl_green_s() -> ReflM {
    ReflM {
        diffuse_color: V3 { x: 0, y: 65536, z: 0 },
        specular: 52429,
        reflection: 65536,
        refractive_index: 98304,
        ..refl_red_s()
    }
}

pub open spec fn refl_white_s() -> ReflM {
    ReflM { diffuse_color: V3 { x: 58982, y: 58982, z: 58982 }, ..refl_green_s() }
}

/// The stock scene: four spheres, two polygons (a triangle and the floor),
/// and two lights, seen from the origin.
pub open spec fn default_scene_s() -> SceneM {
    SceneM {
        lights: seq![
            light_make_s(zero_s(), V3 { x: 65536, y: 65536, z: 65536 }, 65536),
            light_make_s(
                V3 { x: 1310720, y: 1310720, z: 1310720 },
                V3 { x: 65536, y: 32768, z: 32768 },
                52429,
            ),
        ],
        shapes: seq![
            ShapeM::Sphere(
                sphere_make_s(V3 { x: -32768, y: -98304, z: -327680 }, 131072, refl_blue_s()),
            ),
            ShapeM::Sphere(
                sphere_make_s(V3 { x: 393216, y: -32768, z: -1179648 }, 196608, refl_green_s()),
            ),
            ShapeM::Sphere(
                sphere_make_s(V3 { x: -327680, y: 0, z: -1048576 }, 262144, refl_red_s()),
            ),
            ShapeM::Sphere(
                sphere_make_s(V3 { x: -655360, y: 393216, z: -917504 }, 262144, refl_white_s()),
            ),
            ShapeM::Polygon(
                poly_make_s(
                    seq![
                        V3 { x: 458752, y: -262144, z: -524288 },
                        V3 { x: 983040, y: 0, z: -589824 },
                        V3 { x: 393216, y: 196608, z: -524288 },
                    ],
                    refl_triangle_s(),
                ),
            ),
            ShapeM::Polygon(
                poly_make_s(
                    seq![
                        V3 { x: 1310720, y: -196608, z: -3276800 },
                        V3 { x: -1310720, y: -196608, z: -3276800 },
                        V3 { x: -983040, y: -393216, z: -196608 },
                        V3 { x: 983040, y: -393216, z: -196608 },
                    ],
                    refl_floor_s(),
                ),
            ),
        ],
        camera: zero_s(),
    }
}

impl Scene {
    /// The empty scene.
    pub fn new() -> (r: Scene)
        ensures
            r@.lights.len() == 0,
            r@.shapes.len() == 0,
            r@.camera == zero_s(),
            scene_wf(r@),
    {
        Scene { lights: Vec::new(), shapes: Vec::new(), camera: Vec3::zero() }
    }

    /// Translate the camera.
    pub fn offset_camera(&mut self, offset: Vec3)
        requires
            fits_v(offset@, COORD_MAX as int),
            fits_v(old(self)@.camera, COORD_MAX as int),
            fits_v(add_s(old(self)@.camera, offset@), COORD_MAX as int),
        ensures
            final(self)@.camera == add_s(old(self)@.camera, offset@),
            final(self)@.lights == old(self)@.lights,
            final(self)@.shapes == old(self)@.shapes,
    {
        self.camera = self.camera.plus(offset);
    }

    /// The stock scene, exactly as `default_scene_s` states it.
    pub fn create_default() -> (r: Scene)
        ensures
            r@ == default_scene_s(),
            scene_wf(r@),
    {
        let mut reflectance = Reflectance::create_default();

        // Red sphere
        reflectance.diffuse_color = Vec3 { x: 52429, y: 0, z: 0 };
        reflectance.specular_exponent = 100;
        let sphere_red = crate::sphere::create(
            Vec3 { x: -327680, y: 0, z: -1048576 },
            262144,
            reflectance,
        );

        // Triangle
        reflectance.diffuse_color = Vec3 { x: 39322, y: 0, z: 45875 };
        let tri_vertices = vec![
            Vec3 { x: 458752, y: -262144, z: -524288 },
            Vec3 { x: 983040, y: 0, z: -589824 },
            Vec3 { x: 393216, y: 196608, z: -524288 },
        ];
        proof {
            assert(tri_vertices@.map_values(|v: Vec3| v@) =~= seq![
                V3 { x: 458752, y: -262144, z: -524288 },
                V3 { x: 983040, y: 0, z: -589824 },
                V3 { x: 393216, y: 196608, z: -524288 },
            ]);
        }
        let triangle = ConvexPolygon::create(tri_vertices, reflectance);

        // Floor
        reflectance.is_glass_like = true;
        reflectance.refractive_index = 98304;
        reflectance.reflection = 32768;
        reflectance.diffuse_color = Vec3 { x: 19661, y: 58982, z: 58982 };
        let square_vertices = vec![
            Vec3 { x: 1310720, y: -196608, z: -3276800 },
            Vec3 { x: -1310720, y: -196608, z: -3276800 },
            Vec3 { x: -983040, y: -393216, z: -196608 },
            Vec3 { x: 983040, y: -393216, z: -196608 },
        ];
        proof {
            assert(square_vertices@.map_values(|v: Vec3| v@) =~= seq![
                V3 { x: 1310720, y: -196608, z: -3276800 },
                V3 { x: -1310720, y: -196608, z: -3276800 },
                V3 { x: -983040, y: -393216, z: -196608 },
                V3 { x: 983040, y: -393216, z: -196608 },
            ]);
        }
        let square = ConvexPolygon::create(square_vertices, reflectance);

        // Blue sphere
        reflectance.diffusion = 6554;
        reflectance.diffuse_color = Vec3 { x: 0, y: 0, z: 13107 };
        reflectance.reflection = 13107;
        let sphere_blue = crate::sphere::create(
            Vec3 { x: -32768, y: -98304, z: -327680 },
            131072,
            reflectance,
        );

        // Green sphere
        reflectance.diffusion = 65536;
        reflectance.reflection = 65536;
        reflectance.is_glass_like = false;
        reflectance.specular = 52429;
        reflectance.diffuse_color = Vec3 { x: 0, y: 65536, z: 0 };
        let sphere_green = crate::sphere::create(
            Vec3 { x: 393216, y: -32768, z: -1179648 },
            196608,
            reflectance,
        );

        // White sphere
        reflectance.diffuse_color = Vec3 { x: 58982, y: 58982, z: 58982 };
        let sphere_white = crate::sphere::create(
            Vec3 { x: -655360, y: 393216, z: -917504 },
            262144,
            reflectance,
        );

        // Lights
        let light_white = create_light(Vec3::zero(), Vec3::ones(), 65536);
        let light_red = create_light(
            Vec3 { x: 1310720, y: 1310720, z: 1310720 },
            Vec3 { x: 65536, y: 32768, z: 32768 },
            52429,
        );

        let r = Scene {
            lights: vec![light_white, light_red],
            shapes: vec![
                Shape::Sphere(sphere_blue),
                Shape::Sphere(sphere_green),
                Shape::Sphere(sphere_red),
                Shape::Sphere(sphere_white),
                Shape::Polygon(triangle),
                Shape::Polygon(square),
            ],
            camera: Vec3::zero(),
        };
        proof {
            assert(r@.lights =~= default_scene_s().lights);
            assert(r@.shapes =~= default_scene_s().shapes);
        }
        r
    }
}

} // verus!
