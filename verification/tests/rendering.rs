//! End-to-end rendering scenarios, shading, and the framebuffer passes.

use engine::framebuffer::{create_frame_buffer, FrameBuffer};
use engine::lights::create_light;
use engine::renderer::{cast_ray, create_renderer};
use engine::scene::Scene;
use engine::shapes::{intersect_shape_set, Reflectance, Shape};
use engine::sphere;
use engine::vec3::Vec3;

const S: i128 = 65536;

fn v(x: i128, y: i128, z: i128) -> Vec3 {
    Vec3 { x, y, z }
}

fn matte(color: Vec3) -> Reflectance {
    let mut reflectance = Reflectance::create_default();
    reflectance.diffuse_color = color;
    reflectance.specular = 0;
    reflectance
}

/// One red sphere on a black background: the center pixel is purely red,
/// a corner pixel is black.
#[test]
fn single_red_sphere() {
    let shapes = vec![Shape::Sphere(sphere::create(
        v(0, 0, -10 * S),
        S,
        matte(v(S, 0, 0)),
    ))];
    let lights = vec![create_light(v(3 * S, 3 * S, 0), Vec3::ones(), S)];
    let camera = Vec3::zero();
    let black = Vec3::zero();

    // 64x64, field of view 1.5: half-tangent about 0.9316.
    let renderer = create_renderer(61053, 64, 64);

    let center = cast_ray(
        &camera,
        renderer.backproject(32, 32),
        &shapes,
        &lights,
        &black,
        1,
    );
    assert!(center.x > 0);
    assert_eq!(center.y, 0);
    assert_eq!(center.z, 0);

    let corner = cast_ray(
        &camera,
        renderer.backproject(0, 0),
        &shapes,
        &lights,
        &black,
        1,
    );
    assert_eq!(corner, Vec3::zero());
}

/// Two stacked spheres and a light above: the upper visible rim of the
/// lower sphere is lit, its lower rim is in shadow.
#[test]
fn shadow_between_spheres() {
    let shapes = vec![
        Shape::Sphere(sphere::create(v(0, 0, -5 * S), S, matte(v(S, S, S)))),
        Shape::Sphere(sphere::create(v(0, 2 * S, -5 * S), S, matte(v(S, 0, 0)))),
    ];
    let lights = vec![create_light(v(0, 10 * S, 0), Vec3::ones(), S)];
    let camera = Vec3::zero();
    let black = Vec3::zero();

    // Aimed at the upper front of sphere A (about 10.5 degrees up).
    let up_dir = v(0, 11941, -64446).normalized();
    let lit = cast_ray(&camera, up_dir, &shapes, &lights, &black, 1);
    assert!(lit.x > 0 && lit.y > 0 && lit.z > 0);

    // Aimed at the lower front of sphere A: fully in shadow, so only the
    // (black) background remains.
    let down_dir = v(0, -11941, -64446).normalized();
    let dark = cast_ray(&camera, down_dir, &shapes, &lights, &black, 1);
    assert_eq!(dark, Vec3::zero());
}

/// Shadow symmetry: when the shadow ray from a hit toward the light is
/// blocked by a second surface, the ray from the light toward the hit is
/// blocked by that surface as well.
#[test]
fn shadow_symmetry() {
    let blocker = vec![Shape::Sphere(sphere::create(
        v(0, 2 * S, -5 * S),
        S,
        matte(v(S, S, S)),
    ))];
    let target = vec![Shape::Sphere(sphere::create(
        v(0, 0, -5 * S),
        S,
        matte(v(S, S, S)),
    ))];
    let camera = Vec3::zero();
    let light_pos = v(0, 10 * S, -5 * S);

    // The primary ray hits the top of the target sphere.
    let dir = v(0, 11941, -64446).normalized();
    let hit = match &target[0] {
        Shape::Sphere(sp) => sp.intersect(&camera, &dir).unwrap(),
        _ => unreachable!(),
    };

    // Shadow ray from the hit toward the light, blocked by the blocker.
    let to_light = light_pos.minus(hit.point).normalized();
    let blocked_up = intersect_shape_set(&hit.point, &to_light, &blocker);

    // Ray from the light toward the hit, blocked by the same sphere.
    let to_hit = hit.point.minus(light_pos).normalized();
    let blocked_down = intersect_shape_set(&light_pos, &to_hit, &blocker);

    assert!(blocked_up);
    assert_eq!(blocked_up, blocked_down);
}

/// A counter-clockwise triangle faces the camera; the reversed winding
/// does not.
#[test]
fn triangle_backface() {
    let front = engine::triangle::Triangle::create(vec![
        v(-S, -S, -2 * S),
        v(S, -S, -2 * S),
        v(0, S, -2 * S),
    ]);
    let back = engine::triangle::Triangle::create(vec![
        v(-S, -S, -2 * S),
        v(0, S, -2 * S),
        v(S, -S, -2 * S),
    ]);
    let orig = Vec3::zero();
    let dir = v(0, 0, -S);
    assert!(front.intersect(&orig, &dir).is_some());
    assert!(back.intersect(&orig, &dir).is_none());
}

/// Determinism and patch invariance: rendering the stock scene twice
/// gives byte-identical frames, and assembling the patches in the
/// opposite order gives the same frame again.
#[test]
fn deterministic_render() {
    let scene = Scene::create_default();
    let renderer = create_renderer(61053, 128, 128);

    let mut frame1 = create_frame_buffer(128, 128);
    renderer.render(&mut frame1, &scene);
    let mut frame2 = create_frame_buffer(128, 128);
    renderer.render(&mut frame2, &scene);
    assert_eq!(frame1.to_vec(), frame2.to_vec());

    // Patches produced and written in reverse order land identically.
    let n_patches = (128 / 32) * (128 / 32);
    let mut frame3 = create_frame_buffer(128, 128);
    for p in (0..n_patches).rev() {
        let samples = renderer.render_patch(&scene, p);
        let col0 = (p % (128 / 32)) * 32;
        let row0 = (p / (128 / 32)) * 32;
        for (k, sample) in samples.iter().enumerate() {
            let i = col0 + k % 32;
            let j = row0 + k / 32;
            frame3.buffer[j * 128 + i] = *sample;
        }
    }
    assert_eq!(frame1.to_vec(), frame3.to_vec());

    // The stock scene really puts light on the frame.
    let bytes = frame1.to_vec();
    assert!(bytes.iter().any(|b| *b > 0));
}

/// Normalizing a framebuffer twice is the same as normalizing it once.
#[test]
fn normalize_idempotent() {
    let mut frame = create_frame_buffer(8, 4);
    frame.buffer[3] = v(2 * S, S, 0);
    frame.buffer[17] = v(S / 2, 5 * S, S / 4);
    frame.buffer[31] = v(7, 130000, 1);

    frame.normalize();
    let once: Vec<Vec3> = frame.buffer.clone();
    // The brightest channel is now exactly one.
    assert!(once.iter().all(|c| c.x <= S && c.y <= S && c.z <= S));
    assert!(once.iter().any(|c| c.x == S || c.y == S || c.z == S));

    frame.normalize();
    assert_eq!(frame.buffer, once);
}

/// An all-black framebuffer is left untouched by normalization.
#[test]
fn normalize_black_frame() {
    let mut frame = create_frame_buffer(4, 4);
    frame.normalize();
    assert!(frame.buffer.iter().all(|c| *c == Vec3::zero()));
}

/// Byte packing: clamped to [0, 1] and scaled to 255, row-major R, G, B.
#[test]
fn byte_packing() {
    let mut frame = create_frame_buffer(2, 1);
    frame.buffer[0] = v(S / 2, 0, 2 * S);
    frame.buffer[1] = v(S, S / 4, 13107);
    let bytes = frame.to_vec();
    assert_eq!(bytes, vec![127u8, 0, 255, 255, 63, 50]);
}

/// Secondary rays that miss contribute nothing, while a primary miss
/// carries the background.
#[test]
fn miss_semantics() {
    let shapes: Vec<Shape> = vec![];
    let lights = vec![];
    let grey = v(6554, 6554, 6554);
    let camera = Vec3::zero();
    let dir = v(0, 0, -S);
    let primary = cast_ray(&camera, dir, &shapes, &lights, &grey, 1);
    assert_eq!(primary, grey);
    let secondary = cast_ray(&camera, dir, &shapes, &lights, &grey, 2);
    assert_eq!(secondary, Vec3::zero());
    let beyond = cast_ray(&camera, dir, &shapes, &lights, &grey, 4);
    assert_eq!(beyond, grey);
}

/// The camera offset moves only the camera.
#[test]
fn camera_offset() {
    let mut scene = Scene::create_default();
    scene.offset_camera(v(S, 0, -2 * S));
    assert_eq!(scene.camera, v(S, 0, -2 * S));
    scene.offset_camera(v(0, S, 0));
    assert_eq!(scene.camera, v(S, S, -2 * S));
    assert_eq!(scene.shapes.len(), 6);
    assert_eq!(scene.lights.len(), 2);
}
