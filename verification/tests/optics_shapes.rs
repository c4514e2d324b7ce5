//! Reflection, refraction, and the primitive intersections.

use engine::optics::{reflect, reflect_ray, refract_ray};
use engine::shapes::{Intersection, Reflectance};
use engine::sphere;
use engine::triangle::Triangle;
use engine::vec3::Vec3;

const S: i128 = 65536;

fn v(x: i128, y: i128, z: i128) -> Vec3 {
    Vec3 { x, y, z }
}

#[test]
fn test_reflection() {
    let incident = v(S / 2, -S / 2, 0);
    let intersection = Intersection {
        point: Vec3::zero(),
        normal: v(0, S, 0),
        reflectance: Reflectance::create_default(),
    };
    let reference_ray = v(S / 2, S / 2, 0);

    assert_eq!(reflect(incident, intersection.normal), reference_ray);

    // Refractive index 1.5.
    let result = reflect_ray(incident, &intersection, 98304);
    match result {
        Some(reflected_ray) => {
            assert_eq!(reflected_ray.1, reference_ray);
        }
        None => {
            assert!(false);
        }
    }
}

#[test]
fn test_intersect() {
    // Triangle vertices at (-1, 3, 2.2), (-3, 0.2, 2.1), (0, 1, 2).
    let vertices = vec![
        v(-S, 3 * S, 144179),
        v(-3 * S, 13107, 137626),
        v(0, S, 2 * S),
    ];

    let triangle1 = Triangle::create(vec![vertices[0], vertices[1], vertices[2]]);
    let triangle2 = Triangle::create(vec![vertices[1], vertices[2], vertices[0]]);
    let triangle3 = Triangle::create(vec![vertices[2], vertices[0], vertices[1]]);

    // Ray from (-1, 2, 5.3) toward (0.1, -0.2, -3).
    let orig = v(-S, 2 * S, 347341);
    let dir = v(6554, -13107, -3 * S).normalized();

    let test1 = triangle1.intersect(&orig, &dir).unwrap();
    let test2 = triangle2.intersect(&orig, &dir).unwrap();
    let test3 = triangle3.intersect(&orig, &dir).unwrap();

    // Cyclic rotations agree exactly in this arithmetic.
    assert!(test1.point.minus(test2.point).squared_norm() < 66);
    assert!(test1.normal.minus(test2.normal).squared_norm() < 66);
    assert!(test1.point.minus(test3.point).squared_norm() < 66);
    assert!(test1.normal.minus(test3.normal).squared_norm() < 66);
    assert_eq!(test1.point, test2.point);
    assert_eq!(test1.normal, test2.normal);
    assert_eq!(test1.point, test3.point);
    assert_eq!(test1.normal, test3.normal);

    assert!((triangle1.normal.squared_norm() - S).abs() < 66);
    assert!(triangle1.normal.dot(dir) < 0);
}

#[test]
fn sphere_hit_on_surface() {
    // A ray from outside, aimed at the center: the hit lies on the sphere
    // and its normal is the unit vector from the center to the hit.
    let sphere = sphere::create(v(0, 0, -10 * S), 2 * S, Reflectance::create_default());
    let orig = Vec3::zero();
    let dir = v(0, 0, -S);
    let hit = sphere.intersect(&orig, &dir).unwrap();

    let to_hit = hit.point.minus(v(0, 0, -10 * S));
    // radius squared is 4 in fixed point.
    assert!((to_hit.squared_norm() - 4 * S).abs() <= 64);
    assert_eq!(hit.normal, to_hit.normalized());
    assert_eq!(hit.point, v(0, 0, -8 * S));
}

#[test]
fn sphere_miss() {
    let sphere = sphere::create(v(0, 0, -10 * S), S, Reflectance::create_default());
    let orig = Vec3::zero();
    let dir = v(0, 0, S);
    assert!(sphere.intersect(&orig, &dir).is_none());
    let sideways = v(S, 0, 0);
    assert!(sphere.intersect(&orig, &sideways).is_none());
}

#[test]
fn refraction_total_internal_reflection() {
    // A dielectric with index 1.5: a ray leaving the material at 60
    // degrees from the normal is beyond the critical angle, so refraction
    // yields nothing; at 30 degrees it passes.
    let mut reflectance = Reflectance::create_default();
    reflectance.is_glass_like = true;
    reflectance.refractive_index = 98304;
    let intersection = Intersection {
        point: v(0, 0, -5 * S),
        normal: v(0, S, 0),
        reflectance,
    };

    // sin 60 = 0.866, cos 60 = 0.5: exiting steeply.
    let grazing = v(56756, 32768, 0);
    assert!(refract_ray(grazing, &intersection, 98304).is_none());

    // sin 30 = 0.5, cos 30 = 0.866: exiting gently.
    let gentle = v(32768, 56756, 0);
    assert!(refract_ray(gentle, &intersection, 98304).is_some());
}

#[test]
fn refraction_reversible() {
    // Entering the surface, then sending the refracted ray back through,
    // recovers the incoming direction within tolerance.
    let mut reflectance = Reflectance::create_default();
    reflectance.is_glass_like = true;
    reflectance.refractive_index = 98304;
    let entry = Intersection {
        point: Vec3::zero(),
        normal: v(0, S, 0),
        reflectance,
    };

    // Incoming from above at 30 degrees from the normal.
    let d = v(32768, -56756, 0).normalized();
    let (_, refracted) = refract_ray(d, &entry, 98304).unwrap();

    // Back through the same plane from below.
    let (_, back) = refract_ray(refracted.neg(), &entry, 98304).unwrap();

    // The return direction is antiparallel to the incoming one within 1e-3.
    let diff = back.plus(d);
    assert!(diff.squared_norm() < 66);
}

#[test]
fn reflect_ray_mirror_regime() {
    // With the surface's own index at one and a gentle angle the
    // refraction regime holds, so no mirrored ray is produced.
    let intersection = Intersection {
        point: Vec3::zero(),
        normal: v(0, S, 0),
        reflectance: Reflectance::create_default(),
    };
    let incident = v(S / 2, -S / 2, 0).normalized();
    assert!(reflect_ray(incident, &intersection, S).is_none());
}
