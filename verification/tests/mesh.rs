//! The mesh aggregate and its load-time transformations.

use engine::obj::{autoscale, Obj};
use engine::shapes::{BoundingBox, Reflectance};
use engine::triangle::Triangle;
use engine::vec3::Vec3;

const S: i128 = 65536;

fn v(x: i128, y: i128, z: i128) -> Vec3 {
    Vec3 { x, y, z }
}

fn quad_mesh() -> Obj {
    // Two triangles, the first at z = -2, the second behind it at z = -4.
    let near = Triangle::create(vec![
        v(-S, -S, -2 * S),
        v(S, -S, -2 * S),
        v(0, S, -2 * S),
    ]);
    let far = Triangle::create(vec![
        v(-S, -S, -4 * S),
        v(S, -S, -4 * S),
        v(0, S, -4 * S),
    ]);
    let mut red = Reflectance::create_default();
    red.diffuse_color = v(S, 0, 0);
    let mut green = Reflectance::create_default();
    green.diffuse_color = v(0, S, 0);
    let mut mesh = Obj {
        triangles: vec![near, far],
        reflectances: vec![red, green],
        bounding_box: BoundingBox {
            min: Vec3::zero(),
            max: Vec3::zero(),
        },
    };
    mesh.update_bounding_box();
    mesh
}

#[test]
fn mesh_nearest_triangle_wins() {
    let mesh = quad_mesh();
    let orig = Vec3::zero();
    let dir = v(0, 0, -S);
    let hit = mesh.intersect(&orig, &dir).unwrap();
    assert_eq!(hit.point.z, -2 * S);
    // The winning triangle's own material is handed back.
    assert_eq!(hit.reflectance.diffuse_color, v(S, 0, 0));
}

#[test]
fn mesh_offset_and_bounding_box() {
    let mut mesh = quad_mesh();
    assert_eq!(mesh.bounding_box.min, v(-S, -S, -4 * S));
    assert_eq!(mesh.bounding_box.max, v(S, S, -2 * S));

    mesh.offset(v(0, 0, 6 * S));
    // The cached box is stale until recomputed.
    assert_eq!(mesh.bounding_box.max, v(S, S, -2 * S));
    mesh.update_bounding_box();
    assert_eq!(mesh.bounding_box.min, v(-S, -S, 2 * S));
    assert_eq!(mesh.bounding_box.max, v(S, S, 4 * S));
}

#[test]
fn autoscale_reaches_desired_extent() {
    let mut objects = vec![quad_mesh()];
    // The collection's box grows from the origin down to z = -4, so its
    // extent is 4; shrinking the collection to extent 1 scales the mesh,
    // whose own span is 2, down to one half.
    autoscale(&mut objects, S);
    let bb = &objects[0].bounding_box;
    let extent = bb.scale();
    assert!((extent - S / 2).abs() <= 4);
    assert!(objects[0].triangles.len() == 2);
}
