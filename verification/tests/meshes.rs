//! Transforms, meshes and indexed-face ingestion.

use rust_rt::fixed::FP_ONE;
use rust_rt::math::transform::Matrix;
use rust_rt::math::transform::Transform;
use rust_rt::vec3::Vec3;
use rust_rt::rendering::ray::Ray;
use rust_rt::rendering::materials::LambertianMaterial;
use rust_rt::rendering::materials::Material;
use rust_rt::scene::mesh::FaceIndices;
use rust_rt::scene::mesh::Mesh;
use rust_rt::scene::triangle::Triangle;

fn v(x: i64, y: i64, z: i64) -> Vec3 {
    Vec3 { x, y, z }
}

fn gray() -> Material {
    Material::Lambertian(LambertianMaterial::new(v(2048, 2048, 2048)))
}

/// Carrying a ray into a translated space and back restores the origin
/// exactly and the direction within a quantum of its normalized form.
#[test]
fn transform_round_trip_translation() {
    let t = v(3 * FP_ONE / 2, -2 * FP_ONE, 3 * FP_ONE);
    let m = Matrix::translation(t);
    let minv = Matrix::translation(v(-t.x, -t.y, -t.z));
    let fwd = Transform::new(m, minv);
    let ray = Ray::new(v(FP_ONE, 2 * FP_ONE, -FP_ONE), v(0, 0, FP_ONE));
    let there = ray.transform(&fwd);
    let back = there.transform(&fwd.inverse());
    assert_eq!(back.origin, ray.origin);
    // The direction is normalized on each pass; an axis direction is a fixed
    // point of normalization, so it comes back exactly.
    assert_eq!(back.direction, v(0, 0, FP_ONE));
    // A skew direction survives within a quantum per component.
    let skew = Ray::new(v(0, 0, 0), v(2896, 2896, 0));
    let once = skew.transform(&fwd);
    let twice = once.transform(&fwd.inverse());
    assert!((twice.direction.x - once.direction.x).abs() <= 2);
    assert!((twice.direction.y - once.direction.y).abs() <= 2);
    assert!((twice.direction.z - once.direction.z).abs() <= 2);
}

/// A mesh of two triangles forming a square facing the camera, translated by
/// its instance transform: hit where expected, missed outside.
#[test]
fn mesh_translated_square() {
    // A unit square in the local xy plane at z = 0, counterclockwise as seen
    // from -z so the front faces the camera at -z.
    let t1 = Triangle::from_verts(v(0, 0, 0), v(0, FP_ONE, 0), v(FP_ONE, 0, 0));
    let t2 = Triangle::from_verts(v(FP_ONE, 0, 0), v(0, FP_ONE, 0), v(FP_ONE, FP_ONE, 0));
    // The instance sits 4 units ahead: local = world - (0, 0, 4).
    let m = Matrix::translation(v(0, 0, 4 * FP_ONE));
    let minv = Matrix::translation(v(0, 0, -4 * FP_ONE));
    let mesh = Mesh::new(vec![t1, t2], Transform::new(m, minv), gray());
    let hit_ray = Ray::new(v(2048, 2048, 0), v(0, 0, FP_ONE));
    let hit = mesh.intersect(&hit_ray).expect("center of the square");
    assert_eq!(hit.position, v(2048, 2048, 4 * FP_ONE));
    // The face normal points toward the camera.
    assert!(hit.normal.z < 0);
    let miss_ray = Ray::new(v(3 * FP_ONE, 2048, 0), v(0, 0, FP_ONE));
    assert!(mesh.intersect(&miss_ray).is_none());
    // Back-face culling: from the other side the square is invisible.
    let behind = Ray::new(v(2048, 2048, 8 * FP_ONE), v(0, 0, -FP_ONE));
    assert!(mesh.intersect(&behind).is_none());
}

/// Indexed faces: vertex positions are mandatory, normals and texture
/// coordinates attach only when all three corners carry them, and faces with
/// out-of-range indices are skipped.
#[test]
fn mesh_from_faces_ingestion() {
    let positions = vec![v(0, 0, 0), v(FP_ONE, 0, 0), v(0, FP_ONE, 0), v(FP_ONE, FP_ONE, 0)];
    let normals = vec![v(0, 0, -FP_ONE)];
    let uvs: Vec<rust_rt::vec3::Vec2> = Vec::new();
    let faces = vec![
        // Valid, with normals on every corner.
        FaceIndices { v: [0, 2, 1], t: None, n: Some([0, 0, 0]) },
        // Valid, no normals.
        FaceIndices { v: [1, 2, 3], t: None, n: None },
        // Normal index out of range: position-only triangle.
        FaceIndices { v: [0, 1, 2], t: None, n: Some([0, 5, 0]) },
        // Vertex index out of range: skipped entirely.
        FaceIndices { v: [0, 1, 9], t: None, n: None },
    ];
    let mesh = Mesh::from_faces(
        &positions,
        &normals,
        &uvs,
        &faces,
        Transform::identity(),
        gray(),
    );
    assert_eq!(mesh.bvh.tris.len(), 3);
    let with_normals = mesh
        .bvh
        .tris
        .iter()
        .filter(|t| t.normals.is_some())
        .count();
    assert_eq!(with_normals, 1);
    assert!(mesh.bvh.tris.iter().all(|t| t.uvs.is_none()));
}

/// An empty face list yields a valid mesh that misses everything.
#[test]
fn mesh_empty_is_miss() {
    let mesh = Mesh::new(Vec::new(), Transform::identity(), gray());
    let ray = Ray::new(v(0, 0, 0), v(0, 0, FP_ONE));
    assert!(mesh.intersect(&ray).is_none());
}
