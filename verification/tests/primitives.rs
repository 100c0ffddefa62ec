//! Unit geometry checks: sphere, quad, plane, AABB edge cases, reflection.

use rust_rt::fixed::FP_ONE;
use rust_rt::vec3::Vec3;
use rust_rt::rendering::ray::Ray;
use rust_rt::rendering::materials::LambertianMaterial;
use rust_rt::rendering::materials::Material;
use rust_rt::scene::aabb::AABB;
use rust_rt::scene::sphere::Sphere;
use rust_rt::scene::quad::Quad;
use rust_rt::scene::plane::Plane;
use rust_rt::utils::reflect;
use rust_rt::rng::Rng64;

fn v(x: i64, y: i64, z: i64) -> Vec3 {
    Vec3 { x, y, z }
}

fn gray() -> Material {
    Material::Lambertian(LambertianMaterial::new(v(2048, 2048, 2048)))
}

/// A unit sphere at the origin hit from (0,0,-5) along +z: the hit is at
/// (0,0,-1) with outward normal (0,0,-1) and parameter 4; an offset ray
/// misses.
#[test]
fn sphere_hit_front() {
    let s = Sphere::new(v(0, 0, 0), FP_ONE, gray());
    let ray = Ray::new(v(0, 0, -5 * FP_ONE), v(0, 0, FP_ONE));
    let hit = s.intersect(&ray).expect("must hit");
    assert_eq!(hit.position, v(0, 0, -FP_ONE));
    assert_eq!(hit.normal, v(0, 0, -FP_ONE));
    // The hit parameter is the distance here (unit direction): 4.0.
    let dz = hit.position.z - ray.origin.z;
    assert_eq!(dz, 4 * FP_ONE);
}

#[test]
fn sphere_miss_offset() {
    let s = Sphere::new(v(0, 0, 0), FP_ONE, gray());
    let ray = Ray::new(v(2 * FP_ONE, 0, -5 * FP_ONE), v(0, 0, FP_ONE));
    assert!(s.intersect(&ray).is_none());
}

/// A quad spanned by u=(1,0,0), v=(0,0,1) at the origin is hit from above
/// and from below, with antiparallel reported normals.
#[test]
fn quad_two_sided() {
    let q = Quad::new(v(0, 0, 0), v(FP_ONE, 0, 0), v(0, 0, FP_ONE), gray());
    let above = Ray::new(v(2048, FP_ONE, 2048), v(0, -FP_ONE, 0));
    let below = Ray::new(v(2048, -FP_ONE, 2048), v(0, FP_ONE, 0));
    let ha = q.intersect(&above).expect("hit from above");
    let hb = q.intersect(&below).expect("hit from below");
    assert_eq!(ha.position, v(2048, 0, 2048));
    assert_eq!(hb.position, v(2048, 0, 2048));
    assert_eq!(ha.normal.x, -hb.normal.x);
    assert_eq!(ha.normal.y, -hb.normal.y);
    assert_eq!(ha.normal.z, -hb.normal.z);
    // The normal faces against each incoming ray.
    assert!(ha.normal.y > 0);
    assert!(hb.normal.y < 0);
}

#[test]
fn quad_outside_patch_misses() {
    let q = Quad::new(v(0, 0, 0), v(FP_ONE, 0, 0), v(0, 0, FP_ONE), gray());
    let outside = Ray::new(v(2 * FP_ONE, FP_ONE, 2048), v(0, -FP_ONE, 0));
    assert!(q.intersect(&outside).is_none());
}

#[test]
fn plane_hit_and_parallel_miss() {
    let p = Plane::new(v(0, 0, 0), v(0, FP_ONE, 0), gray());
    let down = Ray::new(v(FP_ONE, 3 * FP_ONE, 0), v(0, -FP_ONE, 0));
    let hit = p.intersect(&down).expect("must hit");
    assert_eq!(hit.position, v(FP_ONE, 0, 0));
    assert_eq!(hit.normal, v(0, FP_ONE, 0));
    // A ray parallel to the plane misses silently.
    let par = Ray::new(v(0, FP_ONE, 0), v(FP_ONE, 0, 0));
    assert!(p.intersect(&par).is_none());
    // A hit behind the origin is rejected.
    let away = Ray::new(v(0, FP_ONE, 0), v(0, FP_ONE, 0));
    assert!(p.intersect(&away).is_none());
}

/// An axis-parallel ray running exactly along a box face must report a hit,
/// not a miss.
#[test]
fn aabb_axis_parallel_on_face() {
    let b = AABB::from_bounds(v(0, 0, 0), v(FP_ONE, FP_ONE, FP_ONE));
    let along_face = Ray::new(v(0, -FP_ONE, 2048), v(0, FP_ONE, 0));
    assert!(b.intersect(&along_face));
    // Just outside the slab: a definite miss.
    let outside = Ray::new(v(-1, -FP_ONE, 2048), v(0, FP_ONE, 0));
    assert!(!b.intersect(&outside));
    // Origin inside the box, any direction: a hit.
    let inside = Ray::new(v(2048, 2048, 2048), v(0, 0, FP_ONE));
    assert!(b.intersect(&inside));
}

#[test]
fn aabb_grow_covers_points() {
    let mut b = AABB::new();
    b.grow(v(-FP_ONE, 100, 3));
    b.grow(v(FP_ONE, -5, 7));
    assert_eq!(b.min, v(-FP_ONE, -5, 0));
    assert_eq!(b.max, v(FP_ONE, 100, 7));
}

/// The reflection law: `reflect(d, n) . n == -(d . n)`, up to one truncation
/// step per component, over ten thousand random pairs.
#[test]
fn reflection_law_random() {
    let mut rng = Rng64::from_seed(7);
    for _ in 0..10_000 {
        let n = rust_rt::utils::rand_unit_vec(&mut rng);
        let d = rust_rt::utils::rand_vec3(&mut rng);
        if n.x == 0 && n.y == 0 && n.z == 0 {
            continue;
        }
        let r = reflect(d, n);
        let rn = r.x as i128 * n.x as i128 + r.y as i128 * n.y as i128 + r.z as i128 * n.z as i128;
        let dn = d.x as i128 * n.x as i128 + d.y as i128 * n.y as i128 + d.z as i128 * n.z as i128;
        // Each reflected component truncates once, so the dot product is off
        // by at most |n.x| + |n.y| + |n.z| <= 3 * FP_ONE.
        let err = rn + dn;
        assert!(err.abs() <= 3 * FP_ONE as i128, "err {} for d {:?} n {:?}", err, d, n);
    }
}

/// Lambertian hemisphere sampling always leaves the surface: positive dot
/// product against the normal, over ten thousand draws.
#[test]
fn hemisphere_positive_dot() {
    let mut rng = Rng64::from_seed(99);
    let normals = [
        v(0, FP_ONE, 0),
        v(0, -FP_ONE, 0),
        v(2896, 2896, 0),
        v(-1000, 2000, 3000),
    ];
    for k in 0..10_000 {
        let n = normals[k % normals.len()];
        let h = rust_rt::utils::rand_in_hemisphere(&mut rng, n);
        let dot = h.x as i128 * n.x as i128 + h.y as i128 * n.y as i128 + h.z as i128 * n.z as i128;
        assert!(dot > 0);
        // The scatter direction n + h leaves the surface too.
        let sx = n.x + h.x;
        let sy = n.y + h.y;
        let sz = n.z + h.z;
        let sdot = sx as i128 * n.x as i128 + sy as i128 * n.y as i128 + sz as i128 * n.z as i128;
        assert!(sdot > 0);
    }
}
