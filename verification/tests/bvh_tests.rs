//! The hierarchy against the linear scan, and triangle conservation.

use rust_rt::fixed::FP_ONE;
use rust_rt::vec3::Vec3;
use rust_rt::rendering::ray::Ray;
use rust_rt::scene::bvh::BVH;
use rust_rt::scene::triangle::Triangle;
use rust_rt::rng::Rng64;

fn v(x: i64, y: i64, z: i64) -> Vec3 {
    Vec3 { x, y, z }
}

fn coord(rng: &mut Rng64) -> i64 {
    // A coordinate within +-8 world units.
    (rng.next_u64() % (16 * FP_ONE as u64 + 1)) as i64 - 8 * FP_ONE
}

fn random_tris(rng: &mut Rng64, n: usize) -> Vec<Triangle> {
    let mut tris = Vec::new();
    for _ in 0..n {
        let base = v(coord(rng), coord(rng), coord(rng));
        let spread: i64 = 2 * FP_ONE;
        let e = |rng: &mut Rng64| (rng.next_u64() % (2 * spread as u64 + 1)) as i64 - spread;
        let v1 = v(base.x + e(rng), base.y + e(rng), base.z + e(rng));
        let v2 = v(base.x + e(rng), base.y + e(rng), base.z + e(rng));
        tris.push(Triangle::from_verts(base, v1, v2));
    }
    tris
}

fn tri_key(t: &Triangle) -> [i64; 9] {
    [
        t.v0.x, t.v0.y, t.v0.z, t.v1.x, t.v1.y, t.v1.z, t.v2.x, t.v2.y, t.v2.z,
    ]
}

/// Traversal equals the naive scan over every triangle, for many random
/// scenes and rays: same hit or miss, same point, normal and barycentrics.
#[test]
fn bvh_matches_linear_scan() {
    let mut rng = Rng64::from_seed(2024);
    for round in 0..12 {
        let n = 1 + (round * 41) % 120;
        let tris = random_tris(&mut rng, n);
        let mut bvh = BVH::new(tris);
        bvh.build();
        for _ in 0..120 {
            let origin = v(coord(&mut rng), coord(&mut rng), coord(&mut rng));
            let dir = rust_rt::utils::rand_unit_vec(&mut rng);
            if dir.x == 0 && dir.y == 0 && dir.z == 0 {
                continue;
            }
            let ray = Ray::new(origin, dir);
            let a = bvh.intersect(&ray);
            let b = bvh.intersect_linear(&ray);
            match (a, b) {
                (None, None) => {}
                (Some(ha), Some(hb)) => {
                    assert_eq!(ha.position, hb.position);
                    assert_eq!(ha.normal, hb.normal);
                    assert_eq!(ha.bary, hb.bary);
                }
                (x, y) => panic!("bvh {:?} vs linear {:?}", x.is_some(), y.is_some()),
            }
        }
    }
}

/// A larger single scene: five hundred random triangles, hit data identical
/// between the hierarchy and the scan for every probe ray (the image a
/// renderer would form from either is bit-for-bit the same).
#[test]
fn bvh_equivalence_five_hundred() {
    let mut rng = Rng64::from_seed(5);
    let tris = random_tris(&mut rng, 500);
    let mut bvh = BVH::new(tris);
    bvh.build();
    let mut hits = 0usize;
    for _ in 0..400 {
        let origin = v(coord(&mut rng), coord(&mut rng), coord(&mut rng));
        let dir = rust_rt::utils::rand_unit_vec(&mut rng);
        if dir.x == 0 && dir.y == 0 && dir.z == 0 {
            continue;
        }
        let ray = Ray::new(origin, dir);
        let a = bvh.intersect(&ray);
        let b = bvh.intersect_linear(&ray);
        match (a, b) {
            (None, None) => {}
            (Some(ha), Some(hb)) => {
                hits += 1;
                assert_eq!(ha.position, hb.position);
                assert_eq!(ha.normal, hb.normal);
                assert_eq!(ha.bary, hb.bary);
            }
            (x, y) => panic!("bvh {:?} vs linear {:?}", x.is_some(), y.is_some()),
        }
    }
    assert!(hits > 0, "the probe rays never hit anything");
}

/// Building the hierarchy conserves the triangles: the leaf counts sum to the
/// input count and the triangle array is a permutation of the input.
#[test]
fn bvh_triangle_conservation() {
    let mut rng = Rng64::from_seed(77);
    let tris = random_tris(&mut rng, 257);
    let mut before: Vec<[i64; 9]> = tris.iter().map(tri_key).collect();
    before.sort();
    let mut bvh = BVH::new(tris);
    bvh.build();
    // Sum of tri counts over the leaves.
    let mut leaf_sum = 0usize;
    for node in &bvh.nodes {
        if node.leaf {
            leaf_sum += node.tris;
        }
    }
    assert_eq!(leaf_sum, bvh.tris.len());
    assert_eq!(bvh.tris.len(), 257);
    // Permutation of the input multiset.
    let mut after: Vec<[i64; 9]> = bvh.tris.iter().map(tri_key).collect();
    after.sort();
    assert_eq!(before, after);
    // Every leaf range lies within the array and leaf ranges are disjoint.
    let mut covered = vec![false; bvh.tris.len()];
    for node in &bvh.nodes {
        if node.leaf {
            for k in node.first..node.first + node.tris {
                assert!(!covered[k], "leaf ranges overlap");
                covered[k] = true;
            }
        }
    }
    assert!(covered.iter().all(|c| *c));
}

/// An empty mesh is a valid state whose queries always miss.
#[test]
fn bvh_empty_always_misses() {
    let mut bvh = BVH::new(Vec::new());
    bvh.build();
    let ray = Ray::new(v(0, 0, 0), v(0, 0, FP_ONE));
    assert!(bvh.intersect(&ray).is_none());
    assert!(bvh.intersect_linear(&ray).is_none());
}
