//! Parallelogram patches ("quads"), two-sided.

use vstd::prelude::*;
use crate::fixed::FP_ONE;
use crate::vec3::Vec3;
use crate::vec3::in_bounds;
use crate::vec3::dot3;
use crate::vec3::cross_x;
use crate::vec3::cross_y;
use crate::vec3::cross_z;
use crate::vec3::COORD_LIMIT;
use crate::rendering::ray::Ray;
use crate::rendering::ray::ray_wf;
use crate::rendering::materials::Material;
use crate::rendering::materials::material_wf;
use crate::scene::models::HitData;
use crate::scene::plane::rp_hit_spec;
use crate::scene::plane::ray_plane_intersection;
use crate::vec3::lemma_cross_bound;

verus! {

#[derive(Clone, Copy, PartialEq, Eq, Structural, Debug)]
pub struct Quad {
    pub position: Vec3,
    pub u: Vec3,
    pub v: Vec3,
    pub normal: Vec3,
    pub material: Material,
}

pub open spec fn quad_wf(q: Quad) -> bool {
    &&& in_bounds(q.position, 0x1_0000)
    &&& in_bounds(q.u, 0x1_0000)
    &&& in_bounds(q.v, 0x1_0000)
    &&& in_bounds(q.normal, FP_ONE as int)
    &&& dot3(q.normal, q.normal) > 0
    &&& material_wf(q.material)
}

/// The unnormalized face vector `u x v` as a (spec) vector.
pub open spec fn quad_cross(q: Quad) -> Vec3 {
    Vec3 {
        x: cross_x(q.u, q.v) as i64,
        y: cross_y(q.u, q.v) as i64,
        z: cross_z(q.u, q.v) as i64,
    }
}

/// What `Quad::intersect` reports: the plane hit, accepted when both exact
/// patch coordinates `alpha = (n.(P x v)) / (n.n)` and `beta = (n.(u x P)) / (n.n)`
/// lie in [0, 1] (compared without any division), with the normal flipped
/// against the incoming ray so both faces act as surfaces.
pub open spec fn quad_hit_spec(q: Quad, r: Ray) -> Option<HitData> {
    match rp_hit_spec(r, q.position, q.normal) {
        Option::None => Option::None,
        Option::Some(p) => {
            let rel = Vec3 {
                x: (p.x - q.position.x) as i64,
                y: (p.y - q.position.y) as i64,
                z: (p.z - q.position.z) as i64,
            };
            let n = quad_cross(q);
            let den = dot3(n, n);
            let alpha = dot3(
                n,
                Vec3 {
                    x: cross_x(rel, q.v) as i64,
                    y: cross_y(rel, q.v) as i64,
                    z: cross_z(rel, q.v) as i64,
                },
            );
            let beta = dot3(
                n,
                Vec3 {
                    x: cross_x(q.u, rel) as i64,
                    y: cross_y(q.u, rel) as i64,
                    z: cross_z(q.u, rel) as i64,
                },
            );
            if 0 <= alpha <= den && 0 <= beta <= den {
                let flipped = if tdotdir(q, r) > 0 {
                    Vec3 { x: (-q.normal.x) as i64, y: (-q.normal.y) as i64, z: (-q.normal.z) as i64 }
                } else {
                    q.normal
                };
                Option::Some(
                    HitData {
                        position: p,
                        normal: flipped,
                        bary: Vec3 { x: 0i64, y: 0i64, z: 0i64 },
                        node_hits: 0u32,
                    },
                )
            } else {
                Option::None
            }
        },
    }
}

/// The incoming direction against the stored unit normal.
pub open spec fn tdotdir(q: Quad, r: Ray) -> int {
    dot3(r.direction, q.normal)
}

impl Quad {
    /// A quad spanned by `u` and `v` from `position`. Its unit normal is the
    /// normalized `u x v`; a span so degenerate that the normalized cross
    /// rounds to zero falls back to the y axis (a real scene never hits this).
    pub fn new(position: Vec3, u: Vec3, v: Vec3, material: Material) -> (r: Quad)
        requires
            in_bounds(position, 0x1_0000),
            in_bounds(u, 0x1_0000),
            in_bounds(v, 0x1_0000),
            material_wf(material),
        ensures
            quad_wf(r),
            r.position == position,
            r.u == u,
            r.v == v,
            r.material == material,
            ({
                let c = quad_cross(r);
                (dot3(c, c) > 0 && !(c.normalized_spec().x == 0 && c.normalized_spec().y == 0
                    && c.normalized_spec().z == 0)) ==> r.normal == c.normalized_spec()
            }),
    {
        let c = u.cross_raw(v);
        proof {
            lemma_cross_bound(u, v, 0x1_0000, 0x1_0000);
        }
        let normal: Vec3 = if c.is_zero() {
            Vec3 { x: 0, y: FP_ONE, z: 0 }
        } else {
            proof {
                assert(dot3(c, c) > 0) by (nonlinear_arith)
                    requires
                        !(c.x == 0 && c.y == 0 && c.z == 0),
                ;
            }
            let n = c.normalized();
            if n.is_zero() {
                Vec3 { x: 0, y: FP_ONE, z: 0 }
            } else {
                n
            }
        };
        proof {
            assert(dot3(normal, normal) > 0) by (nonlinear_arith)
                requires
                    !(normal.x == 0 && normal.y == 0 && normal.z == 0),
            ;
        }
        Quad { position, u, v, normal, material }
    }

    pub fn material(&self) -> (r: Material)
        ensures
            r == self.material,
    {
        self.material
    }

    pub fn intersect(&self, ray: &Ray) -> (res: Option<HitData>)
        requires
            quad_wf(*self),
            ray_wf(*ray),
        ensures
            res == quad_hit_spec(*self, *ray),
            match res {
                Option::Some(h) => {
                    &&& in_bounds(h.position, COORD_LIMIT as int)
                    &&& in_bounds(h.normal, 2 * FP_ONE as int)
                    &&& dot3(h.normal, h.normal) > 0
                },
                Option::None => true,
            },
    {
        let q = *self;
        let r = *ray;
        let hit = ray_plane_intersection(ray, q.position, q.normal);
        match hit {
            Option::None => None,
            Option::Some(p) => {
                let rel = p.vsub(q.position);
                let n = q.u.cross_raw(q.v);
                let c1 = rel.cross_raw(q.v);
                let c2 = q.u.cross_raw(rel);
                proof {
                    lemma_cross_bound(q.u, q.v, 0x1_0000, 0x1_0000);
                    lemma_cross_bound(rel, q.v, 0x8_0000, 0x1_0000);
                    lemma_cross_bound(q.u, rel, 0x1_0000, 0x8_0000);
                }
                let den = n.dot_wide(n);
                let alpha = n.dot_wide(c1);
                let beta = n.dot_wide(c2);
                if 0 <= alpha && alpha <= den && 0 <= beta && beta <= den {
                    let facing = r.direction.dot_raw(q.normal);
                    let flipped = if facing > 0 {
                        q.normal.vneg()
                    } else {
                        q.normal
                    };
                    proof {
                        if facing > 0 {
                            assert(dot3(flipped, flipped) == dot3(q.normal, q.normal))
                                by (nonlinear_arith)
                                requires
                                    flipped.x == -q.normal.x,
                                    flipped.y == -q.normal.y,
                                    flipped.z == -q.normal.z,
                            ;
                        }
                    }
                    Some(
                        HitData {
                            position: p,
                            normal: flipped,
                            bary: Vec3 { x: 0, y: 0, z: 0 },
                            node_hits: 0,
                        },
                    )
                } else {
                    None
                }
            },
        }
    }
}

} // verus!
