//! Infinite planes.

use vstd::prelude::*;
use crate::fixed::FP_ONE;
use crate::fixed::tdiv;
use crate::fixed::div128;
use crate::fixed::mul_wide;
use crate::fixed::lemma_tdiv_abs_mono;
use crate::fixed::lemma_tdiv_bound;
use crate::fixed::lemma_mul_abs_bound;
use crate::vec3::Vec3;
use crate::vec3::in_bounds;
use crate::vec3::dot3;
use crate::vec3::sv;
use crate::vec3::tsub;
use crate::vec3::tdot;
use crate::vec3::COORD_LIMIT;
use crate::rendering::ray::Ray;
use crate::rendering::ray::ray_wf;
use crate::rendering::ray::ray_at_x;
use crate::rendering::ray::ray_at_y;
use crate::rendering::ray::ray_at_z;
use crate::rendering::materials::Material;
use crate::rendering::materials::material_wf;
use crate::scene::models::HitData;
use crate::scene::models::FAR_T;

verus! {

/// A ray within this of parallel to a surface counts as parallel: about 1e-6
/// in units of two unit vectors' raw dot product.
pub const DENOM_EPS: i64 = 16;

#[derive(Clone, Copy, PartialEq, Eq, Structural, Debug)]
pub struct Plane {
    pub position: Vec3,
    pub normal: Vec3,
    pub material: Material,
}

pub open spec fn plane_wf(p: Plane) -> bool {
    &&& in_bounds(p.position, 0x2_0000)
    &&& in_bounds(p.normal, FP_ONE as int)
    &&& dot3(p.normal, p.normal) > 0
    &&& material_wf(p.material)
}

/// Where a ray meets the plane through `position` with normal `normal`:
/// nearly parallel rays miss, the parameter must be positive and within the
/// far clip, and the point must lie within the world bounds.
pub open spec fn rp_hit_spec(r: Ray, position: Vec3, normal: Vec3) -> Option<Vec3> {
    let denom = tdot(sv(normal), sv(r.direction));
    if -DENOM_EPS <= denom <= DENOM_EPS {
        Option::None
    } else {
        let tn0 = tdot(tsub(sv(position), sv(r.origin)), sv(normal));
        let num = if denom > 0 {
            tn0
        } else {
            -tn0
        };
        let den = if denom > 0 {
            denom
        } else {
            -denom
        };
        if num <= 0 {
            Option::None
        } else {
            let tfp = tdiv(num * FP_ONE, den);
            if tfp > FAR_T {
                Option::None
            } else {
                let p = Vec3 {
                    x: ray_at_x(r, tfp) as i64,
                    y: ray_at_y(r, tfp) as i64,
                    z: ray_at_z(r, tfp) as i64,
                };
                if !in_bounds(p, COORD_LIMIT as int) {
                    Option::None
                } else {
                    Option::Some(p)
                }
            }
        }
    }
}

/// The positive-parameter intersection of a ray with a plane, or none for
/// (nearly) parallel rays, hits behind the origin, or hits beyond the world.
pub fn ray_plane_intersection(ray: &Ray, position: Vec3, normal: Vec3) -> (res: Option<Vec3>)
    requires
        ray_wf(*ray),
        in_bounds(position, 0x2_0000),
        in_bounds(normal, FP_ONE as int),
    ensures
        res == rp_hit_spec(*ray, position, normal),
        match res {
            Option::Some(p) => in_bounds(p, COORD_LIMIT as int),
            Option::None => true,
        },
{
    let r = *ray;
    proof {
        lemma_mul_abs_bound(normal.x as int, r.direction.x as int, FP_ONE as int, 0x8000);
        lemma_mul_abs_bound(normal.y as int, r.direction.y as int, FP_ONE as int, 0x8000);
        lemma_mul_abs_bound(normal.z as int, r.direction.z as int, FP_ONE as int, 0x8000);
    }
    let denom = normal.dot_raw(r.direction);
    if -DENOM_EPS <= denom && denom <= DENOM_EPS {
        return None;
    }
    let rel = position.vsub(r.origin);
    proof {
        lemma_mul_abs_bound(rel.x as int, normal.x as int, 0x8_0000, FP_ONE as int);
        lemma_mul_abs_bound(rel.y as int, normal.y as int, 0x8_0000, FP_ONE as int);
        lemma_mul_abs_bound(rel.z as int, normal.z as int, 0x8_0000, FP_ONE as int);
    }
    let tn0 = rel.dot_raw(normal);
    let (num, den): (i64, i64) = if denom > 0 {
        (tn0, denom)
    } else {
        (-tn0, -denom)
    };
    if num <= 0 {
        return None;
    }
    proof {
        lemma_mul_abs_bound(num as int, FP_ONE as int, 0x2_0000_0000, FP_ONE as int);
        lemma_tdiv_abs_mono(num * FP_ONE, 0x2_0000_0000 * FP_ONE as int, den as int);
        lemma_tdiv_bound(num * FP_ONE, den as int);
    }
    let tw = div128(mul_wide(num, FP_ONE), den as i128);
    if tw > FAR_T as i128 {
        return None;
    }
    let tfp: i64 = tw as i64;
    let p = r.at(tfp);
    if !p.within(COORD_LIMIT) {
        return None;
    }
    Some(p)
}

/// What `Plane::intersect` reports: the plane point with the plane's own
/// normal.
pub open spec fn plane_hit_spec(pl: Plane, r: Ray) -> Option<HitData> {
    match rp_hit_spec(r, pl.position, pl.normal) {
        Option::None => Option::None,
        Option::Some(p) => Option::Some(
            HitData {
                position: p,
                normal: pl.normal,
                bary: Vec3 { x: 0i64, y: 0i64, z: 0i64 },
                node_hits: 0u32,
            },
        ),
    }
}

impl Plane {
    pub fn new(position: Vec3, normal: Vec3, material: Material) -> (r: Plane)
        requires
            in_bounds(position, 0x2_0000),
            in_bounds(normal, FP_ONE as int),
            dot3(normal, normal) > 0,
            material_wf(material),
        ensures
            r == (Plane { position, normal, material }),
            plane_wf(r),
    {
        Plane { position, normal, material }
    }

    pub fn material(&self) -> (r: Material)
        ensures
            r == self.material,
    {
        self.material
    }

    pub fn intersect(&self, ray: &Ray) -> (res: Option<HitData>)
        requires
            plane_wf(*self),
            ray_wf(*ray),
        ensures
            res == plane_hit_spec(*self, *ray),
            match res {
                Option::Some(h) => {
                    &&& in_bounds(h.position, COORD_LIMIT as int)
                    &&& in_bounds(h.normal, 2 * FP_ONE as int)
                    &&& dot3(h.normal, h.normal) > 0
                },
                Option::None => true,
            },
    {
        match ray_plane_intersection(ray, self.position, self.normal) {
            Option::Some(p) => Some(
                HitData {
                    position: p,
                    normal: self.normal,
                    bary: Vec3 { x: 0, y: 0, z: 0 },
                    node_hits: 0,
                },
            ),
            Option::None => None,
        }
    }
}

} // verus!
