//! Rays: an origin and an (unnormalized) direction.

use vstd::prelude::*;
use crate::fixed::FP_ONE;
use crate::fixed::tdiv;
use crate::fixed::lemma_mul_abs_bound;
use crate::vec3::Vec3;
use crate::vec3::in_bounds;
use crate::vec3::COORD_LIMIT;
use crate::vec3::DIR_LIMIT;
use crate::math::transform::Transform;
use crate::vec3::dot3;

verus! {

#[derive(Clone, Copy, PartialEq, Eq, Structural, Debug)]
pub struct Ray {
    pub origin: Vec3,
    pub direction: Vec3,
}

/// A ray the tracer works on: origin within the world bounds, direction of at
/// most a few fixed-point units and not zero.
pub open spec fn ray_wf(r: Ray) -> bool {
    &&& in_bounds(r.origin, COORD_LIMIT as int)
    &&& in_bounds(r.direction, DIR_LIMIT as int)
    &&& !(r.direction.x == 0 && r.direction.y == 0 && r.direction.z == 0)
}

/// The point `origin + t * direction`, componentwise, with the fixed-point
/// product truncated toward zero.
pub open spec fn ray_at_x(r: Ray, t: int) -> int {
    r.origin.x + tdiv(r.direction.x * t, FP_ONE as int)
}

pub open spec fn ray_at_y(r: Ray, t: int) -> int {
    r.origin.y + tdiv(r.direction.y * t, FP_ONE as int)
}

pub open spec fn ray_at_z(r: Ray, t: int) -> int {
    r.origin.z + tdiv(r.direction.z * t, FP_ONE as int)
}

impl Ray {
    pub fn new(origin: Vec3, direction: Vec3) -> (r: Ray)
        ensures
            r == (Ray { origin, direction }),
    {
        Ray { origin, direction }
    }

    /// The point at parameter `t` (fixed-point) along the ray.
    pub fn at(&self, t: i64) -> (p: Vec3)
        requires
            in_bounds(self.origin, 0x1000_0000_0000),
            in_bounds(self.direction, 0x7FFF_FFFF),
            -0x7FFF_FFFF <= t <= 0x7FFF_FFFF,
        ensures
            p.x == ray_at_x(*self, t as int),
            p.y == ray_at_y(*self, t as int),
            p.z == ray_at_z(*self, t as int),
    {
        let step = self.direction.scale_fp(t);
        proof {
            lemma_mul_abs_bound(self.direction.x as int, t as int, 0x7FFF_FFFF, 0x7FFF_FFFF);
            lemma_mul_abs_bound(self.direction.y as int, t as int, 0x7FFF_FFFF, 0x7FFF_FFFF);
            lemma_mul_abs_bound(self.direction.z as int, t as int, 0x7FFF_FFFF, 0x7FFF_FFFF);
            crate::fixed::lemma_tdiv_abs_mono(
                self.direction.x * t,
                0x7FFF_FFFFint * 0x7FFF_FFFFint,
                FP_ONE as int,
            );
            crate::fixed::lemma_tdiv_abs_mono(
                self.direction.y * t,
                0x7FFF_FFFFint * 0x7FFF_FFFFint,
                FP_ONE as int,
            );
            crate::fixed::lemma_tdiv_abs_mono(
                self.direction.z * t,
                0x7FFF_FFFFint * 0x7FFF_FFFFint,
                FP_ONE as int,
            );
            crate::fixed::lemma_tdiv_bound(0x7FFF_FFFFint * 0x7FFF_FFFFint, FP_ONE as int);
        }
        self.origin.vadd(step)
    }

    /// The ray expressed in the local space of `t`: origin through the inverse
    /// matrix, direction through the transposed inverse, renormalized.
    pub fn transform(&self, t: &Transform) -> (r: Ray)
        requires
            in_bounds(self.origin, COORD_LIMIT as int),
            in_bounds(self.direction, DIR_LIMIT as int),
            t.wf(),
            ({
                let d = t.inv.mul_dir_transposed_spec(self.direction);
                dot3(d, d) > 0
            }),
        ensures
            r.origin == t.inv.mul_point_spec(self.origin),
            r.direction == t.inv.mul_dir_transposed_spec(self.direction).normalized_spec(),
            in_bounds(r.direction, FP_ONE as int),
    {
        let o = t.inv.mul_point(self.origin);
        let d = t.inv.mul_dir_transposed(self.direction);
        proof {
            crate::math::transform::lemma_mul_dir_transposed_bounded(t.inv, self.direction);
        }
        Ray { origin: o, direction: d.normalized() }
    }
}

} // verus!
