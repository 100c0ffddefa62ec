//! Spheres and their ray intersection (the quadratic, over exact integers).

use vstd::prelude::*;
use crate::fixed::FP_ONE;
use crate::fixed::tdiv;
use crate::fixed::isqrt;
use crate::fixed::div64;
use crate::fixed::div128;
use crate::fixed::mul_wide;
use crate::fixed::isqrt_u128;
use crate::fixed::lemma_mul_abs_bound;
use crate::fixed::lemma_tdiv_abs_mono;
use crate::fixed::lemma_tdiv_bound;
use crate::vec3::Vec3;
use crate::vec3::in_bounds;
use crate::vec3::dot3;
use crate::vec3::sv;
use crate::vec3::tsub;
use crate::vec3::tdot;
use crate::vec3::COORD_LIMIT;
use crate::rendering::ray::Ray;
use crate::rendering::ray::ray_wf;
use crate::rendering::ray::ray_at_x;
use crate::rendering::ray::ray_at_y;
use crate::rendering::ray::ray_at_z;
use crate::rendering::materials::Material;
use crate::rendering::materials::material_wf;
use crate::scene::models::HitData;
use crate::scene::models::FAR_T;

verus! {

#[derive(Clone, Copy, PartialEq, Eq, Structural, Debug)]
pub struct Sphere {
    pub position: Vec3,
    pub radius: i64,
    pub material: Material,
}

pub open spec fn sphere_wf(s: Sphere) -> bool {
    &&& in_bounds(s.position, 0x1_0000)
    &&& 0 < s.radius <= 0x1_0000
    &&& material_wf(s.material)
}

/// Quadratic coefficients of `|o + t d - c|^2 == radius^2`, exact.
pub open spec fn sph_l(s: Sphere, r: Ray) -> (int, int, int) {
    tsub(sv(r.origin), sv(s.position))
}

pub open spec fn sph_a(r: Ray) -> int {
    tdot(sv(r.direction), sv(r.direction))
}

pub open spec fn sph_b(s: Sphere, r: Ray) -> int {
    2 * tdot(sv(r.direction), sph_l(s, r))
}

pub open spec fn sph_c(s: Sphere, r: Ray) -> int {
    tdot(sph_l(s, r), sph_l(s, r)) - s.radius * s.radius
}

pub open spec fn sph_disc(s: Sphere, r: Ray) -> int {
    sph_b(s, r) * sph_b(s, r) - 4 * sph_a(r) * sph_c(s, r)
}

/// The numerator of the accepted root over the denominator `2 a`: the
/// smaller root when positive, else the larger when positive, else a miss.
pub open spec fn sph_t_num(s: Sphere, r: Ray) -> Option<int> {
    if sph_disc(s, r) <= 0 {
        Option::None
    } else {
        let sq = isqrt(sph_disc(s, r));
        let n1 = -sph_b(s, r) - sq;
        let n2 = -sph_b(s, r) + sq;
        if n1 > 0 {
            Option::Some(n1)
        } else if n2 > 0 {
            Option::Some(n2)
        } else {
            Option::None
        }
    }
}

/// Everything `Sphere::intersect` reports, guards included: the fixed-point
/// hit parameter within the far clip, the hit point within the world bounds,
/// and an outward normal `(p - c) / radius` that is usable (nonzero, about
/// unit length).
pub open spec fn sphere_hit_spec(s: Sphere, r: Ray) -> Option<HitData> {
    match sph_t_num(s, r) {
        Option::None => Option::None,
        Option::Some(num) => {
            let den = 2 * sph_a(r);
            let tfp = tdiv(num * FP_ONE, den);
            if tfp > FAR_T {
                Option::None
            } else {
                let p = Vec3 {
                    x: ray_at_x(r, tfp) as i64,
                    y: ray_at_y(r, tfp) as i64,
                    z: ray_at_z(r, tfp) as i64,
                };
                if !in_bounds(p, COORD_LIMIT as int) {
                    Option::None
                } else {
                    let n = Vec3 {
                        x: tdiv((p.x - s.position.x) * FP_ONE, s.radius as int) as i64,
                        y: tdiv((p.y - s.position.y) * FP_ONE, s.radius as int) as i64,
                        z: tdiv((p.z - s.position.z) * FP_ONE, s.radius as int) as i64,
                    };
                    if !in_bounds(n, 2 * FP_ONE as int) || (n.x == 0 && n.y == 0 && n.z == 0) {
                        Option::None
                    } else {
                        Option::Some(
                            HitData {
                                position: p,
                                normal: n,
                                bary: Vec3 { x: 0i64, y: 0i64, z: 0i64 },
                                node_hits: 0u32,
                            },
                        )
                    }
                }
            }
        },
    }
}

impl Sphere {
    pub fn new(position: Vec3, radius: i64, material: Material) -> (r: Sphere)
        requires
            in_bounds(position, 0x1_0000),
            0 < radius <= 0x1_0000,
            material_wf(material),
        ensures
            r == (Sphere { position, radius, material }),
            sphere_wf(r),
    {
        Sphere { position, radius, material }
    }

    pub fn material(&self) -> (r: Material)
        ensures
            r == self.material,
    {
        self.material
    }

    /// Nearest positive intersection with the sphere, if any: the smaller
    /// positive root of the quadratic, with normal `(p - c) / radius`.
    pub fn intersect(&self, ray: &Ray) -> (res: Option<HitData>)
        requires
            sphere_wf(*self),
            ray_wf(*ray),
        ensures
            res == sphere_hit_spec(*self, *ray),
            match res {
                Option::Some(h) => {
                    &&& in_bounds(h.position, COORD_LIMIT as int)
                    &&& in_bounds(h.normal, 2 * FP_ONE as int)
                    &&& dot3(h.normal, h.normal) > 0
                },
                Option::None => true,
            },
    {
        let s = *self;
        let r = *ray;
        let l = r.origin.vsub(s.position);
        let a = r.direction.dot_raw(r.direction);
        proof {
            assert(a > 0) by (nonlinear_arith)
                requires
                    a == r.direction.x * r.direction.x + r.direction.y * r.direction.y
                        + r.direction.z * r.direction.z,
                    !(r.direction.x == 0 && r.direction.y == 0 && r.direction.z == 0),
            ;
            lemma_mul_abs_bound(r.direction.x as int, r.direction.x as int, 0x8000, 0x8000);
            lemma_mul_abs_bound(r.direction.y as int, r.direction.y as int, 0x8000, 0x8000);
            lemma_mul_abs_bound(r.direction.z as int, r.direction.z as int, 0x8000, 0x8000);
            lemma_mul_abs_bound(r.direction.x as int, l.x as int, 0x8000, 0x8_0000);
            lemma_mul_abs_bound(r.direction.y as int, l.y as int, 0x8000, 0x8_0000);
            lemma_mul_abs_bound(r.direction.z as int, l.z as int, 0x8000, 0x8_0000);
            lemma_mul_abs_bound(s.radius as int, s.radius as int, 0x1_0000, 0x1_0000);
            lemma_mul_abs_bound(l.x as int, l.x as int, 0x8_0000, 0x8_0000);
            lemma_mul_abs_bound(l.y as int, l.y as int, 0x8_0000, 0x8_0000);
            lemma_mul_abs_bound(l.z as int, l.z as int, 0x8_0000, 0x8_0000);
        }
        let b: i64 = 2 * r.direction.dot_raw(l);
        let cc: i64 = l.dot_raw(l) - s.radius * s.radius;
        let a4: i128 = 4 * (a as i128);
        proof {
            lemma_mul_abs_bound(a4 as int, cc as int, 0x3_0000_0000, 0x2_0000_0000_0000);
            lemma_mul_abs_bound(b as int, b as int, 0x2_0000_0000_0000, 0x2_0000_0000_0000);
        }
        let disc: i128 = mul_wide(b, b) - a4 * (cc as i128);
        proof {
            assert(disc == sph_disc(s, r)) by (nonlinear_arith)
                requires
                    disc == b * b - (4 * (a as int)) * cc,
                    b == sph_b(s, r),
                    a == sph_a(r),
                    cc == sph_c(s, r),
            ;
        }
        if disc <= 0 {
            return None;
        }
        proof {
            assert(disc <= 0x8_0000_0000_0000_0000_0000_0000int);
        }
        let sq64 = isqrt_u128(disc as u128);
        proof {
            assert((sq64 as int) * (sq64 as int) <= disc);
            assert(sq64 < 0x4_0000_0000_0000u64) by (nonlinear_arith)
                requires
                    (sq64 as int) * (sq64 as int) <= disc,
                    disc <= 0x8_0000_0000_0000_0000_0000_0000int,
                    sq64 >= 0,
            ;
        }
        let sq: i64 = sq64 as i64;
        let n1: i64 = -b - sq;
        let n2: i64 = -b + sq;
        let num: i64 = if n1 > 0 {
            n1
        } else if n2 > 0 {
            n2
        } else {
            return None;
        };
        let den: i64 = 2 * a;
        proof {
            lemma_mul_abs_bound(num as int, FP_ONE as int, 0x4_0000_0000_0000_0000, FP_ONE as int);
            lemma_tdiv_abs_mono(
                num * FP_ONE,
                0x4_0000_0000_0000_0000 * FP_ONE as int,
                den as int,
            );
            lemma_tdiv_bound(0x4_0000_0000_0000_0000 * FP_ONE as int, den as int);
        }
        let tw = div128(mul_wide(num, FP_ONE), den as i128);
        if tw > FAR_T as i128 {
            return None;
        }
        proof {
            lemma_tdiv_bound(num * FP_ONE, den as int);
        }
        let tfp: i64 = tw as i64;
        let p = r.at(tfp);
        if !p.within(COORD_LIMIT) {
            return None;
        }
        proof {
            lemma_mul_abs_bound((p.x - s.position.x) as int, FP_ONE as int, 0x8_0000, FP_ONE as int);
            lemma_mul_abs_bound((p.y - s.position.y) as int, FP_ONE as int, 0x8_0000, FP_ONE as int);
            lemma_mul_abs_bound((p.z - s.position.z) as int, FP_ONE as int, 0x8_0000, FP_ONE as int);
        }
        let nx = div64((p.x - s.position.x) * FP_ONE, s.radius);
        let ny = div64((p.y - s.position.y) * FP_ONE, s.radius);
        let nz = div64((p.z - s.position.z) * FP_ONE, s.radius);
        let n = Vec3 { x: nx, y: ny, z: nz };
        if !n.within(2 * FP_ONE) || n.is_zero() {
            return None;
        }
        proof {
            assert(dot3(n, n) > 0) by (nonlinear_arith)
                requires
                    !(n.x == 0 && n.y == 0 && n.z == 0),
            ;
        }
        Some(HitData { position: p, normal: n, bary: Vec3 { x: 0, y: 0, z: 0 }, node_hits: 0 })
    }
}

} // verus!
