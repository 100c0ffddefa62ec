//! Materials: Lambertian diffuse, metal with roughness, and emissive.

use vstd::prelude::*;
use crate::fixed::FP_ONE;
use crate::fixed::tdiv;
use crate::vec3::Vec3;
use crate::vec3::dot3;
use crate::vec3::in_bounds;
use crate::rendering::ray::Ray;
use crate::rng::Rng64;
use crate::utils::rand_in_hemisphere;
use crate::utils::rand_unit_vec;
use crate::utils::reflect;

verus! {

/// Largest radiance (or attenuation) channel value a material may carry:
/// 256.0 in fixed point.
pub const RAD_LIMIT: i64 = 0x10_0000;

/// An attenuation: channels in [0, 1].
pub open spec fn color_wf(c: Vec3) -> bool {
    &&& 0 <= c.x <= FP_ONE
    &&& 0 <= c.y <= FP_ONE
    &&& 0 <= c.z <= FP_ONE
}

/// An emitted radiance: nonnegative, bounded channels.
pub open spec fn radiance_wf(c: Vec3) -> bool {
    &&& 0 <= c.x <= RAD_LIMIT
    &&& 0 <= c.y <= RAD_LIMIT
    &&& 0 <= c.z <= RAD_LIMIT
}

#[derive(Clone, Copy, PartialEq, Eq, Structural, Debug)]
pub struct LambertianMaterial {
    pub albedo: Vec3,
}

impl LambertianMaterial {
    pub fn new(albedo: Vec3) -> (r: LambertianMaterial)
        requires
            color_wf(albedo),
        ensures
            r.albedo == albedo,
    {
        LambertianMaterial { albedo }
    }
}

#[derive(Clone, Copy, PartialEq, Eq, Structural, Debug)]
pub struct EmissiveMaterial {
    pub emit: Vec3,
}

impl EmissiveMaterial {
    pub fn new(emit: Vec3) -> (r: EmissiveMaterial)
        requires
            radiance_wf(emit),
        ensures
            r.emit == emit,
    {
        EmissiveMaterial { emit }
    }
}

#[derive(Clone, Copy, PartialEq, Eq, Structural, Debug)]
pub struct MetalMaterial {
    pub albedo: Vec3,
    pub roughness: i64,
}

impl MetalMaterial {
    pub fn new(albedo: Vec3, roughness: i64) -> (r: MetalMaterial)
        requires
            color_wf(albedo),
            0 <= roughness <= FP_ONE,
        ensures
            r.albedo == albedo,
            r.roughness == roughness,
    {
        MetalMaterial { albedo, roughness }
    }
}

/// The closed set of materials, dispatched without indirection.
#[derive(Clone, Copy, PartialEq, Eq, Structural, Debug)]
pub enum Material {
    Lambertian(LambertianMaterial),
    Metal(MetalMaterial),
    Emissive(EmissiveMaterial),
}

pub open spec fn material_wf(m: Material) -> bool {
    match m {
        Material::Lambertian(l) => color_wf(l.albedo),
        Material::Metal(mm) => color_wf(mm.albedo) && 0 <= mm.roughness <= FP_ONE,
        Material::Emissive(e) => radiance_wf(e.emit),
    }
}

/// What `attenuation` answers: the albedo, or the emitted radiance for an
/// emissive material.
pub open spec fn attenuation_spec(m: Material) -> Vec3 {
    match m {
        Material::Lambertian(l) => l.albedo,
        Material::Metal(mm) => mm.albedo,
        Material::Emissive(e) => e.emit,
    }
}

/// The metal scatter direction before normalization: the mirror of `d` about
/// `n` plus `roughness` times the unit sample `h` (fixed-point scaling).
pub open spec fn metal_dir0(d: Vec3, n: Vec3, roughness: i64, h: Vec3) -> Vec3 {
    let m = crate::utils::reflect_spec(d, n);
    Vec3 {
        x: (m.x + tdiv(h.x * roughness, FP_ONE as int)) as i64,
        y: (m.y + tdiv(h.y * roughness, FP_ONE as int)) as i64,
        z: (m.z + tdiv(h.z * roughness, FP_ONE as int)) as i64,
    }
}

/// A fuzzed metal direction the scatter cannot use: zero, out of the range
/// normalization accepts, or rounding to zero under normalization. Real
/// camera rays against real surfaces never produce one; the grid admits them.
pub open spec fn metal_degenerate(d0: Vec3) -> bool {
    ||| (d0.x == 0 && d0.y == 0 && d0.z == 0)
    ||| !in_bounds(d0, 0x4000_0000_0000)
    ||| ({
        let u = d0.normalized_spec();
        u.x == 0 && u.y == 0 && u.z == 0
    })
}

impl Material {
    /// The color this material multiplies into (or, for an emissive
    /// material, adds as) the path radiance. Position and normal do not
    /// matter for this closed set but remain part of the interface.
    pub fn attenuation(&self, position: Vec3, normal: Vec3) -> (r: Vec3)
        requires
            material_wf(*self),
        ensures
            r == attenuation_spec(*self),
            radiance_wf(r),
    {
        match self {
            Material::Lambertian(l) => l.albedo,
            Material::Metal(mm) => mm.albedo,
            Material::Emissive(e) => e.emit,
        }
    }

    /// Whether a hit on this material ends the path with its radiance.
    pub fn emissive(&self, position: Vec3, normal: Vec3) -> (r: bool)
        ensures
            r == (*self is Emissive),
    {
        match self {
            Material::Emissive(_) => true,
            _ => false,
        }
    }

    /// The next ray after a hit at `position` with surface normal `normal`,
    /// or none when the path ends here.
    ///
    /// - Lambertian: origin `position`, direction `normal + h` with `h` a
    ///   unit hemisphere sample, so the direction leaves the surface
    ///   (`direction . normal > 0`).
    /// - Metal: origin `position`, direction the mirror of the incoming
    ///   direction fuzzed by `roughness` times a unit sample, renormalized;
    ///   a degenerate fuzzed direction (zero, or out of range) absorbs the
    ///   path instead.
    /// - Emissive: none; the light ends the path.
    pub fn scatter(&self, in_ray: Ray, position: Vec3, normal: Vec3, rng: &mut Rng64) -> (res:
        Option<Ray>)
        requires
            material_wf(*self),
            in_bounds(position, 0x8_0000),
            in_bounds(normal, 2 * FP_ONE as int),
            dot3(normal, normal) > 0,
            in_bounds(in_ray.direction, 0x1_0000),
        ensures
            match res {
                Option::Some(r) => {
                    &&& r.origin == position
                    &&& in_bounds(r.direction, 4 * FP_ONE as int)
                    &&& !(r.direction.x == 0 && r.direction.y == 0 && r.direction.z == 0)
                    &&& (*self is Lambertian ==> dot3(r.direction, normal) > 0)
                },
                Option::None => *self is Emissive || *self is Metal,
            },
            *self is Emissive ==> res is None,
            *self is Lambertian ==> res is Some,
            // A metal scatter is the normalized mirror-plus-fuzz direction for
            // some unit sample; it declines only when that direction
            // degenerates on the grid.
            *self is Metal ==> match res {
                Option::Some(r) => exists|h: Vec3|
                    {
                        &&& in_bounds(h, FP_ONE as int)
                        &&& !metal_degenerate(
                            metal_dir0(in_ray.direction, normal, self->Metal_0.roughness, h),
                        )
                        &&& r.direction == metal_dir0(
                            in_ray.direction,
                            normal,
                            self->Metal_0.roughness,
                            h,
                        ).normalized_spec()
                    },
                Option::None => exists|h: Vec3|
                    {
                        &&& in_bounds(h, FP_ONE as int)
                        &&& metal_degenerate(
                            metal_dir0(in_ray.direction, normal, self->Metal_0.roughness, h),
                        )
                    },
            },
            // Success is owed to a polished metal whose pure mirror direction
            // is usable: with zero roughness the fuzz vanishes, so only a
            // degenerate mirror may absorb.
            (*self is Metal && self->Metal_0.roughness == 0 && !metal_degenerate(
                crate::utils::reflect_spec(in_ray.direction, normal),
            )) ==> res is Some,
    {
        match self {
            Material::Lambertian(_) => {
                let h = rand_in_hemisphere(rng, normal);
                let dir = normal.vadd(h);
                proof {
                    crate::utils::lemma_hemisphere_scatter(normal, h);
                    assert(dot3(dir, normal) > 0);
                    if dir.x == 0 && dir.y == 0 && dir.z == 0 {
                        assert(dot3(dir, normal) == 0) by (nonlinear_arith)
                            requires
                                dir.x == 0 && dir.y == 0 && dir.z == 0,
                        ;
                    }
                }
                Some(Ray { origin: position, direction: dir })
            },
            Material::Metal(mm) => {
                let mirrored = reflect(in_ray.direction, normal);
                let h = rand_unit_vec(rng);
                let fuzz = h.scale_fp(mm.roughness);
                proof {
                    crate::fixed::lemma_mul_abs_bound(
                        h.x as int,
                        mm.roughness as int,
                        FP_ONE as int,
                        FP_ONE as int,
                    );
                    crate::fixed::lemma_mul_abs_bound(
                        h.y as int,
                        mm.roughness as int,
                        FP_ONE as int,
                        FP_ONE as int,
                    );
                    crate::fixed::lemma_mul_abs_bound(
                        h.z as int,
                        mm.roughness as int,
                        FP_ONE as int,
                        FP_ONE as int,
                    );
                    crate::fixed::lemma_tdiv_abs_mono(
                        h.x * mm.roughness,
                        0x100_0000,
                        FP_ONE as int,
                    );
                    crate::fixed::lemma_tdiv_abs_mono(
                        h.y * mm.roughness,
                        0x100_0000,
                        FP_ONE as int,
                    );
                    crate::fixed::lemma_tdiv_abs_mono(
                        h.z * mm.roughness,
                        0x100_0000,
                        FP_ONE as int,
                    );
                    crate::fixed::lemma_tdiv_bound(0x100_0000, FP_ONE as int);
                }
                let dir = mirrored.vadd(fuzz);
                proof {
                    assert(dir == metal_dir0(in_ray.direction, normal, mm.roughness, h));
                    // With zero roughness the fuzz vanishes and the fuzzed
                    // direction is exactly the mirror.
                    if mm.roughness == 0 {
                        assert(h.x * mm.roughness == 0 && h.y * mm.roughness == 0 && h.z
                            * mm.roughness == 0) by (nonlinear_arith)
                            requires
                                mm.roughness == 0,
                        ;
                        vstd::arithmetic::div_mod::lemma_div_of0(FP_ONE as int);
                        assert(dir == crate::utils::reflect_spec(in_ray.direction, normal));
                    }
                }
                if dir.is_zero() || !dir.within(0x4000_0000_0000) {
                    proof {
                        assert(metal_degenerate(dir));
                    }
                    return None;
                }
                proof {
                    assert(dot3(dir, dir) > 0) by (nonlinear_arith)
                        requires
                            !(dir.x == 0 && dir.y == 0 && dir.z == 0),
                    ;
                }
                let unit = dir.normalized();
                if unit.is_zero() {
                    proof {
                        assert(metal_degenerate(dir));
                    }
                    return None;
                }
                proof {
                    assert(!metal_degenerate(dir));
                }
                Some(Ray { origin: position, direction: unit })
            },
            Material::Emissive(_) => None,
        }
    }
}

} // verus!
