//! The progressive path-tracing kernel.

use vstd::prelude::*;
use crate::fixed::FP_ONE;
use crate::fixed::tdiv;
use crate::fixed::div64;
use crate::fixed::lemma_tdiv_bound;
use crate::fixed::lemma_tdiv_mono;
use crate::fixed::lemma_tdiv_multiple;
use crate::fixed::lemma_mul_abs_bound;
use crate::vec3::Vec3;
use crate::vec3::in_bounds;
use crate::vec3::COORD_LIMIT;
use crate::rendering::ray::Ray;
use crate::rendering::ray::ray_wf;
use crate::rendering::framebuffer::Framebuffer;
use crate::rendering::framebuffer::fb_wf;
use crate::rendering::framebuffer::ACCUM_LIMIT;
use crate::rendering::materials::RAD_LIMIT;
use crate::rendering::materials::color_wf;
use crate::rendering::materials::radiance_wf;
use crate::rendering::ray_camera::RayCamera;
use crate::rendering::ray_camera::cam_wf;
use crate::scene::models::Scene;
use crate::scene::models::scene_wf;
use crate::rng::Rng64;
use crate::utils::nudge;

verus! {

/// The background radiance for a miss: a vertical gradient from white at the
/// horizon's floor to a light blue at the zenith, over the clamped direction
/// height.
pub open spec fn sky_spec(dir: Vec3) -> Vec3 {
    let t0 = tdiv(dir.y + FP_ONE, 2);
    let t = if t0 < 0 {
        0
    } else if t0 > FP_ONE {
        FP_ONE as int
    } else {
        t0
    };
    Vec3 {
        x: (FP_ONE - tdiv(t * 117, 255)) as i64,
        y: (FP_ONE - tdiv(t * 67, 255)) as i64,
        z: FP_ONE,
    }
}

/// The sky gradient: `(1-t) + t * (138,188,255)/255` with
/// `t = (dir.y + 1) / 2`, clamped to the unit interval.
pub fn sky_color(ray: &Ray) -> (r: Vec3)
    requires
        in_bounds(ray.direction, 0x1_0000),
    ensures
        r == sky_spec(ray.direction),
        color_wf(r),
{
    proof {
        lemma_tdiv_bound((ray.direction.y + FP_ONE) as int, 2);
    }
    let t0 = div64(ray.direction.y + FP_ONE, 2);
    let t: i64 = if t0 < 0 {
        0
    } else if t0 > FP_ONE {
        FP_ONE
    } else {
        t0
    };
    proof {
        lemma_tdiv_mono(t * 117, FP_ONE * 117, 255);
        lemma_tdiv_mono(0, t * 117, 255);
        lemma_tdiv_mono(t * 67, FP_ONE * 67, 255);
        lemma_tdiv_mono(0, t * 67, 255);
        assert(tdiv(0, 255) == 0) by {
            vstd::arithmetic::div_mod::lemma_div_of0(255);
        }
    }
    let gx = div64(t * 117, 255);
    let gy = div64(t * 67, 255);
    Vec3 { x: FP_ONE - gx, y: FP_ONE - gy, z: FP_ONE }
}

/// Componentwise product of a throughput (channels in [0, 1]) with a
/// radiance: each channel shrinks, staying within its factor.
fn mul_color(t: Vec3, c: Vec3) -> (r: Vec3)
    requires
        color_wf(t),
        radiance_wf(c),
    ensures
        r.x == tdiv(t.x * c.x, FP_ONE as int),
        r.y == tdiv(t.y * c.y, FP_ONE as int),
        r.z == tdiv(t.z * c.z, FP_ONE as int),
        0 <= r.x <= c.x,
        0 <= r.y <= c.y,
        0 <= r.z <= c.z,
    {
    proof {
        lemma_mul_abs_bound(t.x as int, c.x as int, FP_ONE as int, RAD_LIMIT as int);
        lemma_mul_abs_bound(t.y as int, c.y as int, FP_ONE as int, RAD_LIMIT as int);
        lemma_mul_abs_bound(t.z as int, c.z as int, FP_ONE as int, RAD_LIMIT as int);
        assert(0 <= t.x * c.x <= c.x * FP_ONE) by (nonlinear_arith)
            requires
                0 <= t.x <= FP_ONE,
                0 <= c.x,
        ;
        assert(0 <= t.y * c.y <= c.y * FP_ONE) by (nonlinear_arith)
            requires
                0 <= t.y <= FP_ONE,
                0 <= c.y,
        ;
        assert(0 <= t.z * c.z <= c.z * FP_ONE) by (nonlinear_arith)
            requires
                0 <= t.z <= FP_ONE,
                0 <= c.z,
        ;
        lemma_tdiv_mono(0, t.x * c.x, FP_ONE as int);
        lemma_tdiv_mono(t.x * c.x, c.x * FP_ONE, FP_ONE as int);
        lemma_tdiv_mono(0, t.y * c.y, FP_ONE as int);
        lemma_tdiv_mono(t.y * c.y, c.y * FP_ONE, FP_ONE as int);
        lemma_tdiv_mono(0, t.z * c.z, FP_ONE as int);
        lemma_tdiv_mono(t.z * c.z, c.z * FP_ONE, FP_ONE as int);
        lemma_tdiv_multiple(c.x as int, FP_ONE as int);
        lemma_tdiv_multiple(c.y as int, FP_ONE as int);
        lemma_tdiv_multiple(c.z as int, FP_ONE as int);
        assert(tdiv(0, FP_ONE as int) == 0) by {
            vstd::arithmetic::div_mod::lemma_div_of0(FP_ONE as int);
        }
    }
    Vec3 {
        x: crate::fixed::mul_fp(t.x, c.x),
        y: crate::fixed::mul_fp(t.y, c.y),
        z: crate::fixed::mul_fp(t.z, c.z),
    }
}

/// Everything `cast` promises of an estimate `r` for `ray`, whatever the
/// generator drew: channels within `[0, RAD_LIMIT]`, and — whenever there is
/// any bounce budget — the first interaction pinned exactly. A miss yields
/// the sky gradient (black with the environment light off); an emissive first
/// hit yields its radiance; a non-emissive first hit with zero attenuation
/// forces an exactly black estimate, whatever happens afterwards.
pub open spec fn cast_post(scene: Scene, ray: Ray, bounces: u32, r: Vec3) -> bool {
    &&& 0 <= r.x <= RAD_LIMIT
    &&& 0 <= r.y <= RAD_LIMIT
    &&& 0 <= r.z <= RAD_LIMIT
    &&& (bounces > 0 ==> match crate::scene::models::scene_best(
        scene.scene_objects@,
        ray,
        0,
        scene.scene_objects@.len() as int,
    ) {
        Option::None => r == if scene.environment_light {
            sky_spec(ray.direction)
        } else {
            Vec3 { x: 0i64, y: 0i64, z: 0i64 }
        },
        Option::Some((bi, sh)) => {
            let m = crate::scene::models::object_material(scene.scene_objects@[bi]);
            &&& (m is Emissive ==> r == crate::rendering::materials::attenuation_spec(m))
            &&& ((!(m is Emissive) && crate::rendering::materials::attenuation_spec(m) == (Vec3 {
                x: 0i64,
                y: 0i64,
                z: 0i64,
            })) ==> r == (Vec3 { x: 0i64, y: 0i64, z: 0i64 }))
        },
    })
}

/// A ray the camera may hand a sample pass for pixel (x, y): the camera's
/// position with either the jittered viewport direction for some jitter, or
/// the view direction itself (the camera's degenerate fallback).
pub open spec fn admissible_primary(c: RayCamera, x: int, y: int, w: int, h: int, ray: Ray) -> bool {
    &&& ray.origin == c.position
    &&& ray_wf(ray)
    &&& in_bounds(ray.direction, FP_ONE as int)
    &&& (ray.direction == c.direction || exists|jx: int, jy: int|
        {
            &&& -2048 <= jx < 2048
            &&& -2048 <= jy < 2048
            &&& ray.direction == #[trigger] crate::rendering::ray_camera::primary_dir_spec(
                c,
                x,
                y,
                w,
                h,
                jx,
                jy,
            )
        })
}

/// The value one sample pass may add to pixel (x, y): a radiance estimate
/// cast along some admissible primary ray of that pixel.
pub open spec fn pixel_sample(
    scene: Scene,
    c: RayCamera,
    w: int,
    h: int,
    x: int,
    y: int,
    bounces: u32,
    v: Vec3,
) -> bool {
    exists|ray: Ray|
        #[trigger] admissible_primary(c, x, y, w, h, ray) && cast_post(scene, ray, bounces, v)
}

/// What the normals debug pass leaves in a pixel: the nearest-hit normal of
/// some admissible primary ray of that pixel, or zero where it misses.
pub open spec fn pixel_normal_view(
    scene: Scene,
    c: RayCamera,
    w: int,
    h: int,
    x: int,
    y: int,
    cell: Vec3,
) -> bool {
    exists|ray: Ray|
        #[trigger] admissible_primary(c, x, y, w, h, ray) && match crate::scene::models::scene_best(
            scene.scene_objects@,
            ray,
            0,
            scene.scene_objects@.len() as int,
        ) {
            Option::None => cell == (Vec3 { x: 0i64, y: 0i64, z: 0i64 }),
            Option::Some((bi, sh)) => cell == sh.normal,
        }
}

/// One gray heat value: `node_hits / 10` as fixed point on all channels.
pub open spec fn heat_gray(nh: u32) -> Vec3 {
    let s = tdiv((nh as int) * FP_ONE, 10);
    Vec3 { x: s as i64, y: s as i64, z: s as i64 }
}

/// What the heat debug pass leaves in a pixel: a gray value of some interior
/// descent count where an admissible primary ray of that pixel hits, or zero
/// where it misses. (The descent count itself is a debug observation no
/// contract pins.)
pub open spec fn pixel_heat_view(
    scene: Scene,
    c: RayCamera,
    w: int,
    h: int,
    x: int,
    y: int,
    cell: Vec3,
) -> bool {
    exists|ray: Ray|
        #[trigger] admissible_primary(c, x, y, w, h, ray) && match crate::scene::models::scene_best(
            scene.scene_objects@,
            ray,
            0,
            scene.scene_objects@.len() as int,
        ) {
            Option::None => cell == (Vec3 { x: 0i64, y: 0i64, z: 0i64 }),
            Option::Some((bi, sh)) => exists|nh: u32| cell == #[trigger] heat_gray(nh),
        }
}

/// The componentwise sum of a sequence of sample values.
pub open spec fn vsum(s: Seq<Vec3>) -> (int, int, int)
    decreases s.len(),
{
    if s.len() == 0 {
        (0int, 0int, 0int)
    } else {
        let r = vsum(s.drop_last());
        (r.0 + s.last().x, r.1 + s.last().y, r.2 + s.last().z)
    }
}

/// The cell a finished full render leaves for pixel (x, y): the truncated
/// per-channel mean of `samples` many admissible radiance estimates of that
/// pixel.
pub open spec fn mean_of_samples(
    scene: Scene,
    c: RayCamera,
    w: int,
    h: int,
    x: int,
    y: int,
    bounces: u32,
    samples: int,
    cell: Vec3,
) -> bool {
    exists|vs: Seq<Vec3>|
        #![auto]
        {
            &&& vs.len() == samples
            &&& (forall|kk: int|
                0 <= kk < vs.len() ==> pixel_sample(
                    scene,
                    c,
                    w,
                    h,
                    x,
                    y,
                    bounces,
                    #[trigger] vs[kk],
                ))
            &&& cell == (Vec3 {
                x: tdiv(vsum(vs).0, samples) as i64,
                y: tdiv(vsum(vs).1, samples) as i64,
                z: tdiv(vsum(vs).2, samples) as i64,
            })
        }
}

/// Multiplying a zero throughput leaves exact zero.
proof fn lemma_mul_color_zero(t: Vec3, c: Vec3, r: Vec3)
    requires
        t == (Vec3 { x: 0i64, y: 0i64, z: 0i64 }),
        r.x == tdiv(t.x * c.x, FP_ONE as int),
        r.y == tdiv(t.y * c.y, FP_ONE as int),
        r.z == tdiv(t.z * c.z, FP_ONE as int),
    ensures
        r == (Vec3 { x: 0i64, y: 0i64, z: 0i64 }),
{
    assert(t.x * c.x == 0 && t.y * c.y == 0 && t.z * c.z == 0) by (nonlinear_arith)
        requires
            t.x == 0 && t.y == 0 && t.z == 0,
    ;
    vstd::arithmetic::div_mod::lemma_div_of0(FP_ONE as int);
}

pub struct Renderer {
    pub num_samples: u32,
    pub num_bounces: u32,
}

impl Renderer {
    /// A fresh renderer: no accumulated samples, ten bounces.
    pub fn new() -> (r: Renderer)
        ensures
            r.num_samples == 0,
            r.num_bounces == 10,
    {
        Renderer { num_samples: 0, num_bounces: 10 }
    }

    /// Forget the accumulated sample count (the framebuffer is cleared
    /// separately; the two must be reset together on any pose change).
    pub fn reset(&mut self)
        ensures
            final (self).num_samples == 0,
            final (self).num_bounces == old(self).num_bounces,
    {
        self.num_samples = 0;
    }

    /// One radiance estimate along `ray`: follow scatters up to the bounce
    /// budget, multiplying attenuations; an emissive hit or the sky (when the
    /// scene's environment light is on) ends the path with its radiance,
    /// absorption or an exhausted budget with black. The estimate satisfies
    /// `cast_post`: bounded channels, and the first interaction pinned.
    pub fn cast(&self, scene: &Scene, ray: Ray, rng: &mut Rng64) -> (r: Vec3)
        requires
            scene_wf(*scene),
            ray_wf(ray),
        ensures
            cast_post(*scene, ray, self.num_bounces, r),
    {
        let ghost objs = scene.scene_objects@;
        let ghost best0 = crate::scene::models::scene_best(objs, ray, 0, objs.len() as int);
        if self.num_bounces == 0 {
            return Vec3 { x: 0, y: 0, z: 0 };
        }
        // The first interaction, with unit throughput: it decides the cases
        // the contract pins exactly.
        let mut throughput: Vec3;
        let mut cur: Ray;
        let ghost mut first_zero: bool = false;
        match scene.intersect(&ray) {
            Option::None => {
                if !scene.environment_light {
                    return Vec3 { x: 0, y: 0, z: 0 };
                }
                return sky_color(&ray);
            },
            Option::Some((hit, mat)) => {
                let p_off = nudge(hit.position, hit.normal);
                let scattered = mat.scatter(ray, p_off, hit.normal, rng);
                let att = mat.attenuation(hit.position, hit.normal);
                match scattered {
                    Option::None => {
                        if mat.emissive(hit.position, hit.normal) {
                            return att;
                        } else {
                            return Vec3 { x: 0, y: 0, z: 0 };
                        }
                    },
                    Option::Some(next) => {
                        if !p_off.within(COORD_LIMIT) {
                            // The bounce would start outside the world: the
                            // path is absorbed.
                            return Vec3 { x: 0, y: 0, z: 0 };
                        }
                        proof {
                            first_zero = (att == (Vec3 { x: 0i64, y: 0i64, z: 0i64 }));
                            assert(!(mat is Emissive));
                            match best0 {
                                Option::Some((bi, sh)) => {
                                    assert(mat == crate::scene::models::object_material(
                                        objs[bi],
                                    ));
                                },
                                Option::None => {
                                    assert(false);
                                },
                            }
                            assert(color_wf(att)) by {
                                match mat {
                                    crate::rendering::materials::Material::Lambertian(l) => {},
                                    crate::rendering::materials::Material::Metal(mm) => {},
                                    crate::rendering::materials::Material::Emissive(e) => {},
                                }
                            }
                        }
                        throughput = att;
                        cur = next;
                    },
                }
            },
        }
        let mut i: u32 = 1;
        while i < self.num_bounces
            invariant
                scene_wf(*scene),
                ray_wf(cur),
                color_wf(throughput),
                in_bounds(cur.direction, 0x1_0000),
                objs == scene.scene_objects@,
                best0 == crate::scene::models::scene_best(objs, ray, 0, objs.len() as int),
                first_zero ==> throughput == (Vec3 { x: 0i64, y: 0i64, z: 0i64 }),
                match best0 {
                    Option::Some((bi, sh)) => {
                        &&& !(crate::scene::models::object_material(objs[bi]) is Emissive)
                        &&& (crate::rendering::materials::attenuation_spec(
                            crate::scene::models::object_material(objs[bi]),
                        ) == (Vec3 { x: 0i64, y: 0i64, z: 0i64 }) ==> first_zero)
                    },
                    Option::None => false,
                },
            decreases self.num_bounces - i,
        {
            match scene.intersect(&cur) {
                Option::None => {
                    if !scene.environment_light {
                        return Vec3 { x: 0, y: 0, z: 0 };
                    }
                    let sky = sky_color(&cur);
                    let out = mul_color(throughput, sky);
                    proof {
                        if first_zero {
                            lemma_mul_color_zero(throughput, sky, out);
                        }
                    }
                    return out;
                },
                Option::Some((hit, mat)) => {
                    let p_off = nudge(hit.position, hit.normal);
                    if !p_off.within(COORD_LIMIT) {
                        // The bounce would start outside the world: the path
                        // is absorbed.
                        return Vec3 { x: 0, y: 0, z: 0 };
                    }
                    let scattered = mat.scatter(cur, p_off, hit.normal, rng);
                    let att = mat.attenuation(hit.position, hit.normal);
                    match scattered {
                        Option::Some(next) => {
                            let t2 = mul_color(throughput, att);
                            proof {
                                if first_zero {
                                    lemma_mul_color_zero(throughput, att, t2);
                                }
                            }
                            throughput = t2;
                            cur = next;
                        },
                        Option::None => {
                            if mat.emissive(hit.position, hit.normal) {
                                let out = mul_color(throughput, att);
                                proof {
                                    if first_zero {
                                        lemma_mul_color_zero(throughput, att, out);
                                    }
                                }
                                return out;
                            } else {
                                return Vec3 { x: 0, y: 0, z: 0 };
                            }
                        },
                    }
                },
            }
            i = i + 1;
        }
        Vec3 { x: 0, y: 0, z: 0 }
    }

    /// One full sample pass: update the viewport, add one jittered radiance
    /// estimate into every pixel's accumulator, and count the pass. Every
    /// cell grows by a nonnegative amount of at most `RAD_LIMIT` per channel,
    /// so for a fixed pose the accumulator is monotone in the pass count.
    pub fn render_sample(
        &mut self,
        scene: &Scene,
        width: usize,
        height: usize,
        frame_buffer: &mut Framebuffer,
        camera: &mut RayCamera,
        rng: &mut Rng64,
    )
        requires
            scene_wf(*scene),
            cam_wf(*old(camera)),
            fb_wf(*old(frame_buffer)),
            old(frame_buffer).width == width,
            old(frame_buffer).height == height,
            1 <= height <= 0x4000,
            1 <= width <= 0x4000,
            width <= 16 * height,
            height <= 4 * width,
            old(self).num_samples < 0xFFFF_FFFFu32,
            forall|j: int|
                0 <= j < old(frame_buffer).data.len() ==> {
                    &&& -(ACCUM_LIMIT - RAD_LIMIT) <= (#[trigger] old(
                        frame_buffer,
                    ).data@[j]).x <= ACCUM_LIMIT - RAD_LIMIT
                    &&& -(ACCUM_LIMIT - RAD_LIMIT) <= old(frame_buffer).data@[j].y <= ACCUM_LIMIT
                        - RAD_LIMIT
                    &&& -(ACCUM_LIMIT - RAD_LIMIT) <= old(frame_buffer).data@[j].z <= ACCUM_LIMIT
                        - RAD_LIMIT
                },
        ensures
            fb_wf(*final (frame_buffer)),
            final (frame_buffer).width == width,
            final (frame_buffer).height == height,
            final (frame_buffer).data.len() == old(frame_buffer).data.len(),
            final (self).num_samples == old(self).num_samples + 1,
            final (self).num_bounces == old(self).num_bounces,
            cam_wf(*final (camera)),
            final (camera).position == old(camera).position,
            final (camera).direction == old(camera).direction,
            final (camera).pitch == old(camera).pitch,
            final (camera).yaw == old(camera).yaw,
            final (camera).near_plane == old(camera).near_plane,
            // The only camera mutation is the viewport refit to this target:
            final (camera).viewport_size == (Vec3 {
                x: tdiv(width * 6144, height as int) as i64,
                y: 6144i64,
                z: 0i64,
            }),
            // Monotone accumulation, bounded per pass:
            forall|j: int|
                0 <= j < old(frame_buffer).data.len() ==> {
                    let c0 = #[trigger] old(frame_buffer).data@[j];
                    let c1 = final (frame_buffer).data@[j];
                    &&& c0.x <= c1.x <= c0.x + RAD_LIMIT
                    &&& c0.y <= c1.y <= c0.y + RAD_LIMIT
                    &&& c0.z <= c1.z <= c0.z + RAD_LIMIT
                },
            // Each cell's increment is a radiance estimate cast along some
            // admissible jittered primary ray of its own pixel:
            forall|j: int|
                0 <= j < old(frame_buffer).data.len() ==> {
                    let c0 = #[trigger] old(frame_buffer).data@[j];
                    let c1 = final (frame_buffer).data@[j];
                    pixel_sample(
                        *scene,
                        *final (camera),
                        width as int,
                        height as int,
                        j % (width as int),
                        j / (width as int),
                        old(self).num_bounces,
                        Vec3 {
                            x: (c1.x - c0.x) as i64,
                            y: (c1.y - c0.y) as i64,
                            z: (c1.z - c0.z) as i64,
                        },
                    )
                },
    {
        camera.update_viewport(width, height);
        let n = frame_buffer.data.len();
        proof {
            assert(n == width * height);
        }
        let mut i: usize = 0;
        while i < n
            invariant
                scene_wf(*scene),
                cam_wf(*camera),
                fb_wf(*frame_buffer),
                frame_buffer.width == width,
                frame_buffer.height == height,
                frame_buffer.data.len() == n == old(frame_buffer).data.len(),
                n == width * height,
                1 <= height <= 0x4000,
                1 <= width <= 0x4000,
                i <= n,
                *self == *old(self),
                camera.near_plane == old(camera).near_plane,
                camera.viewport_size == (Vec3 {
                    x: tdiv(width * 6144, height as int) as i64,
                    y: 6144i64,
                    z: 0i64,
                }),
                forall|j: int|
                    0 <= j < i ==> {
                        let c0 = #[trigger] old(frame_buffer).data@[j];
                        let c1 = frame_buffer.data@[j];
                        pixel_sample(
                            *scene,
                            *camera,
                            width as int,
                            height as int,
                            j % (width as int),
                            j / (width as int),
                            old(self).num_bounces,
                            Vec3 {
                                x: (c1.x - c0.x) as i64,
                                y: (c1.y - c0.y) as i64,
                                z: (c1.z - c0.z) as i64,
                            },
                        )
                    },
                forall|j: int|
                    0 <= j < old(frame_buffer).data.len() ==> {
                        &&& -(ACCUM_LIMIT - RAD_LIMIT) <= (#[trigger] old(
                            frame_buffer,
                        ).data@[j]).x <= ACCUM_LIMIT - RAD_LIMIT
                        &&& -(ACCUM_LIMIT - RAD_LIMIT) <= old(frame_buffer).data@[j].y
                            <= ACCUM_LIMIT - RAD_LIMIT
                        &&& -(ACCUM_LIMIT - RAD_LIMIT) <= old(frame_buffer).data@[j].z
                            <= ACCUM_LIMIT - RAD_LIMIT
                    },
                camera.position == old(camera).position,
                camera.direction == old(camera).direction,
                camera.pitch == old(camera).pitch,
                camera.yaw == old(camera).yaw,
                forall|j: int|
                    i <= j < n ==> #[trigger] frame_buffer.data@[j] == old(
                        frame_buffer,
                    ).data@[j],
                forall|j: int|
                    0 <= j < i ==> {
                        let c0 = #[trigger] old(frame_buffer).data@[j];
                        let c1 = frame_buffer.data@[j];
                        &&& c0.x <= c1.x <= c0.x + RAD_LIMIT
                        &&& c0.y <= c1.y <= c0.y + RAD_LIMIT
                        &&& c0.z <= c1.z <= c0.z + RAD_LIMIT
                    },
            decreases n - i,
        {
            let x = i % width;
            let y = i / width;
            proof {
                assert(x < width);
                vstd::arithmetic::div_mod::lemma_multiply_divide_lt(
                    i as int,
                    width as int,
                    height as int,
                );
                vstd::arithmetic::div_mod::lemma_fundamental_div_mod(i as int, width as int);
                assert((width as int) * ((i as int) / (width as int)) == ((i as int) / (width
                    as int)) * (width as int)) by (nonlinear_arith);
                assert(x + y * width == i);
            }
            let ray = camera.gen_primary_ray(rng, x, y, width, height);
            let sample = self.cast(scene, ray, rng);
            proof {
                // The target cell is untouched so far and has the headroom
                // the entry condition grants it.
                assert(frame_buffer.data@[i as int] == old(frame_buffer).data@[i as int]);
                assert(-(ACCUM_LIMIT - RAD_LIMIT) <= old(frame_buffer).data@[i as int].x
                    <= ACCUM_LIMIT - RAD_LIMIT);
            }
            frame_buffer.accum_pixel(x, y, sample);
            proof {
                // The increment of this cell is exactly the cast estimate,
                // along a ray the camera admits for this pixel.
                let c0 = old(frame_buffer).data@[i as int];
                let c1 = frame_buffer.data@[i as int];
                assert(c1.x == c0.x + sample.x && c1.y == c0.y + sample.y && c1.z == c0.z
                    + sample.z);
                assert((Vec3 {
                    x: (c1.x - c0.x) as i64,
                    y: (c1.y - c0.y) as i64,
                    z: (c1.z - c0.z) as i64,
                }) == sample);
                assert(admissible_primary(
                    *camera,
                    i as int % (width as int),
                    i as int / (width as int),
                    width as int,
                    height as int,
                    ray,
                ));
                assert(pixel_sample(
                    *scene,
                    *camera,
                    width as int,
                    height as int,
                    i as int % (width as int),
                    i as int / (width as int),
                    old(self).num_bounces,
                    sample,
                ));
            }
            i = i + 1;
        }
        self.num_samples = self.num_samples + 1;
    }

    /// A debug pass writing, for each pixel, the raw hit normal of one
    /// jittered primary ray (zero on a miss) directly into the buffer,
    /// without accumulation.
    pub fn render_normals(
        &mut self,
        scene: &Scene,
        width: usize,
        height: usize,
        normal_buffer: &mut Framebuffer,
        camera: &mut RayCamera,
        rng: &mut Rng64,
    )
        requires
            scene_wf(*scene),
            cam_wf(*old(camera)),
            fb_wf(*old(normal_buffer)),
            old(normal_buffer).width == width,
            old(normal_buffer).height == height,
            1 <= height <= 0x4000,
            1 <= width <= 0x4000,
            width <= 16 * height,
            height <= 4 * width,
        ensures
            fb_wf(*final (normal_buffer)),
            final (normal_buffer).width == width,
            final (normal_buffer).height == height,
            final (normal_buffer).data.len() == old(normal_buffer).data.len(),
            cam_wf(*final (camera)),
            final (self).num_samples == old(self).num_samples,
            // Each cell holds the nearest-hit normal of an admissible primary
            // ray of its pixel, or zero where that ray misses everything:
            forall|j: int|
                0 <= j < final (normal_buffer).data.len() ==> pixel_normal_view(
                    *scene,
                    *final (camera),
                    width as int,
                    height as int,
                    j % (width as int),
                    j / (width as int),
                    #[trigger] final (normal_buffer).data@[j],
                ),
    {
        camera.update_viewport(width, height);
        let n = normal_buffer.data.len();
        proof {
            assert(n == width * height);
        }
        let mut i: usize = 0;
        while i < n
            invariant
                scene_wf(*scene),
                cam_wf(*camera),
                fb_wf(*normal_buffer),
                normal_buffer.width == width,
                normal_buffer.height == height,
                normal_buffer.data.len() == n == old(normal_buffer).data.len(),
                n == width * height,
                1 <= height <= 0x4000,
                1 <= width <= 0x4000,
                i <= n,
                *self == *old(self),
                camera.near_plane == old(camera).near_plane,
                forall|j: int|
                    0 <= j < i ==> pixel_normal_view(
                        *scene,
                        *camera,
                        width as int,
                        height as int,
                        j % (width as int),
                        j / (width as int),
                        #[trigger] normal_buffer.data@[j],
                    ),
            decreases n - i,
        {
            let x = i % width;
            let y = i / width;
            proof {
                vstd::arithmetic::div_mod::lemma_multiply_divide_lt(
                    i as int,
                    width as int,
                    height as int,
                );
            }
            let ray = camera.gen_primary_ray(rng, x, y, width, height);
            let v: Vec3 = match scene.intersect(&ray) {
                Option::Some((hit, _)) => hit.normal,
                Option::None => Vec3 { x: 0, y: 0, z: 0 },
            };
            let ghost pre = normal_buffer.data@;
            proof {
                vstd::arithmetic::div_mod::lemma_fundamental_div_mod(i as int, width as int);
                assert((width as int) * ((i as int) / (width as int)) == ((i as int) / (width
                    as int)) * (width as int)) by (nonlinear_arith);
                assert(x + y * width == i);
            }
            normal_buffer.set_pixel(x, y, v);
            proof {
                assert(normal_buffer.data@[i as int] == v);
                assert(admissible_primary(
                    *camera,
                    i as int % (width as int),
                    i as int / (width as int),
                    width as int,
                    height as int,
                    ray,
                ));
                assert(pixel_normal_view(
                    *scene,
                    *camera,
                    width as int,
                    height as int,
                    i as int % (width as int),
                    i as int / (width as int),
                    v,
                ));
                assert forall|j: int| 0 <= j < i implies normal_buffer.data@[j] == pre[j] by {}
            }
            i = i + 1;
        }
    }

    /// A debug pass writing a grayscale heat value, `node_hits / 10`, of the
    /// BVH interior nodes visited on each pixel's winning path.
    pub fn render_bvh_hits(
        &mut self,
        scene: &Scene,
        width: usize,
        height: usize,
        hit_buffer: &mut Framebuffer,
        camera: &mut RayCamera,
        rng: &mut Rng64,
    )
        requires
            scene_wf(*scene),
            cam_wf(*old(camera)),
            fb_wf(*old(hit_buffer)),
            old(hit_buffer).width == width,
            old(hit_buffer).height == height,
            1 <= height <= 0x4000,
            1 <= width <= 0x4000,
            width <= 16 * height,
            height <= 4 * width,
        ensures
            fb_wf(*final (hit_buffer)),
            final (hit_buffer).width == width,
            final (hit_buffer).height == height,
            final (hit_buffer).data.len() == old(hit_buffer).data.len(),
            cam_wf(*final (camera)),
            final (self).num_samples == old(self).num_samples,
            // Each cell holds a gray descent count where an admissible
            // primary ray of its pixel hits, or zero where it misses:
            forall|j: int|
                0 <= j < final (hit_buffer).data.len() ==> pixel_heat_view(
                    *scene,
                    *final (camera),
                    width as int,
                    height as int,
                    j % (width as int),
                    j / (width as int),
                    #[trigger] final (hit_buffer).data@[j],
                ),
    {
        camera.update_viewport(width, height);
        let n = hit_buffer.data.len();
        proof {
            assert(n == width * height);
        }
        let mut i: usize = 0;
        while i < n
            invariant
                scene_wf(*scene),
                cam_wf(*camera),
                fb_wf(*hit_buffer),
                hit_buffer.width == width,
                hit_buffer.height == height,
                hit_buffer.data.len() == n == old(hit_buffer).data.len(),
                n == width * height,
                1 <= height <= 0x4000,
                1 <= width <= 0x4000,
                i <= n,
                *self == *old(self),
                forall|j: int|
                    0 <= j < i ==> pixel_heat_view(
                        *scene,
                        *camera,
                        width as int,
                        height as int,
                        j % (width as int),
                        j / (width as int),
                        #[trigger] hit_buffer.data@[j],
                    ),
            decreases n - i,
        {
            let x = i % width;
            let y = i / width;
            proof {
                vstd::arithmetic::div_mod::lemma_multiply_divide_lt(
                    i as int,
                    width as int,
                    height as int,
                );
            }
            let ray = camera.gen_primary_ray(rng, x, y, width, height);
            let ghost was_hit: bool;
            let ghost nh_g: u32;
            let v: Vec3 = match scene.intersect(&ray) {
                Option::Some((hit, _)) => {
                    proof {
                        lemma_mul_abs_bound(
                            hit.node_hits as int,
                            FP_ONE as int,
                            0x1_0000_0000,
                            FP_ONE as int,
                        );
                        lemma_tdiv_bound((hit.node_hits as int) * FP_ONE, 10);
                        was_hit = true;
                        nh_g = hit.node_hits;
                    }
                    let s = div64((hit.node_hits as i64) * FP_ONE, 10);
                    Vec3 { x: s, y: s, z: s }
                },
                Option::None => {
                    proof {
                        was_hit = false;
                        nh_g = 0u32;
                    }
                    Vec3 { x: 0, y: 0, z: 0 }
                },
            };
            let ghost pre = hit_buffer.data@;
            proof {
                vstd::arithmetic::div_mod::lemma_fundamental_div_mod(i as int, width as int);
                assert((width as int) * ((i as int) / (width as int)) == ((i as int) / (width
                    as int)) * (width as int)) by (nonlinear_arith);
                assert(x + y * width == i);
            }
            hit_buffer.set_pixel(x, y, v);
            proof {
                assert(hit_buffer.data@[i as int] == v);
                assert(admissible_primary(
                    *camera,
                    i as int % (width as int),
                    i as int / (width as int),
                    width as int,
                    height as int,
                    ray,
                ));
                if was_hit {
                    assert(v == heat_gray(nh_g));
                }
                assert(pixel_heat_view(
                    *scene,
                    *camera,
                    width as int,
                    height as int,
                    i as int % (width as int),
                    i as int / (width as int),
                    v,
                ));
                assert forall|j: int| 0 <= j < i implies hit_buffer.data@[j] == pre[j] by {}
            }
            i = i + 1;
        }
    }

    /// Accumulate `samples` passes into a cleared buffer, then divide by the
    /// pass count and reset, leaving mean radiance in the buffer.
    pub fn render_full(
        &mut self,
        scene: &Scene,
        width: usize,
        height: usize,
        frame_buffer: &mut Framebuffer,
        samples: u32,
        camera: &mut RayCamera,
        rng: &mut Rng64,
    )
        requires
            scene_wf(*scene),
            cam_wf(*old(camera)),
            fb_wf(*old(frame_buffer)),
            old(frame_buffer).width == width,
            old(frame_buffer).height == height,
            1 <= height <= 0x4000,
            1 <= width <= 0x4000,
            width <= 16 * height,
            height <= 4 * width,
            1 <= samples < 0x4000_0000u32,
            old(self).num_samples == 0,
        ensures
            fb_wf(*final (frame_buffer)),
            final (frame_buffer).width == width,
            final (frame_buffer).height == height,
            final (frame_buffer).data.len() == old(frame_buffer).data.len(),
            final (self).num_samples == 0,
            final (self).num_bounces == old(self).num_bounces,
            cam_wf(*final (camera)),
            // The buffer ends holding mean radiance: each cell is the
            // truncated mean of `samples` admissible estimates of its pixel.
            forall|j: int|
                0 <= j < final (frame_buffer).data.len() ==> mean_of_samples(
                    *scene,
                    *final (camera),
                    width as int,
                    height as int,
                    j % (width as int),
                    j / (width as int),
                    old(self).num_bounces,
                    samples as int,
                    #[trigger] final (frame_buffer).data@[j],
                ),
    {
        frame_buffer.clear();
        let ghost mut sums: Seq<Seq<Vec3>> = Seq::new(
            frame_buffer.data@.len(),
            |j: int| Seq::<Vec3>::empty(),
        );
        let mut k: u32 = 0;
        while k < samples
            invariant
                scene_wf(*scene),
                cam_wf(*camera),
                fb_wf(*frame_buffer),
                frame_buffer.width == width,
                frame_buffer.height == height,
                frame_buffer.data.len() == old(frame_buffer).data.len(),
                1 <= height <= 0x4000,
                1 <= width <= 0x4000,
                width <= 16 * height,
                height <= 4 * width,
                k <= samples < 0x4000_0000u32,
                self.num_samples == k,
                self.num_bounces == old(self).num_bounces,
                camera.position == old(camera).position,
                camera.direction == old(camera).direction,
                camera.pitch == old(camera).pitch,
                camera.yaw == old(camera).yaw,
                camera.near_plane == old(camera).near_plane,
                k > 0 ==> camera.viewport_size == (Vec3 {
                    x: tdiv(width * 6144, height as int) as i64,
                    y: 6144i64,
                    z: 0i64,
                }),
                sums.len() == frame_buffer.data.len(),
                forall|j: int| 0 <= j < sums.len() ==> (#[trigger] sums[j]).len() == k as int,
                forall|j: int, kk: int|
                    0 <= j < sums.len() && 0 <= kk < k as int ==> pixel_sample(
                        *scene,
                        *camera,
                        width as int,
                        height as int,
                        j % (width as int),
                        j / (width as int),
                        old(self).num_bounces,
                        #[trigger] sums[j][kk],
                    ),
                forall|j: int|
                    0 <= j < sums.len() ==> {
                        let c = #[trigger] frame_buffer.data@[j];
                        &&& c.x == vsum(sums[j]).0
                        &&& c.y == vsum(sums[j]).1
                        &&& c.z == vsum(sums[j]).2
                    },
                forall|j: int|
                    0 <= j < frame_buffer.data.len() ==> {
                        let c = #[trigger] frame_buffer.data@[j];
                        &&& 0 <= c.x <= (k as int) * RAD_LIMIT
                        &&& 0 <= c.y <= (k as int) * RAD_LIMIT
                        &&& 0 <= c.z <= (k as int) * RAD_LIMIT
                    },
            decreases samples - k,
        {
            proof {
                assert((k as int) * RAD_LIMIT + RAD_LIMIT == (k as int + 1) * RAD_LIMIT)
                    by (nonlinear_arith);
                assert((k as int) * RAD_LIMIT <= 0x4000_0000 * (RAD_LIMIT as int))
                    by (nonlinear_arith)
                    requires
                        0 <= k as int <= 0x4000_0000,
                ;
            }
            let ghost pre = frame_buffer.data@;
            let ghost presums = sums;
            self.render_sample(scene, width, height, frame_buffer, camera, rng);
            k = k + 1;
            proof {
                let cur = frame_buffer.data@;
                sums = Seq::new(
                    presums.len(),
                    |j: int|
                        presums[j].push(
                            Vec3 {
                                x: (cur[j].x - pre[j].x) as i64,
                                y: (cur[j].y - pre[j].y) as i64,
                                z: (cur[j].z - pre[j].z) as i64,
                            },
                        ),
                );
                assert forall|j: int| 0 <= j < frame_buffer.data.len() implies {
                    let c = #[trigger] frame_buffer.data@[j];
                    &&& 0 <= c.x <= (k as int) * RAD_LIMIT
                    &&& 0 <= c.y <= (k as int) * RAD_LIMIT
                    &&& 0 <= c.z <= (k as int) * RAD_LIMIT
                } by {
                    assert(pre[j].x <= frame_buffer.data@[j].x <= pre[j].x + RAD_LIMIT);
                }
                assert forall|j: int| 0 <= j < sums.len() implies {
                    let c = #[trigger] frame_buffer.data@[j];
                    &&& (#[trigger] sums[j]).len() == k as int
                    &&& c.x == vsum(sums[j]).0
                    &&& c.y == vsum(sums[j]).1
                    &&& c.z == vsum(sums[j]).2
                } by {
                    let d = Vec3 {
                        x: (cur[j].x - pre[j].x) as i64,
                        y: (cur[j].y - pre[j].y) as i64,
                        z: (cur[j].z - pre[j].z) as i64,
                    };
                    assert(sums[j] == presums[j].push(d));
                    assert(sums[j].drop_last() =~= presums[j]);
                    assert(sums[j].last() == d);
                    assert(pre[j].x <= cur[j].x <= pre[j].x + RAD_LIMIT);
                }
                assert forall|j: int, kk: int|
                    0 <= j < sums.len() && 0 <= kk < k as int implies pixel_sample(
                    *scene,
                    *camera,
                    width as int,
                    height as int,
                    j % (width as int),
                    j / (width as int),
                    old(self).num_bounces,
                    #[trigger] sums[j][kk],
                ) by {
                    let d = Vec3 {
                        x: (cur[j].x - pre[j].x) as i64,
                        y: (cur[j].y - pre[j].y) as i64,
                        z: (cur[j].z - pre[j].z) as i64,
                    };
                    assert(sums[j] == presums[j].push(d));
                    if kk < k as int - 1 {
                        assert(sums[j][kk] == presums[j][kk]);
                    } else {
                        assert(sums[j][kk] == d);
                    }
                }
            }
        }
        let ghost acc = frame_buffer.data@;
        if self.num_samples >= 1 {
            frame_buffer.normalize(self.num_samples as i64);
        }
        proof {
            assert forall|j: int| 0 <= j < frame_buffer.data.len() implies mean_of_samples(
                *scene,
                *camera,
                width as int,
                height as int,
                j % (width as int),
                j / (width as int),
                old(self).num_bounces,
                samples as int,
                #[trigger] frame_buffer.data@[j],
            ) by {
                let vs = sums[j];
                assert(vs.len() == samples as int);
                assert(acc[j].x == vsum(vs).0 && acc[j].y == vsum(vs).1 && acc[j].z == vsum(
                    vs,
                ).2);
                assert(frame_buffer.data@[j] == (Vec3 {
                    x: tdiv(acc[j].x as int, samples as int) as i64,
                    y: tdiv(acc[j].y as int, samples as int) as i64,
                    z: tdiv(acc[j].z as int, samples as int) as i64,
                }));
            }
        }
        self.num_samples = 0;
    }
}

} // verus!
