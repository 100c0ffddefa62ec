//! The camera: a pose plus a viewport, generating jittered primary rays.

use vstd::prelude::*;
use crate::fixed::FP_ONE;
use crate::fixed::tdiv;
use crate::fixed::div64;
use crate::fixed::lemma_tdiv_bound;
use crate::fixed::lemma_tdiv_abs_mono;
use crate::fixed::lemma_tdiv_multiple;
use crate::fixed::lemma_tdiv_mono;
use crate::fixed::lemma_mul_abs_bound;
use crate::fixed::lemma_mul_le_pos;
use crate::vec3::Vec3;
use crate::vec3::in_bounds;
use crate::vec3::dot3;
use crate::vec3::cross_x;
use crate::vec3::cross_y;
use crate::vec3::cross_z;
use crate::vec3::lemma_cross_bound;
use crate::rendering::ray::Ray;
use crate::rendering::ray::ray_wf;
use crate::rng::Rng64;

verus! {

#[derive(Clone, Copy, PartialEq, Eq, Structural, Debug)]
pub struct RayCamera {
    pub position: Vec3,
    pub direction: Vec3,
    pub pitch: i64,
    pub yaw: i64,
    pub near_plane: i64,
    pub viewport_size: Vec3,
}

/// A usable camera: a unit-scale view direction that is not straight up or
/// down (so a horizon frame exists), a fixed near plane of 1.0, and a
/// positive bounded viewport.
pub open spec fn cam_wf(c: RayCamera) -> bool {
    &&& in_bounds(c.position, 0x2_0000)
    &&& in_bounds(c.direction, FP_ONE as int)
    &&& dot3(c.direction, c.direction) > 0
    &&& !(c.direction.x == 0 && c.direction.z == 0)
    &&& c.near_plane == FP_ONE
    &&& 0 < c.viewport_size.x <= 0x20_0000
    &&& 0 < c.viewport_size.y <= 0x20_0000
}

/// `up x direction`, the unnormalized camera-right vector.
pub open spec fn up_cross(d: Vec3) -> Vec3 {
    Vec3 { x: (FP_ONE * d.z) as i64, y: 0i64, z: (-(FP_ONE * d.x)) as i64 }
}

/// The primary-ray direction for pixel (x, y) with jitter (jx, jy), before
/// the final normalization; `adj` and `lu` are the normalized camera frame.
pub open spec fn primary_dir_raw(
    c: RayCamera,
    adj: Vec3,
    lu: Vec3,
    x: int,
    y: int,
    w: int,
    h: int,
    jx: int,
    jy: int,
) -> (int, int, int) {
    let sx = tdiv(x * FP_ONE + jx, w);
    let sy = tdiv(y * FP_ONE + jy, h);
    let tx = tdiv(c.viewport_size.x * sx, FP_ONE as int);
    let ty = tdiv(c.viewport_size.y * sy, FP_ONE as int);
    let hx = tdiv(c.viewport_size.x as int, 2);
    let hy = tdiv(c.viewport_size.y as int, 2);
    (
        tdiv(adj.x * -hx, FP_ONE as int) + tdiv(lu.x * -hy, FP_ONE as int) + tdiv(
            adj.x * tx,
            FP_ONE as int,
        ) + tdiv(lu.x * ty, FP_ONE as int) + tdiv(c.direction.x * c.near_plane, FP_ONE as int),
        tdiv(adj.y * -hx, FP_ONE as int) + tdiv(lu.y * -hy, FP_ONE as int) + tdiv(
            adj.y * tx,
            FP_ONE as int,
        ) + tdiv(lu.y * ty, FP_ONE as int) + tdiv(c.direction.y * c.near_plane, FP_ONE as int),
        tdiv(adj.z * -hx, FP_ONE as int) + tdiv(lu.z * -hy, FP_ONE as int) + tdiv(
            adj.z * tx,
            FP_ONE as int,
        ) + tdiv(lu.z * ty, FP_ONE as int) + tdiv(c.direction.z * c.near_plane, FP_ONE as int),
    )
}

/// The camera-right frame vector, determined by the pose.
pub open spec fn cam_adj(c: RayCamera) -> Vec3 {
    up_cross(c.direction).normalized_spec()
}

/// The camera-up frame vector, determined by the pose.
pub open spec fn cam_lu(c: RayCamera) -> Vec3 {
    let adj = cam_adj(c);
    (Vec3 {
        x: cross_x(adj, c.direction) as i64,
        y: cross_y(adj, c.direction) as i64,
        z: cross_z(adj, c.direction) as i64,
    }).normalized_spec()
}

/// The normalized primary-ray direction for pixel (x, y) with jitter
/// (jx, jy).
pub open spec fn primary_dir_spec(
    c: RayCamera,
    x: int,
    y: int,
    w: int,
    h: int,
    jx: int,
    jy: int,
) -> Vec3 {
    let d0 = primary_dir_raw(c, cam_adj(c), cam_lu(c), x, y, w, h, jx, jy);
    (Vec3 { x: d0.0 as i64, y: d0.1 as i64, z: d0.2 as i64 }).normalized_spec()
}

/// A drawn jitter whose raw viewport direction the camera cannot use: zero,
/// out of the range normalization accepts, or rounding to zero under
/// normalization. A well-formed pose never produces one in practice; the
/// fixed-point grid admits them, so the generator's fallback is conditioned
/// on them.
pub open spec fn jitter_degenerate(
    c: RayCamera,
    x: int,
    y: int,
    w: int,
    h: int,
    jx: int,
    jy: int,
) -> bool {
    let d0 = primary_dir_raw(c, cam_adj(c), cam_lu(c), x, y, w, h, jx, jy);
    let dv = Vec3 { x: d0.0 as i64, y: d0.1 as i64, z: d0.2 as i64 };
    ||| (dv.x == 0 && dv.y == 0 && dv.z == 0)
    ||| !in_bounds(dv, 0x4000_0000_0000)
    ||| ({
        let u = dv.normalized_spec();
        u.x == 0 && u.y == 0 && u.z == 0
    })
}

/// The pixel's jittered primary direction cannot be formed: either the camera
/// frame itself degenerates (the up cross product rounds to zero), or the
/// drawn jitter's raw direction does.
pub open spec fn primary_degenerate(c: RayCamera, x: int, y: int, w: int, h: int) -> bool {
    ||| (cross_x(cam_adj(c), c.direction) == 0 && cross_y(cam_adj(c), c.direction) == 0 && cross_z(
        cam_adj(c),
        c.direction,
    ) == 0)
    ||| exists|jx: int, jy: int|
        {
            &&& -2048 <= jx < 2048
            &&& -2048 <= jy < 2048
            &&& #[trigger] jitter_degenerate(c, x, y, w, h, jx, jy)
        }
}

/// The viewport coordinate of pixel `i` of `n`, with jitter: `(i + j) / n`
/// in fixed point, always within `[-1/2, 1]`.
fn pixel_coord(i: usize, jit: i64, n: usize) -> (r: i64)
    requires
        i < n,
        n <= 0x4000,
        -2048 <= jit < 2048,
    ensures
        r == tdiv(i * FP_ONE + jit, n as int),
        -2048 <= r <= FP_ONE,
{
    let num: i64 = (i as i64) * FP_ONE + jit;
    proof {
        lemma_tdiv_bound(num as int, n as int);
        lemma_tdiv_mono(num as int, FP_ONE * (n as int), n as int);
        lemma_tdiv_multiple(FP_ONE as int, n as int);
        assert(FP_ONE * (n as int) == (FP_ONE as int) * (n as int));
    }
    div64(num, n as i64)
}

impl RayCamera {
    /// A camera at `position` looking along +z with the default viewport.
    pub fn new(position: Vec3) -> (r: RayCamera)
        requires
            in_bounds(position, 0x2_0000),
        ensures
            cam_wf(r),
            r.position == position,
            r.direction == (Vec3 { x: 0i64, y: 0i64, z: FP_ONE }),
            r.pitch == 0,
            r.yaw == 90 * FP_ONE,
    {
        let vx = div64(2 * FP_ONE * 16, 9);
        RayCamera {
            position,
            direction: Vec3 { x: 0, y: 0, z: FP_ONE },
            pitch: 0,
            yaw: 90 * FP_ONE,
            near_plane: FP_ONE,
            viewport_size: Vec3 { x: vx, y: 2 * FP_ONE, z: 0 },
        }
    }

    /// Match the viewport to the target's aspect ratio with a fixed vertical
    /// extent of 1.5.
    pub fn update_viewport(&mut self, screen_width: usize, screen_height: usize)
        requires
            cam_wf(*old(self)),
            1 <= screen_height <= 0x4000,
            1 <= screen_width,
            screen_width <= 16 * screen_height,
            screen_height <= 4 * screen_width,
        ensures
            cam_wf(*final (self)),
            final (self).position == old(self).position,
            final (self).direction == old(self).direction,
            final (self).pitch == old(self).pitch,
            final (self).yaw == old(self).yaw,
            final (self).near_plane == old(self).near_plane,
            final (self).viewport_size == (Vec3 {
                x: tdiv(screen_width * 6144, screen_height as int) as i64,
                y: 6144i64,
                z: 0i64,
            }),
    {
        let w: i64 = screen_width as i64;
        let h: i64 = screen_height as i64;
        proof {
            lemma_mul_abs_bound(w as int, 6144, 0x4_0000, 6144);
            lemma_tdiv_bound(w * 6144, h as int);
            // Lower bound: one pixel of width yields at least one unit.
            assert(w * 6144 >= h);
            vstd::arithmetic::div_mod::lemma_div_non_zero(w * 6144, h as int);
            // Upper bound: aspect at most 16 caps the width at 16 * 6144.
            lemma_mul_le_pos(w as int, 16 * (h as int), 6144);
            assert(6144 * (w as int) == (w as int) * 6144 && 6144 * (16 * (h as int)) == (16 * 6144)
                * (h as int)) by (nonlinear_arith);
            lemma_tdiv_abs_mono(w * 6144, (16 * 6144) * (h as int), h as int);
            lemma_tdiv_multiple(16int * 6144, h as int);
        }
        let vx = div64(w * 6144, h);
        self.viewport_size = Vec3 { x: vx, y: 6144, z: 0 };
    }

    /// A jittered primary ray through pixel (x, y) of a `width x height`
    /// image: the camera frame is built from the world up vector, the pixel
    /// (plus half-a-pixel jitter) is mapped onto the viewport, and the result
    /// is normalized. In the degenerate fallback (a frame vector or the ray
    /// direction rounding to zero, which a well-formed camera never produces)
    /// the view direction itself is used.
    pub fn gen_primary_ray(&self, rng: &mut Rng64, x: usize, y: usize, width: usize, height: usize)
        -> (r: Ray)
        requires
            cam_wf(*self),
            x < width <= 0x4000,
            y < height <= 0x4000,
        ensures
            r.origin == self.position,
            ray_wf(r),
            in_bounds(r.direction, FP_ONE as int),
            ({
                (exists|jx: int, jy: int|
                    {
                        &&& -2048 <= jx < 2048
                        &&& -2048 <= jy < 2048
                        &&& r.direction == #[trigger] primary_dir_spec(
                            *self,
                            x as int,
                            y as int,
                            width as int,
                            height as int,
                            jx,
                            jy,
                        )
                    }) || (primary_degenerate(
                    *self,
                    x as int,
                    y as int,
                    width as int,
                    height as int,
                ) && r.direction == self.direction)
            }),
    {
        let c = *self;
        // up = (0, 1, 0) in fixed point; its cross with the direction:
        let upv = Vec3 { x: 0, y: FP_ONE, z: 0 };
        let raw = upv.cross_raw(c.direction);
        proof {
            lemma_cross_bound(upv, c.direction, FP_ONE as int, FP_ONE as int);
            assert(raw == up_cross(c.direction));
            assert(dot3(raw, raw) > 0) by (nonlinear_arith)
                requires
                    raw.x == FP_ONE * c.direction.z,
                    raw.z == -(FP_ONE * c.direction.x),
                    raw.y == 0,
                    !(c.direction.x == 0 && c.direction.z == 0),
                    FP_ONE == 4096,
            ;
        }
        let adj = raw.normalized();
        let lraw = adj.cross_raw(c.direction);
        proof {
            lemma_cross_bound(adj, c.direction, FP_ONE as int, FP_ONE as int);
            assert(adj == cam_adj(c));
        }
        if lraw.is_zero() {
            proof {
                assert(primary_degenerate(
                    c,
                    x as int,
                    y as int,
                    width as int,
                    height as int,
                ));
            }
            return Ray { origin: c.position, direction: c.direction };
        }
        proof {
            assert(dot3(lraw, lraw) > 0) by (nonlinear_arith)
                requires
                    !(lraw.x == 0 && lraw.y == 0 && lraw.z == 0),
            ;
        }
        let lu = lraw.normalized();
        let jx = rng.next_jitter_fp();
        let jy = rng.next_jitter_fp();
        let sx = pixel_coord(x, jx, width);
        let sy = pixel_coord(y, jy, height);
        proof {
            lemma_mul_abs_bound(c.viewport_size.x as int, sx as int, 0x20_0000, FP_ONE as int);
            lemma_mul_abs_bound(c.viewport_size.y as int, sy as int, 0x20_0000, FP_ONE as int);
            lemma_tdiv_abs_mono(
                c.viewport_size.x * sx,
                0x20_0000 * FP_ONE as int,
                FP_ONE as int,
            );
            lemma_tdiv_abs_mono(
                c.viewport_size.y * sy,
                0x20_0000 * FP_ONE as int,
                FP_ONE as int,
            );
            lemma_tdiv_bound(0x20_0000 * FP_ONE as int, FP_ONE as int);
            lemma_tdiv_bound(c.viewport_size.x as int, 2);
            lemma_tdiv_bound(c.viewport_size.y as int, 2);
        }
        let tx = crate::fixed::mul_fp(c.viewport_size.x, sx);
        let ty = crate::fixed::mul_fp(c.viewport_size.y, sy);
        let hx = div64(c.viewport_size.x, 2);
        let hy = div64(c.viewport_size.y, 2);
        proof {
            crate::vec3::lemma_scale_fp_bound(adj, -(hx as int), FP_ONE as int, 0x20_0000);
            crate::vec3::lemma_scale_fp_bound(lu, -(hy as int), FP_ONE as int, 0x20_0000);
            crate::vec3::lemma_scale_fp_bound(adj, tx as int, FP_ONE as int, 0x2_0000_0000);
            crate::vec3::lemma_scale_fp_bound(lu, ty as int, FP_ONE as int, 0x2_0000_0000);
            crate::vec3::lemma_scale_fp_bound(
                c.direction,
                c.near_plane as int,
                FP_ONE as int,
                FP_ONE as int,
            );
        }
        let bl = adj.scale_fp(-hx).vadd(lu.scale_fp(-hy));
        let dir0 = bl.vadd(adj.scale_fp(tx)).vadd(lu.scale_fp(ty)).vadd(
            c.direction.scale_fp(c.near_plane),
        );
        proof {
            assert(lu == cam_lu(c));
            let d0 = primary_dir_raw(
                c,
                adj,
                lu,
                x as int,
                y as int,
                width as int,
                height as int,
                jx as int,
                jy as int,
            );
            assert(dir0.x == d0.0 as i64 && dir0.y == d0.1 as i64 && dir0.z == d0.2 as i64);
            assert(dir0 == (Vec3 { x: d0.0 as i64, y: d0.1 as i64, z: d0.2 as i64 }));
        }
        if dir0.is_zero() || !dir0.within(0x4000_0000_0000) {
            proof {
                assert(jitter_degenerate(
                    c,
                    x as int,
                    y as int,
                    width as int,
                    height as int,
                    jx as int,
                    jy as int,
                ));
                assert(primary_degenerate(
                    c,
                    x as int,
                    y as int,
                    width as int,
                    height as int,
                ));
            }
            return Ray { origin: c.position, direction: c.direction };
        }
        proof {
            assert(dot3(dir0, dir0) > 0) by (nonlinear_arith)
                requires
                    !(dir0.x == 0 && dir0.y == 0 && dir0.z == 0),
            ;
        }
        let dir = dir0.normalized();
        if dir.is_zero() {
            proof {
                assert(jitter_degenerate(
                    c,
                    x as int,
                    y as int,
                    width as int,
                    height as int,
                    jx as int,
                    jy as int,
                ));
                assert(primary_degenerate(
                    c,
                    x as int,
                    y as int,
                    width as int,
                    height as int,
                ));
            }
            return Ray { origin: c.position, direction: c.direction };
        }
        proof {
            let d0 = primary_dir_raw(
                c,
                adj,
                lu,
                x as int,
                y as int,
                width as int,
                height as int,
                jx as int,
                jy as int,
            );
            assert(dir0.x == d0.0 as i64 && dir0.y == d0.1 as i64 && dir0.z == d0.2 as i64);
            assert(dir0 == (Vec3 { x: d0.0 as i64, y: d0.1 as i64, z: d0.2 as i64 }));
            assert(dir == primary_dir_spec(
                c,
                x as int,
                y as int,
                width as int,
                height as int,
                jx as int,
                jy as int,
            ));
        }
        Ray { origin: c.position, direction: dir }
    }
}

} // verus!
