//! Sampling helpers and reflection, with the scatter laws they obey.

use vstd::prelude::*;
use crate::fixed::FP_ONE;
use crate::fixed::tdiv;
use crate::fixed::div64;
use crate::fixed::lemma_mul_abs_bound;
use crate::fixed::lemma_tdiv_abs_mono;
use crate::fixed::lemma_tdiv_bound;
use crate::vec3::Vec3;
use crate::vec3::dot3;
use crate::vec3::in_bounds;
use crate::rng::Rng64;

verus! {

/// A vector with components uniform over `[-1, 1]` (fixed point).
pub fn rand_vec3(rng: &mut Rng64) -> (r: Vec3)
    ensures
        in_bounds(r, FP_ONE as int),
{
    let x = rng.next_symmetric_fp();
    let y = rng.next_symmetric_fp();
    let z = rng.next_symmetric_fp();
    Vec3 { x, y, z }
}

/// Rejection-sample a nonzero vector inside the unit ball. The rejection is
/// given a generous retry budget (acceptance is about one draw in two); if
/// every draw lands outside, an axis vector stands in.
pub fn rand_in_unit_sphere(rng: &mut Rng64) -> (r: Vec3)
    ensures
        in_bounds(r, FP_ONE as int),
        0 < dot3(r, r) <= FP_ONE * FP_ONE,
{
    let mut tries: usize = 0;
    while tries < 64
        invariant
            true,
        decreases 64 - tries,
    {
        let v = rand_vec3(rng);
        proof {
            lemma_mul_abs_bound(v.x as int, v.x as int, FP_ONE as int, FP_ONE as int);
            lemma_mul_abs_bound(v.y as int, v.y as int, FP_ONE as int, FP_ONE as int);
            lemma_mul_abs_bound(v.z as int, v.z as int, FP_ONE as int, FP_ONE as int);
        }
        let n2: i64 = v.x * v.x + v.y * v.y + v.z * v.z;
        proof {
            assert(n2 >= 0) by (nonlinear_arith)
                requires
                    n2 == v.x * v.x + v.y * v.y + v.z * v.z,
            ;
        }
        if 0 < n2 && n2 <= FP_ONE * FP_ONE {
            return v;
        }
        tries = tries + 1;
    }
    let f = Vec3 { x: 0, y: FP_ONE, z: 0 };
    proof {
        assert(dot3(f, f) == FP_ONE * FP_ONE);
    }
    f
}

/// A unit-length direction, uniform over the sphere.
pub fn rand_unit_vec(rng: &mut Rng64) -> (r: Vec3)
    ensures
        in_bounds(r, FP_ONE as int),
        ({
            exists|v: Vec3|
                {
                    &&& 0 < dot3(v, v) <= FP_ONE * FP_ONE
                    &&& r == v.normalized_spec()
                }
        }),
{
    let v = rand_in_unit_sphere(rng);
    let r = v.normalized();
    proof {
        assert(0 < dot3(v, v) <= FP_ONE * FP_ONE && r == v.normalized_spec());
    }
    r
}

/// A unit direction in the hemisphere around `normal`: sample unit vectors,
/// flip one that points against the normal, and resample in the boundary case
/// where the dot product is exactly zero (where neither sign would do). If
/// every retry lands on the boundary, the normal itself stands in.
pub fn rand_in_hemisphere(rng: &mut Rng64, normal: Vec3) -> (r: Vec3)
    requires
        in_bounds(normal, 2 * FP_ONE as int),
        dot3(normal, normal) > 0,
    ensures
        in_bounds(r, 2 * FP_ONE as int),
        dot3(r, normal) > 0,
{
    let mut tries: usize = 0;
    while tries < 64
        invariant
            in_bounds(normal, 2 * FP_ONE as int),
        decreases 64 - tries,
    {
        let v = rand_unit_vec(rng);
        let d = v.dot_raw(normal);
        if d > 0 {
            return v;
        }
        if d < 0 {
            let w = v.vneg();
            proof {
                assert(dot3(w, normal) == -dot3(v, normal)) by (nonlinear_arith)
                    requires
                        w.x == -v.x && w.y == -v.y && w.z == -v.z,
                ;
            }
            return w;
        }
        tries = tries + 1;
    }
    normal
}

/// Scatter law: a diffuse bounce direction `normal + h` with `h` in the
/// hemisphere of `normal` (`h . normal > 0`) always leaves the surface:
/// its dot product with the normal is positive.
pub proof fn lemma_hemisphere_scatter(n: Vec3, h: Vec3)
    requires
        dot3(h, n) > 0,
    ensures
        (n.x + h.x) * n.x + (n.y + h.y) * n.y + (n.z + h.z) * n.z > 0,
{
    assert((n.x + h.x) * n.x == n.x * n.x + h.x * n.x) by (nonlinear_arith);
    assert((n.y + h.y) * n.y == n.y * n.y + h.y * n.y) by (nonlinear_arith);
    assert((n.z + h.z) * n.z == n.z * n.z + h.z * n.z) by (nonlinear_arith);
    assert(n.x * n.x >= 0 && n.y * n.y >= 0 && n.z * n.z >= 0) by (nonlinear_arith);
}

/// The exact mirror direction scaled by `n . n`: `(n.n) d - 2 (d.n) n`.
/// The executable `reflect` divides this by `n . n`.
pub open spec fn reflect_num_x(d: Vec3, n: Vec3) -> int {
    dot3(n, n) * d.x - 2 * dot3(d, n) * n.x
}

pub open spec fn reflect_num_y(d: Vec3, n: Vec3) -> int {
    dot3(n, n) * d.y - 2 * dot3(d, n) * n.y
}

pub open spec fn reflect_num_z(d: Vec3, n: Vec3) -> int {
    dot3(n, n) * d.z - 2 * dot3(d, n) * n.z
}

/// Reflection law, in the exact scaled form: the mirror direction's dot
/// product with the normal is the negated incoming dot product, scaled by
/// `n . n`. For a unit normal this is `reflect(d, n) . n == -(d . n)`.
pub proof fn lemma_reflect_law(d: Vec3, n: Vec3)
    ensures
        reflect_num_x(d, n) * n.x + reflect_num_y(d, n) * n.y + reflect_num_z(d, n) * n.z == -(dot3(
            d,
            n,
        ) * dot3(n, n)),
{
    let nn = dot3(n, n);
    let dn = dot3(d, n);
    assert((nn * d.x - 2 * dn * n.x) * n.x == nn * (d.x * n.x) - 2 * dn * (n.x * n.x))
        by (nonlinear_arith);
    assert((nn * d.y - 2 * dn * n.y) * n.y == nn * (d.y * n.y) - 2 * dn * (n.y * n.y))
        by (nonlinear_arith);
    assert((nn * d.z - 2 * dn * n.z) * n.z == nn * (d.z * n.z) - 2 * dn * (n.z * n.z))
        by (nonlinear_arith);
    assert(nn * (d.x * n.x) + nn * (d.y * n.y) + nn * (d.z * n.z) == nn * dn) by (nonlinear_arith)
        requires
            dn == d.x * n.x + d.y * n.y + d.z * n.z,
    ;
    assert(2 * dn * (n.x * n.x) + 2 * dn * (n.y * n.y) + 2 * dn * (n.z * n.z) == 2 * (dn * nn))
        by (nonlinear_arith)
        requires
            nn == n.x * n.x + n.y * n.y + n.z * n.z,
    ;
    assert(nn * dn - 2 * (dn * nn) == -(dn * nn)) by (nonlinear_arith);
}

/// The mirror direction as a vector: `d - 2 (d.n) n / (n.n)`, each component
/// truncated toward zero once.
pub open spec fn reflect_spec(d: Vec3, n: Vec3) -> Vec3 {
    Vec3 {
        x: (d.x - tdiv(2 * dot3(d, n) * n.x, dot3(n, n))) as i64,
        y: (d.y - tdiv(2 * dot3(d, n) * n.y, dot3(n, n))) as i64,
        z: (d.z - tdiv(2 * dot3(d, n) * n.z, dot3(n, n))) as i64,
    }
}

/// Mirror `d` about the plane with normal `n`: `d - 2 (d.n) n / (n.n)`,
/// each component truncated toward zero once.
pub fn reflect(d: Vec3, n: Vec3) -> (r: Vec3)
    requires
        in_bounds(d, 0x1_0000),
        in_bounds(n, 0x1_0000),
        dot3(n, n) > 0,
    ensures
        r == reflect_spec(d, n),
        r.x == d.x - tdiv(2 * dot3(d, n) * n.x, dot3(n, n)),
        r.y == d.y - tdiv(2 * dot3(d, n) * n.y, dot3(n, n)),
        r.z == d.z - tdiv(2 * dot3(d, n) * n.z, dot3(n, n)),
        in_bounds(r, 0x7_0000_0000_0000),
{
    let dn = d.dot_raw(n);
    let nn = n.dot_raw(n);
    proof {
        lemma_mul_abs_bound(d.x as int, n.x as int, 0x1_0000, 0x1_0000);
        lemma_mul_abs_bound(d.y as int, n.y as int, 0x1_0000, 0x1_0000);
        lemma_mul_abs_bound(d.z as int, n.z as int, 0x1_0000, 0x1_0000);
        lemma_mul_abs_bound(dn as int, n.x as int, 0x3_0000_0000, 0x1_0000);
        lemma_mul_abs_bound(dn as int, n.y as int, 0x3_0000_0000, 0x1_0000);
        lemma_mul_abs_bound(dn as int, n.z as int, 0x3_0000_0000, 0x1_0000);
        assert(2 * (dn as int) * (n.x as int) == 2 * ((dn as int) * (n.x as int)))
            by (nonlinear_arith);
        assert(2 * (dn as int) * (n.y as int) == 2 * ((dn as int) * (n.y as int)))
            by (nonlinear_arith);
        assert(2 * (dn as int) * (n.z as int) == 2 * ((dn as int) * (n.z as int)))
            by (nonlinear_arith);
        lemma_tdiv_abs_mono(2 * ((dn as int) * (n.x as int)), 0x6_0000_0000_0000, nn as int);
        lemma_tdiv_abs_mono(2 * ((dn as int) * (n.y as int)), 0x6_0000_0000_0000, nn as int);
        lemma_tdiv_abs_mono(2 * ((dn as int) * (n.z as int)), 0x6_0000_0000_0000, nn as int);
        lemma_tdiv_bound(0x6_0000_0000_0000, nn as int);
    }
    let px: i64 = dn * n.x;
    let py: i64 = dn * n.y;
    let pz: i64 = dn * n.z;
    let rx: i64 = d.x - div64(2 * px, nn);
    let ry: i64 = d.y - div64(2 * py, nn);
    let rz: i64 = d.z - div64(2 * pz, nn);
    Vec3 { x: rx, y: ry, z: rz }
}

/// The smallest surface offset the fixed-point grid can express: one quantum
/// along the sign of each normal component. It plays the role a small
/// epsilon times the normal plays in real arithmetic: it keeps a bounced
/// ray from immediately re-hitting its own surface.
pub fn nudge(p: Vec3, n: Vec3) -> (r: Vec3)
    requires
        in_bounds(p, 0x7FFF_FFFF_FFFF_FFFE),
    ensures
        r.x == p.x + nudge_sign(n.x as int),
        r.y == p.y + nudge_sign(n.y as int),
        r.z == p.z + nudge_sign(n.z as int),
{
    let dx: i64 = if n.x > 0 {
        1
    } else if n.x < 0 {
        -1
    } else {
        0
    };
    let dy: i64 = if n.y > 0 {
        1
    } else if n.y < 0 {
        -1
    } else {
        0
    };
    let dz: i64 = if n.z > 0 {
        1
    } else if n.z < 0 {
        -1
    } else {
        0
    };
    Vec3 { x: p.x + dx, y: p.y + dy, z: p.z + dz }
}

pub open spec fn nudge_sign(c: int) -> int {
    if c > 0 {
        1
    } else if c < 0 {
        -1
    } else {
        0
    }
}

} // verus!
