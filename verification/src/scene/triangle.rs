//! Triangles and their ray intersection (Moeller-Trumbore over exact
//! integer arithmetic).

use vstd::prelude::*;
use crate::fixed::FP_ONE;
use crate::fixed::tdiv;
use crate::fixed::div64;
use crate::fixed::div128;
use crate::fixed::mul_wide;
use crate::fixed::lemma_mul_abs_bound;
use crate::fixed::lemma_mul_le_pos;
use crate::fixed::lemma_tdiv_mono;
use crate::fixed::lemma_tdiv_multiple;
use crate::vec3::Vec3;
use crate::vec3::Vec2;
use crate::vec3::in_bounds;
use crate::vec3::COORD_LIMIT;
use crate::vec3::sv;
use crate::vec3::tsub;
use crate::vec3::tcross;
use crate::vec3::tdot;
use crate::vec3::dot3;
use crate::vec3::min3;
use crate::vec3::max3;
use crate::rendering::ray::Ray;
use crate::rendering::ray::ray_wf;

verus! {

#[derive(Clone, Copy, Debug)]
pub struct Triangle {
    pub v0: Vec3,
    pub v1: Vec3,
    pub v2: Vec3,
    pub normals: Option<[Vec3; 3]>,
    pub uvs: Option<[Vec2; 3]>,
}

/// All three vertices lie within the world bounds.
pub open spec fn tri_wf(t: Triangle) -> bool {
    &&& in_bounds(t.v0, COORD_LIMIT as int)
    &&& in_bounds(t.v1, COORD_LIMIT as int)
    &&& in_bounds(t.v2, COORD_LIMIT as int)
}

/// Three times the centroid (the exact vertex sum), per axis; the partition
/// step of the BVH compares this against a tripled split position so no
/// rounding enters the comparison.
pub open spec fn centroid3_x(t: Triangle) -> int {
    t.v0.x + t.v1.x + t.v2.x
}

pub open spec fn centroid3_y(t: Triangle) -> int {
    t.v0.y + t.v1.y + t.v2.y
}

pub open spec fn centroid3_z(t: Triangle) -> int {
    t.v0.z + t.v1.z + t.v2.z
}

/// A triangle hit: the point, face normal, fixed-point barycentrics, and the
/// exact hit parameter as the fraction `t_num / t_den` (`t_den > 0`).
#[derive(Clone, Copy, PartialEq, Eq, Structural, Debug)]
pub struct TriangleHitData {
    pub p: Vec3,
    pub normal: Vec3,
    pub bary: Vec3,
    pub t_num: i64,
    pub t_den: i64,
}

impl TriangleHitData {
    pub fn new(p: Vec3, normal: Vec3, bary: Vec3, t_num: i64, t_den: i64) -> (r: TriangleHitData)
        ensures
            r == (TriangleHitData { p, normal, bary, t_num, t_den }),
    {
        TriangleHitData { p, normal, bary, t_num, t_den }
    }
}

// --- The Moeller-Trumbore quantities, as exact integers. ---

pub open spec fn mt_e1(t: Triangle) -> (int, int, int) {
    tsub(sv(t.v1), sv(t.v0))
}

pub open spec fn mt_e2(t: Triangle) -> (int, int, int) {
    tsub(sv(t.v2), sv(t.v0))
}

pub open spec fn mt_pvec(t: Triangle, r: Ray) -> (int, int, int) {
    tcross(sv(r.direction), mt_e2(t))
}

/// The edge cross product (the unnormalized face normal).
pub open spec fn mt_cross(t: Triangle) -> (int, int, int) {
    tcross(mt_e1(t), mt_e2(t))
}

/// The determinant; positive exactly for front-facing, non-degenerate hits.
/// By the scalar triple product identity this equals `e1 . (d x e2)`; it is
/// computed from the face cross product, which an accepted hit therefore
/// cannot have degenerate.
pub open spec fn mt_det(t: Triangle, r: Ray) -> int {
    -tdot(sv(r.direction), mt_cross(t))
}

pub open spec fn mt_tvec(t: Triangle, r: Ray) -> (int, int, int) {
    tsub(sv(r.origin), sv(t.v0))
}

/// Numerator of the first barycentric coordinate (over `mt_det`).
pub open spec fn mt_u(t: Triangle, r: Ray) -> int {
    tdot(mt_tvec(t, r), mt_pvec(t, r))
}

pub open spec fn mt_qvec(t: Triangle, r: Ray) -> (int, int, int) {
    tcross(mt_tvec(t, r), mt_e1(t))
}

/// Numerator of the second barycentric coordinate (over `mt_det`).
pub open spec fn mt_v(t: Triangle, r: Ray) -> int {
    tdot(sv(r.direction), mt_qvec(t, r))
}

/// Numerator of the hit parameter (over `mt_det`).
pub open spec fn mt_tn(t: Triangle, r: Ray) -> int {
    tdot(mt_e2(t), mt_qvec(t, r))
}

pub open spec fn tri_lo_x(t: Triangle) -> int {
    min3(t.v0.x as int, t.v1.x as int, t.v2.x as int)
}

pub open spec fn tri_lo_y(t: Triangle) -> int {
    min3(t.v0.y as int, t.v1.y as int, t.v2.y as int)
}

pub open spec fn tri_lo_z(t: Triangle) -> int {
    min3(t.v0.z as int, t.v1.z as int, t.v2.z as int)
}

pub open spec fn tri_hi_x(t: Triangle) -> int {
    max3(t.v0.x as int, t.v1.x as int, t.v2.x as int)
}

pub open spec fn tri_hi_y(t: Triangle) -> int {
    max3(t.v0.y as int, t.v1.y as int, t.v2.y as int)
}

pub open spec fn tri_hi_z(t: Triangle) -> int {
    max3(t.v0.z as int, t.v1.z as int, t.v2.z as int)
}

/// The hit point lies within the triangle's own coordinate span on every
/// axis, stated multiplied through by the positive determinant. A true
/// barycentric hit always satisfies this; the intersector checks it so that
/// every accepted hit is known to stay inside any box that contains the
/// triangle, which the BVH pruning proof rests on.
pub open spec fn tri_contained(t: Triangle, r: Ray) -> bool {
    let det = mt_det(t, r);
    let tn = mt_tn(t, r);
    &&& det * tri_lo_x(t) <= det * r.origin.x + tn * r.direction.x
    &&& det * r.origin.x + tn * r.direction.x <= det * tri_hi_x(t)
    &&& det * tri_lo_y(t) <= det * r.origin.y + tn * r.direction.y
    &&& det * r.origin.y + tn * r.direction.y <= det * tri_hi_y(t)
    &&& det * tri_lo_z(t) <= det * r.origin.z + tn * r.direction.z
    &&& det * r.origin.z + tn * r.direction.z <= det * tri_hi_z(t)
}

/// Acceptance of the Moeller-Trumbore test: positive determinant (front
/// faces only), barycentrics within the triangle, positive hit parameter,
/// and the hit point within the triangle's span.
pub open spec fn tri_hits(t: Triangle, r: Ray) -> bool {
    let det = mt_det(t, r);
    &&& det > 0
    &&& 0 <= mt_u(t, r) <= det
    &&& 0 <= mt_v(t, r)
    &&& mt_u(t, r) + mt_v(t, r) <= det
    &&& mt_tn(t, r) > 0
    &&& tri_contained(t, r)
}

/// Components of the hit point `origin + (tn/det) * direction`, truncated.
pub open spec fn tri_hit_px(t: Triangle, r: Ray) -> int {
    r.origin.x + tdiv(mt_tn(t, r) * r.direction.x, mt_det(t, r))
}

pub open spec fn tri_hit_py(t: Triangle, r: Ray) -> int {
    r.origin.y + tdiv(mt_tn(t, r) * r.direction.y, mt_det(t, r))
}

pub open spec fn tri_hit_pz(t: Triangle, r: Ray) -> int {
    r.origin.z + tdiv(mt_tn(t, r) * r.direction.z, mt_det(t, r))
}

/// The geometric (face) normal: the normalized edge cross product.
pub open spec fn tri_normal_spec(t: Triangle) -> Vec3 {
    let c = mt_cross(t);
    (Vec3 { x: c.0 as i64, y: c.1 as i64, z: c.2 as i64 }).normalized_spec()
}

/// Barycentric coordinates rescaled to fixed point.
pub open spec fn tri_bary_u(t: Triangle, r: Ray) -> int {
    tdiv(mt_u(t, r) * FP_ONE, mt_det(t, r))
}

pub open spec fn tri_bary_v(t: Triangle, r: Ray) -> int {
    tdiv(mt_v(t, r) * FP_ONE, mt_det(t, r))
}

pub open spec fn tri_bary_w(t: Triangle, r: Ray) -> int {
    tdiv((mt_det(t, r) - mt_u(t, r) - mt_v(t, r)) * FP_ONE, mt_det(t, r))
}

/// Everything `Triangle::intersect` reports about a hit.
pub open spec fn tri_hit_spec(t: Triangle, r: Ray) -> TriangleHitData {
    TriangleHitData {
        p: Vec3 {
            x: tri_hit_px(t, r) as i64,
            y: tri_hit_py(t, r) as i64,
            z: tri_hit_pz(t, r) as i64,
        },
        normal: tri_normal_spec(t),
        bary: Vec3 {
            x: tri_bary_u(t, r) as i64,
            y: tri_bary_v(t, r) as i64,
            z: tri_bary_w(t, r) as i64,
        },
        t_num: mt_tn(t, r) as i64,
        t_den: mt_det(t, r) as i64,
    }
}

/// Dot product sized for the Moeller-Trumbore intermediates: one small
/// operand, one that may carry a cross product.
fn dot_mid(a: Vec3, b: Vec3) -> (r: i64)
    requires
        in_bounds(a, 0x10_0000),
        in_bounds(b, 0x100_0000_0000),
    ensures
        r == dot3(a, b),
        -0x3000_0000_0000_0000 <= r <= 0x3000_0000_0000_0000,
{
    proof {
        lemma_mul_abs_bound(a.x as int, b.x as int, 0x10_0000, 0x100_0000_0000);
        lemma_mul_abs_bound(a.y as int, b.y as int, 0x10_0000, 0x100_0000_0000);
        lemma_mul_abs_bound(a.z as int, b.z as int, 0x10_0000, 0x100_0000_0000);
    }
    a.x * b.x + a.y * b.y + a.z * b.z
}

/// The smaller of three coordinates.
fn min3e(a: i64, b: i64, c: i64) -> (r: i64)
    ensures
        r == min3(a as int, b as int, c as int),
{
    if a <= b && a <= c {
        a
    } else if b <= c {
        b
    } else {
        c
    }
}

/// The larger of three coordinates.
fn max3e(a: i64, b: i64, c: i64) -> (r: i64)
    ensures
        r == max3(a as int, b as int, c as int),
{
    if a >= b && a >= c {
        a
    } else if b >= c {
        b
    } else {
        c
    }
}

impl Triangle {
    pub fn new(verts: [Vec3; 3], normals: [Vec3; 3], uvs: [Vec2; 3]) -> (r: Triangle)
        ensures
            r.v0 == verts[0],
            r.v1 == verts[1],
            r.v2 == verts[2],
            r.normals == Some(normals),
            r.uvs == Some(uvs),
    {
        Triangle { v0: verts[0], v1: verts[1], v2: verts[2], normals: Some(normals), uvs: Some(uvs) }
    }

    /// A triangle carrying only vertex positions.
    pub fn from_verts(v0: Vec3, v1: Vec3, v2: Vec3) -> (r: Triangle)
        ensures
            r.v0 == v0,
            r.v1 == v1,
            r.v2 == v2,
            r.normals == None::<[Vec3; 3]>,
            r.uvs == None::<[Vec2; 3]>,
    {
        Triangle { v0, v1, v2, normals: None, uvs: None }
    }

    /// The centroid `(v0 + v1 + v2) / 3`, truncated toward zero per component.
    pub fn centroid(&self) -> (r: Vec3)
        requires
            tri_wf(*self),
        ensures
            r.x == tdiv(centroid3_x(*self), 3),
            r.y == tdiv(centroid3_y(*self), 3),
            r.z == tdiv(centroid3_z(*self), 3),
    {
        let sx: i64 = self.v0.x + self.v1.x + self.v2.x;
        let sy: i64 = self.v0.y + self.v1.y + self.v2.y;
        let sz: i64 = self.v0.z + self.v1.z + self.v2.z;
        Vec3 { x: div64(sx, 3), y: div64(sy, 3), z: div64(sz, 3) }
    }

    /// Moeller-Trumbore intersection over exact integers: front faces with a
    /// positive hit parameter are accepted, and the reported point, normal,
    /// barycentrics and exact parameter fraction are pinned by `tri_hit_spec`.
    pub fn intersect(&self, ray: &Ray) -> (res: Option<TriangleHitData>)
        requires
            tri_wf(*self),
            ray_wf(*ray),
        ensures
            match res {
                Option::None => !tri_hits(*self, *ray),
                Option::Some(h) => {
                    &&& tri_hits(*self, *ray)
                    &&& h == tri_hit_spec(*self, *ray)
                    &&& in_bounds(h.p, COORD_LIMIT as int)
                    &&& in_bounds(h.normal, FP_ONE as int)
                    &&& h.t_num as int == mt_tn(*self, *ray)
                    &&& h.t_den as int == mt_det(*self, *ray)
                    &&& h.t_num > 0
                    &&& h.t_den > 0
                },
            },
    {
        let t = *self;
        let r = *ray;
        let e1 = t.v1.vsub(t.v0);
        let e2 = t.v2.vsub(t.v0);
        let c = e1.cross_raw(e2);
        proof {
            lemma_mul_abs_bound(e1.y as int, e2.z as int, 0x8_0000, 0x8_0000);
            lemma_mul_abs_bound(e1.z as int, e2.y as int, 0x8_0000, 0x8_0000);
            lemma_mul_abs_bound(e1.z as int, e2.x as int, 0x8_0000, 0x8_0000);
            lemma_mul_abs_bound(e1.x as int, e2.z as int, 0x8_0000, 0x8_0000);
            lemma_mul_abs_bound(e1.x as int, e2.y as int, 0x8_0000, 0x8_0000);
            lemma_mul_abs_bound(e1.y as int, e2.x as int, 0x8_0000, 0x8_0000);
        }
        let det = -dot_mid(r.direction, c);
        proof {
            assert(det as int == mt_det(t, r));
        }
        if det <= 0 {
            return None;
        }
        let pvec = r.direction.cross_raw(e2);
        proof {
            lemma_mul_abs_bound(r.direction.y as int, e2.z as int, 0x8000, 0x8_0000);
            lemma_mul_abs_bound(r.direction.z as int, e2.y as int, 0x8000, 0x8_0000);
            lemma_mul_abs_bound(r.direction.z as int, e2.x as int, 0x8000, 0x8_0000);
            lemma_mul_abs_bound(r.direction.x as int, e2.z as int, 0x8000, 0x8_0000);
            lemma_mul_abs_bound(r.direction.x as int, e2.y as int, 0x8000, 0x8_0000);
            lemma_mul_abs_bound(r.direction.y as int, e2.x as int, 0x8000, 0x8_0000);
        }
        let tvec = r.origin.vsub(t.v0);
        let u = dot_mid(tvec, pvec);
        proof {
            assert(u as int == mt_u(t, r));
        }
        if u < 0 || u > det {
            return None;
        }
        let qvec = tvec.cross_raw(e1);
        proof {
            lemma_mul_abs_bound(tvec.y as int, e1.z as int, 0x8_0000, 0x8_0000);
            lemma_mul_abs_bound(tvec.z as int, e1.y as int, 0x8_0000, 0x8_0000);
            lemma_mul_abs_bound(tvec.z as int, e1.x as int, 0x8_0000, 0x8_0000);
            lemma_mul_abs_bound(tvec.x as int, e1.z as int, 0x8_0000, 0x8_0000);
            lemma_mul_abs_bound(tvec.x as int, e1.y as int, 0x8_0000, 0x8_0000);
            lemma_mul_abs_bound(tvec.y as int, e1.x as int, 0x8_0000, 0x8_0000);
        }
        let v = dot_mid(r.direction, qvec);
        proof {
            assert(v as int == mt_v(t, r));
        }
        if v < 0 || u + v > det {
            return None;
        }
        let tn = dot_mid(e2, qvec);
        proof {
            assert(tn as int == mt_tn(t, r));
        }
        if tn <= 0 {
            return None;
        }
        // The hit point stays within the triangle's own coordinate span;
        // checked exactly, multiplied through by the positive determinant.
        let lox = min3e(t.v0.x, t.v1.x, t.v2.x);
        let hix = max3e(t.v0.x, t.v1.x, t.v2.x);
        let loy = min3e(t.v0.y, t.v1.y, t.v2.y);
        let hiy = max3e(t.v0.y, t.v1.y, t.v2.y);
        let loz = min3e(t.v0.z, t.v1.z, t.v2.z);
        let hiz = max3e(t.v0.z, t.v1.z, t.v2.z);
        let nx = mul_wide(tn, r.direction.x);
        let ny = mul_wide(tn, r.direction.y);
        let nz = mul_wide(tn, r.direction.z);
        proof {
            lemma_mul_abs_bound(tn as int, r.direction.x as int, 0x3000_0000_0000_0000, 0x8000);
            lemma_mul_abs_bound(tn as int, r.direction.y as int, 0x3000_0000_0000_0000, 0x8000);
            lemma_mul_abs_bound(tn as int, r.direction.z as int, 0x3000_0000_0000_0000, 0x8000);
            lemma_mul_abs_bound(det as int, r.origin.x as int, 0x3000_0000_0000_0000, 0x4_0000);
            lemma_mul_abs_bound(det as int, r.origin.y as int, 0x3000_0000_0000_0000, 0x4_0000);
            lemma_mul_abs_bound(det as int, r.origin.z as int, 0x3000_0000_0000_0000, 0x4_0000);
        }
        let cx = mul_wide(det, r.origin.x) + nx;
        let cy = mul_wide(det, r.origin.y) + ny;
        let cz = mul_wide(det, r.origin.z) + nz;
        if !(mul_wide(det, lox) <= cx && cx <= mul_wide(det, hix)) {
            return None;
        }
        if !(mul_wide(det, loy) <= cy && cy <= mul_wide(det, hiy)) {
            return None;
        }
        if !(mul_wide(det, loz) <= cz && cz <= mul_wide(det, hiz)) {
            return None;
        }
        assert(tri_hits(t, r));
        // Hit point: the contained span bounds each truncated offset.
        let offx = div128(nx, det as i128);
        let offy = div128(ny, det as i128);
        let offz = div128(nz, det as i128);
        proof {
            lemma_offset_in_span(tn as int, det as int, r.direction.x as int, r.origin.x as int,
                tri_lo_x(t), tri_hi_x(t));
            lemma_offset_in_span(tn as int, det as int, r.direction.y as int, r.origin.y as int,
                tri_lo_y(t), tri_hi_y(t));
            lemma_offset_in_span(tn as int, det as int, r.direction.z as int, r.origin.z as int,
                tri_lo_z(t), tri_hi_z(t));
        }
        let p = Vec3 {
            x: r.origin.x + (offx as i64),
            y: r.origin.y + (offy as i64),
            z: r.origin.z + (offz as i64),
        };
        // Face normal; an accepted determinant rules out a degenerate cross.
        proof {
            if c.x == 0 && c.y == 0 && c.z == 0 {
                assert(r.direction.x * c.x + r.direction.y * c.y + r.direction.z * c.z == 0)
                    by (nonlinear_arith)
                    requires
                        c.x == 0,
                        c.y == 0,
                        c.z == 0,
                ;
                assert(false);
            }
            assert(dot3(c, c) > 0) by (nonlinear_arith)
                requires
                    !(c.x == 0 && c.y == 0 && c.z == 0),
            ;
        }
        let normal = c.normalized();
        // Barycentrics, rescaled to fixed point; each lies in [0, FP_ONE].
        let w_num: i64 = det - u - v;
        let uf = bary_scale(u, det);
        let vf = bary_scale(v, det);
        let wf = bary_scale(w_num, det);
        let h = TriangleHitData {
            p,
            normal,
            bary: Vec3 { x: uf, y: vf, z: wf },
            t_num: tn,
            t_den: det,
        };
        proof {
            assert(h.p.x == tri_hit_px(t, r) as i64);
            assert(h.p.y == tri_hit_py(t, r) as i64);
            assert(h.p.z == tri_hit_pz(t, r) as i64);
            assert(h.normal == tri_normal_spec(t));
            assert(h == tri_hit_spec(t, r));
        }
        Some(h)
    }
}

/// From a contained hit (`det*lo <= det*o + tn*d <= det*hi`), the truncated
/// offset `tn*d/det` stays within `[lo - o, hi - o]`.
proof fn lemma_offset_in_span(tn: int, det: int, d: int, o: int, lo: int, hi: int)
    requires
        det > 0,
        det * lo <= det * o + tn * d,
        det * o + tn * d <= det * hi,
    ensures
        lo - o <= tdiv(tn * d, det) <= hi - o,
{
    assert((lo - o) * det <= tn * d && tn * d <= (hi - o) * det) by (nonlinear_arith)
        requires
            det * lo <= det * o + tn * d,
            det * o + tn * d <= det * hi,
    ;
    lemma_tdiv_mono((lo - o) * det, tn * d, det);
    lemma_tdiv_mono(tn * d, (hi - o) * det, det);
    lemma_tdiv_multiple(lo - o, det);
    lemma_tdiv_multiple(hi - o, det);
}

/// `n * FP_ONE / det` for `0 <= n <= det`: a fixed-point value in [0, FP_ONE].
fn bary_scale(n: i64, det: i64) -> (r: i64)
    requires
        det > 0,
        0 <= n <= det,
    ensures
        r == tdiv(n * FP_ONE, det as int),
        0 <= r <= FP_ONE,
{
    let w = mul_wide(n, FP_ONE);
    proof {
        lemma_mul_le_pos(0, n as int, FP_ONE as int);
        lemma_mul_le_pos(n as int, det as int, FP_ONE as int);
        assert(FP_ONE * n == n * FP_ONE && FP_ONE * det == det * FP_ONE) by (nonlinear_arith);
        lemma_tdiv_mono(0, n * FP_ONE, det as int);
        lemma_tdiv_mono(n * FP_ONE, det * FP_ONE, det as int);
        lemma_tdiv_multiple(FP_ONE as int, det as int);
        assert(tdiv(0, det as int) == 0) by {
            vstd::arithmetic::div_mod::lemma_div_of0(det as int);
        }
    }
    let q = div128(w, det as i128);
    q as i64
}

} // verus!
