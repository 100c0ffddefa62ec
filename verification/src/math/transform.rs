//! Affine transforms: a 4x4 matrix (implicit `0 0 0 1` bottom row) kept
//! together with its inverse, so rays can be carried into mesh-local space
//! and hits carried back.

use vstd::prelude::*;
use crate::fixed::FP_ONE;
use crate::fixed::tdiv;
use crate::fixed::div64;
use crate::fixed::lemma_mul_abs_bound;
use crate::fixed::lemma_tdiv_abs_mono;
use crate::fixed::lemma_tdiv_bound;
use crate::vec3::Vec3;
use crate::vec3::in_bounds;

verus! {

/// Largest magnitude allowed for a matrix entry.
pub const MAT_LIMIT: i64 = 0x4000_0000;

/// Rows 0..2 of an affine 4x4 matrix in fixed-point units; the linear part is
/// `mRC` for row R, column C, and `mR3` is the translation.
#[derive(Clone, Copy, PartialEq, Eq, Structural, Debug)]
pub struct Matrix {
    pub m00: i64,
    pub m01: i64,
    pub m02: i64,
    pub m03: i64,
    pub m10: i64,
    pub m11: i64,
    pub m12: i64,
    pub m13: i64,
    pub m20: i64,
    pub m21: i64,
    pub m22: i64,
    pub m23: i64,
}

/// One row of the linear part applied to a point, before rescaling.
pub open spec fn row_dot(a: int, b: int, c: int, v: Vec3) -> int {
    a * v.x + b * v.y + c * v.z
}

impl Matrix {
    pub open spec fn wf(self) -> bool {
        &&& -MAT_LIMIT <= self.m00 <= MAT_LIMIT
        &&& -MAT_LIMIT <= self.m01 <= MAT_LIMIT
        &&& -MAT_LIMIT <= self.m02 <= MAT_LIMIT
        &&& -MAT_LIMIT <= self.m03 <= MAT_LIMIT
        &&& -MAT_LIMIT <= self.m10 <= MAT_LIMIT
        &&& -MAT_LIMIT <= self.m11 <= MAT_LIMIT
        &&& -MAT_LIMIT <= self.m12 <= MAT_LIMIT
        &&& -MAT_LIMIT <= self.m13 <= MAT_LIMIT
        &&& -MAT_LIMIT <= self.m20 <= MAT_LIMIT
        &&& -MAT_LIMIT <= self.m21 <= MAT_LIMIT
        &&& -MAT_LIMIT <= self.m22 <= MAT_LIMIT
        &&& -MAT_LIMIT <= self.m23 <= MAT_LIMIT
    }

    /// What `mul_point` returns: linear part rescaled from fixed-point, then
    /// the translation added exactly.
    pub open spec fn mul_point_spec(self, v: Vec3) -> Vec3 {
        Vec3 {
            x: (tdiv(row_dot(self.m00 as int, self.m01 as int, self.m02 as int, v), FP_ONE as int)
                + self.m03) as i64,
            y: (tdiv(row_dot(self.m10 as int, self.m11 as int, self.m12 as int, v), FP_ONE as int)
                + self.m13) as i64,
            z: (tdiv(row_dot(self.m20 as int, self.m21 as int, self.m22 as int, v), FP_ONE as int)
                + self.m23) as i64,
        }
    }

    /// What `mul_dir_transposed` returns: the transposed linear part applied to
    /// a direction; the translation plays no role.
    pub open spec fn mul_dir_transposed_spec(self, v: Vec3) -> Vec3 {
        Vec3 {
            x: tdiv(row_dot(self.m00 as int, self.m10 as int, self.m20 as int, v), FP_ONE as int)
                as i64,
            y: tdiv(row_dot(self.m01 as int, self.m11 as int, self.m21 as int, v), FP_ONE as int)
                as i64,
            z: tdiv(row_dot(self.m02 as int, self.m12 as int, self.m22 as int, v), FP_ONE as int)
                as i64,
        }
    }

    pub fn identity() -> (r: Matrix)
        ensures
            r.wf(),
            r == Matrix::identity_spec(),
    {
        Matrix {
            m00: FP_ONE, m01: 0, m02: 0, m03: 0,
            m10: 0, m11: FP_ONE, m12: 0, m13: 0,
            m20: 0, m21: 0, m22: FP_ONE, m23: 0,
        }
    }

    pub open spec fn identity_spec() -> Matrix {
        Matrix {
            m00: FP_ONE, m01: 0i64, m02: 0i64, m03: 0i64,
            m10: 0i64, m11: FP_ONE, m12: 0i64, m13: 0i64,
            m20: 0i64, m21: 0i64, m22: FP_ONE, m23: 0i64,
        }
    }

    /// A pure translation by `t`.
    pub fn translation(t: Vec3) -> (r: Matrix)
        requires
            -MAT_LIMIT <= t.x <= MAT_LIMIT,
            -MAT_LIMIT <= t.y <= MAT_LIMIT,
            -MAT_LIMIT <= t.z <= MAT_LIMIT,
        ensures
            r.wf(),
            r == (Matrix { m03: t.x, m13: t.y, m23: t.z, ..Matrix::identity_spec() }),
    {
        Matrix {
            m00: FP_ONE, m01: 0, m02: 0, m03: t.x,
            m10: 0, m11: FP_ONE, m12: 0, m13: t.y,
            m20: 0, m21: 0, m22: FP_ONE, m23: t.z,
        }
    }

    fn row_apply(a: i64, b: i64, c: i64, t: i64, v: Vec3) -> (r: i64)
        requires
            -MAT_LIMIT <= a <= MAT_LIMIT,
            -MAT_LIMIT <= b <= MAT_LIMIT,
            -MAT_LIMIT <= c <= MAT_LIMIT,
            -MAT_LIMIT <= t <= MAT_LIMIT,
            in_bounds(v, 0x4000_0000),
        ensures
            r == tdiv(row_dot(a as int, b as int, c as int, v), FP_ONE as int) + t,
    {
        proof {
            lemma_mul_abs_bound(a as int, v.x as int, MAT_LIMIT as int, 0x4000_0000);
            lemma_mul_abs_bound(b as int, v.y as int, MAT_LIMIT as int, 0x4000_0000);
            lemma_mul_abs_bound(c as int, v.z as int, MAT_LIMIT as int, 0x4000_0000);
        }
        let s: i64 = a * v.x + b * v.y + c * v.z;
        proof {
            lemma_tdiv_abs_mono(s as int, 0x3000_0000_0000_0000, FP_ONE as int);
            lemma_tdiv_bound(0x3000_0000_0000_0000, FP_ONE as int);
        }
        let q = div64(s, FP_ONE);
        q + t
    }

    /// Apply the affine map to a point.
    pub fn mul_point(&self, v: Vec3) -> (r: Vec3)
        requires
            self.wf(),
            in_bounds(v, 0x4000_0000),
        ensures
            r == self.mul_point_spec(v),
    {
        let x = Matrix::row_apply(self.m00, self.m01, self.m02, self.m03, v);
        let y = Matrix::row_apply(self.m10, self.m11, self.m12, self.m13, v);
        let z = Matrix::row_apply(self.m20, self.m21, self.m22, self.m23, v);
        Vec3 { x, y, z }
    }

    /// Apply the transposed linear part to a direction (the usual way a normal
    /// or direction is carried by an inverse matrix).
    pub fn mul_dir_transposed(&self, v: Vec3) -> (r: Vec3)
        requires
            self.wf(),
            in_bounds(v, 0x4000_0000),
        ensures
            r == self.mul_dir_transposed_spec(v),
    {
        let x = Matrix::row_apply(self.m00, self.m10, self.m20, 0, v);
        let y = Matrix::row_apply(self.m01, self.m11, self.m21, 0, v);
        let z = Matrix::row_apply(self.m02, self.m12, self.m22, 0, v);
        Vec3 { x, y, z }
    }
}

/// Round trip of a point through a translation and back: carrying a point
/// through `translation(t)` and then through its inverse `translation(-t)`
/// returns it exactly, because the identity linear part rescales without
/// loss. (For general matrices the round trip is exact only up to the
/// fixed-point truncation of each pass.)
pub proof fn lemma_translation_round_trip(t: Vec3, v: Vec3)
    requires
        -MAT_LIMIT <= t.x <= MAT_LIMIT,
        -MAT_LIMIT <= t.y <= MAT_LIMIT,
        -MAT_LIMIT <= t.z <= MAT_LIMIT,
        in_bounds(v, 0x4000_0000),
    ensures
        ({
            let m = Matrix { m03: t.x, m13: t.y, m23: t.z, ..Matrix::identity_spec() };
            let minv = Matrix {
                m03: (-t.x) as i64,
                m13: (-t.y) as i64,
                m23: (-t.z) as i64,
                ..Matrix::identity_spec()
            };
            minv.mul_point_spec(m.mul_point_spec(v)) == v
        }),
{
    lemma_identity_row(v.x as int);
    lemma_identity_row(v.y as int);
    lemma_identity_row(v.z as int);
    lemma_identity_row(v.x + t.x);
    lemma_identity_row(v.y + t.y);
    lemma_identity_row(v.z + t.z);
}

/// The identity linear part carries a coordinate through unchanged:
/// `(FP_ONE * c) / FP_ONE == c`.
proof fn lemma_identity_row(c: int)
    ensures
        tdiv(FP_ONE * c + 0 + 0, FP_ONE as int) == c,
{
    crate::fixed::lemma_tdiv_multiple(c, FP_ONE as int);
    assert(FP_ONE * c + 0 + 0 == c * FP_ONE) by (nonlinear_arith);
}

/// A direction of at most `DIR_LIMIT` magnitude stays comfortably inside the
/// range `normalized` accepts after the transposed linear part is applied.
pub proof fn lemma_mul_dir_transposed_bounded(m: Matrix, v: Vec3)
    requires
        m.wf(),
        in_bounds(v, 0x8000),
    ensures
        in_bounds(m.mul_dir_transposed_spec(v), 0x18_0000_0000),
{
    let r0 = row_dot(m.m00 as int, m.m10 as int, m.m20 as int, v);
    let r1 = row_dot(m.m01 as int, m.m11 as int, m.m21 as int, v);
    let r2 = row_dot(m.m02 as int, m.m12 as int, m.m22 as int, v);
    lemma_mul_abs_bound(m.m00 as int, v.x as int, MAT_LIMIT as int, 0x8000);
    lemma_mul_abs_bound(m.m10 as int, v.y as int, MAT_LIMIT as int, 0x8000);
    lemma_mul_abs_bound(m.m20 as int, v.z as int, MAT_LIMIT as int, 0x8000);
    lemma_mul_abs_bound(m.m01 as int, v.x as int, MAT_LIMIT as int, 0x8000);
    lemma_mul_abs_bound(m.m11 as int, v.y as int, MAT_LIMIT as int, 0x8000);
    lemma_mul_abs_bound(m.m21 as int, v.z as int, MAT_LIMIT as int, 0x8000);
    lemma_mul_abs_bound(m.m02 as int, v.x as int, MAT_LIMIT as int, 0x8000);
    lemma_mul_abs_bound(m.m12 as int, v.y as int, MAT_LIMIT as int, 0x8000);
    lemma_mul_abs_bound(m.m22 as int, v.z as int, MAT_LIMIT as int, 0x8000);
    lemma_tdiv_abs_mono(r0, 0x1_8000_0000_0000, FP_ONE as int);
    lemma_tdiv_abs_mono(r1, 0x1_8000_0000_0000, FP_ONE as int);
    lemma_tdiv_abs_mono(r2, 0x1_8000_0000_0000, FP_ONE as int);
    assert(tdiv(0x1_8000_0000_0000, FP_ONE as int) == 0x18_0000_0000);
}

/// A matrix together with its inverse. The inverse is supplied by the caller
/// (hosts compute it in whatever precision they have); the library only ever
/// moves values through the pair, so `inverse` is an exact swap.
#[derive(Clone, Copy, PartialEq, Eq, Structural, Debug)]
pub struct Transform {
    pub m: Matrix,
    pub inv: Matrix,
}

impl Transform {
    pub open spec fn wf(self) -> bool {
        &&& self.m.wf()
        &&& self.inv.wf()
    }

    pub fn new(m: Matrix, inv: Matrix) -> (r: Transform)
        ensures
            r == (Transform { m, inv }),
    {
        Transform { m, inv }
    }

    pub fn identity() -> (r: Transform)
        ensures
            r.wf(),
            r.m == Matrix::identity_spec(),
            r.inv == Matrix::identity_spec(),
    {
        Transform { m: Matrix::identity(), inv: Matrix::identity() }
    }

    /// The inverse transform: the same pair, swapped.
    pub fn inverse(&self) -> (r: Transform)
        ensures
            r.m == self.inv,
            r.inv == self.m,
    {
        Transform { m: self.inv, inv: self.m }
    }
}

} // verus!
