//! Three-component vectors in fixed-point units.

use vstd::prelude::*;
use crate::fixed::FP_ONE;
use crate::fixed::tdiv;
use crate::fixed::isqrt;
use crate::fixed::is_isqrt;
use crate::fixed::mul_wide;
use crate::fixed::mul_fp;
use crate::fixed::isqrt_u128;
use crate::fixed::lemma_mul_abs_bound;
use crate::fixed::lemma_tdiv_abs_mono;
use crate::fixed::lemma_isqrt_exists;
use crate::fixed::lemma_tdiv_bound;

verus! {

/// Largest magnitude allowed for a world coordinate (64 world units).
pub const COORD_LIMIT: i64 = 262144;

/// Largest magnitude allowed for a ray-direction component (8 world units).
pub const DIR_LIMIT: i64 = 32768;

#[derive(Clone, Copy, PartialEq, Eq, Structural, Debug)]
pub struct Vec3 {
    pub x: i64,
    pub y: i64,
    pub z: i64,
}

/// A two-component vector (texture coordinates).
#[derive(Clone, Copy, PartialEq, Eq, Structural, Debug)]
pub struct Vec2 {
    pub x: i64,
    pub y: i64,
}

/// The components of `v` as a mathematical integer triple.
pub open spec fn sv(v: Vec3) -> (int, int, int) {
    (v.x as int, v.y as int, v.z as int)
}

/// Exact triple difference.
pub open spec fn tsub(a: (int, int, int), b: (int, int, int)) -> (int, int, int) {
    (a.0 - b.0, a.1 - b.1, a.2 - b.2)
}

/// Exact triple cross product.
pub open spec fn tcross(a: (int, int, int), b: (int, int, int)) -> (int, int, int) {
    (a.1 * b.2 - a.2 * b.1, a.2 * b.0 - a.0 * b.2, a.0 * b.1 - a.1 * b.0)
}

/// Exact triple dot product.
pub open spec fn tdot(a: (int, int, int), b: (int, int, int)) -> int {
    a.0 * b.0 + a.1 * b.1 + a.2 * b.2
}

/// The smaller of three values.
pub open spec fn min3(a: int, b: int, c: int) -> int {
    if a <= b && a <= c {
        a
    } else if b <= c {
        b
    } else {
        c
    }
}

/// The larger of three values.
pub open spec fn max3(a: int, b: int, c: int) -> int {
    if a >= b && a >= c {
        a
    } else if b >= c {
        b
    } else {
        c
    }
}

/// Every component of `v` has magnitude at most `b`.
pub open spec fn in_bounds(v: Vec3, b: int) -> bool {
    &&& -b <= v.x <= b
    &&& -b <= v.y <= b
    &&& -b <= v.z <= b
}

/// The exact (unscaled) dot product.
pub open spec fn dot3(a: Vec3, b: Vec3) -> int {
    a.x * b.x + a.y * b.y + a.z * b.z
}

pub open spec fn cross_x(a: Vec3, b: Vec3) -> int {
    a.y * b.z - a.z * b.y
}

pub open spec fn cross_y(a: Vec3, b: Vec3) -> int {
    a.z * b.x - a.x * b.z
}

pub open spec fn cross_z(a: Vec3, b: Vec3) -> int {
    a.x * b.y - a.y * b.x
}

impl Vec3 {
    /// Decide `in_bounds` at run time.
    pub fn within(&self, b: i64) -> (r: bool)
        requires
            b >= 0,
        ensures
            r == in_bounds(*self, b as int),
    {
        -b <= self.x && self.x <= b && -b <= self.y && self.y <= b && -b <= self.z && self.z <= b
    }

    /// Decide whether this is the zero vector.
    pub fn is_zero(&self) -> (r: bool)
        ensures
            r == (self.x == 0 && self.y == 0 && self.z == 0),
    {
        self.x == 0 && self.y == 0 && self.z == 0
    }

    pub fn new(x: i64, y: i64, z: i64) -> (r: Vec3)
        ensures
            r == (Vec3 { x, y, z }),
    {
        Vec3 { x, y, z }
    }

    pub fn zero() -> (r: Vec3)
        ensures
            r == (Vec3 { x: 0i64, y: 0i64, z: 0i64 }),
    {
        Vec3 { x: 0, y: 0, z: 0 }
    }

    /// The fixed-point vector (1.0, 1.0, 1.0).
    pub fn one() -> (r: Vec3)
        ensures
            r == (Vec3 { x: FP_ONE, y: FP_ONE, z: FP_ONE }),
    {
        Vec3 { x: FP_ONE, y: FP_ONE, z: FP_ONE }
    }

    /// Componentwise sum.
    pub fn vadd(self, o: Vec3) -> (r: Vec3)
        requires
            in_bounds(self, 0x3FFF_FFFF_FFFF_FFFF),
            in_bounds(o, 0x3FFF_FFFF_FFFF_FFFF),
        ensures
            r.x == self.x + o.x,
            r.y == self.y + o.y,
            r.z == self.z + o.z,
    {
        Vec3 { x: self.x + o.x, y: self.y + o.y, z: self.z + o.z }
    }

    /// Componentwise difference.
    pub fn vsub(self, o: Vec3) -> (r: Vec3)
        requires
            in_bounds(self, 0x3FFF_FFFF_FFFF_FFFF),
            in_bounds(o, 0x3FFF_FFFF_FFFF_FFFF),
        ensures
            r.x == self.x - o.x,
            r.y == self.y - o.y,
            r.z == self.z - o.z,
    {
        Vec3 { x: self.x - o.x, y: self.y - o.y, z: self.z - o.z }
    }

    /// Componentwise negation.
    pub fn vneg(self) -> (r: Vec3)
        requires
            in_bounds(self, 0x3FFF_FFFF_FFFF_FFFF),
        ensures
            r.x == -self.x,
            r.y == -self.y,
            r.z == -self.z,
    {
        Vec3 { x: -self.x, y: -self.y, z: -self.z }
    }

    /// Scale by a fixed-point factor: each component becomes `c * k / FP_ONE`.
    pub fn scale_fp(self, k: i64) -> (r: Vec3)
        requires
            in_bounds(self, 0x7FFF_FFFF),
            -0x7FFF_FFFF <= k <= 0x7FFF_FFFF,
        ensures
            r.x == tdiv(self.x * k, FP_ONE as int),
            r.y == tdiv(self.y * k, FP_ONE as int),
            r.z == tdiv(self.z * k, FP_ONE as int),
    {
        proof {
            lemma_mul_abs_bound(self.x as int, k as int, 0x7FFF_FFFF, 0x7FFF_FFFF);
            lemma_mul_abs_bound(self.y as int, k as int, 0x7FFF_FFFF, 0x7FFF_FFFF);
            lemma_mul_abs_bound(self.z as int, k as int, 0x7FFF_FFFF, 0x7FFF_FFFF);
        }
        Vec3 { x: mul_fp(self.x, k), y: mul_fp(self.y, k), z: mul_fp(self.z, k) }
    }

    /// Exact dot product (no rescaling).
    pub fn dot_raw(self, o: Vec3) -> (r: i64)
        requires
            in_bounds(self, 0x4000_0000),
            in_bounds(o, 0x4000_0000),
        ensures
            r == dot3(self, o),
    {
        proof {
            lemma_mul_abs_bound(self.x as int, o.x as int, 0x4000_0000, 0x4000_0000);
            lemma_mul_abs_bound(self.y as int, o.y as int, 0x4000_0000, 0x4000_0000);
            lemma_mul_abs_bound(self.z as int, o.z as int, 0x4000_0000, 0x4000_0000);
        }
        self.x * o.x + self.y * o.y + self.z * o.z
    }

    /// Exact cross product (no rescaling); components grow by a factor of the
    /// operand magnitudes.
    pub fn cross_raw(self, o: Vec3) -> (r: Vec3)
        requires
            in_bounds(self, 0x4000_0000),
            in_bounds(o, 0x4000_0000),
        ensures
            r.x == cross_x(self, o),
            r.y == cross_y(self, o),
            r.z == cross_z(self, o),
    {
        proof {
            lemma_mul_abs_bound(self.y as int, o.z as int, 0x4000_0000, 0x4000_0000);
            lemma_mul_abs_bound(self.z as int, o.y as int, 0x4000_0000, 0x4000_0000);
            lemma_mul_abs_bound(self.z as int, o.x as int, 0x4000_0000, 0x4000_0000);
            lemma_mul_abs_bound(self.x as int, o.z as int, 0x4000_0000, 0x4000_0000);
            lemma_mul_abs_bound(self.x as int, o.y as int, 0x4000_0000, 0x4000_0000);
            lemma_mul_abs_bound(self.y as int, o.x as int, 0x4000_0000, 0x4000_0000);
        }
        Vec3 {
            x: self.y * o.z - self.z * o.y,
            y: self.z * o.x - self.x * o.z,
            z: self.x * o.y - self.y * o.x,
        }
    }

    /// Exact dot product, widened: for operands up to mid-sized cross
    /// products.
    pub fn dot_wide(self, o: Vec3) -> (r: i128)
        requires
            in_bounds(self, 0x4000_0000_0000),
            in_bounds(o, 0x4000_0000_0000),
        ensures
            r == dot3(self, o),
    {
        proof {
            lemma_mul_abs_bound(self.x as int, o.x as int, 0x4000_0000_0000, 0x4000_0000_0000);
            lemma_mul_abs_bound(self.y as int, o.y as int, 0x4000_0000_0000, 0x4000_0000_0000);
            lemma_mul_abs_bound(self.z as int, o.z as int, 0x4000_0000_0000, 0x4000_0000_0000);
        }
        let x = mul_wide(self.x, o.x);
        let y = mul_wide(self.y, o.y);
        let z = mul_wide(self.z, o.z);
        x + y + z
    }

    /// Squared distance between two points, exact.
    pub fn dist2(self, o: Vec3) -> (r: i64)
        requires
            in_bounds(self, 0x2000_0000),
            in_bounds(o, 0x2000_0000),
        ensures
            r == dot3(
                Vec3 { x: (self.x - o.x) as i64, y: (self.y - o.y) as i64, z: (self.z - o.z) as i64 },
                Vec3 { x: (self.x - o.x) as i64, y: (self.y - o.y) as i64, z: (self.z - o.z) as i64 },
            ),
            r >= 0,
    {
        let d = self.vsub(o);
        let r = d.dot_raw(d);
        proof {
            lemma_mul_abs_bound(d.x as int, d.x as int, 0x4000_0000, 0x4000_0000);
            assert(d.x * d.x >= 0 && d.y * d.y >= 0 && d.z * d.z >= 0) by (nonlinear_arith);
        }
        r
    }

    /// What `normalized` returns: each component becomes `c * FP_ONE / |self|`,
    /// with `|self|` the integer square root of the exact squared length.
    pub open spec fn normalized_spec(self) -> Vec3 {
        let len = isqrt(dot3(self, self));
        Vec3 {
            x: tdiv(self.x * FP_ONE, len) as i64,
            y: tdiv(self.y * FP_ONE, len) as i64,
            z: tdiv(self.z * FP_ONE, len) as i64,
        }
    }

    /// Rescale to fixed-point unit length. The result's components are at most
    /// `FP_ONE` in magnitude.
    pub fn normalized(self) -> (r: Vec3)
        requires
            in_bounds(self, 0x4000_0000_0000),
            dot3(self, self) > 0,
        ensures
            r == self.normalized_spec(),
            ({
                let len = isqrt(dot3(self, self));
                &&& r.x == tdiv(self.x * FP_ONE, len)
                &&& r.y == tdiv(self.y * FP_ONE, len)
                &&& r.z == tdiv(self.z * FP_ONE, len)
            }),
            in_bounds(r, FP_ONE as int),
    {
        let xx = mul_wide(self.x, self.x);
        let yy = mul_wide(self.y, self.y);
        let zz = mul_wide(self.z, self.z);
        proof {
            lemma_mul_abs_bound(self.x as int, self.x as int, 0x4000_0000_0000, 0x4000_0000_0000);
            lemma_mul_abs_bound(self.y as int, self.y as int, 0x4000_0000_0000, 0x4000_0000_0000);
            lemma_mul_abs_bound(self.z as int, self.z as int, 0x4000_0000_0000, 0x4000_0000_0000);
            assert(xx >= 0 && yy >= 0 && zz >= 0) by (nonlinear_arith)
                requires
                    xx == self.x * self.x,
                    yy == self.y * self.y,
                    zz == self.z * self.z,
            ;
        }
        let n2: i128 = xx + yy + zz;
        let len: u64 = isqrt_u128(n2 as u128);
        proof {
            let n2i = dot3(self, self);
            lemma_isqrt_exists(n2i);
            lemma_component_le_isqrt(self.x as int, n2i);
            lemma_component_le_isqrt(self.y as int, n2i);
            lemma_component_le_isqrt(self.z as int, n2i);
        }
        let lx = norm_component(self.x, len);
        let ly = norm_component(self.y, len);
        let lz = norm_component(self.z, len);
        Vec3 { x: lx, y: ly, z: lz }
    }
}

/// Componentwise bound of a fixed-point scaling from its operands' bounds
/// (coarse: rescaling by `FP_ONE` is dropped).
pub proof fn lemma_scale_fp_bound(v: Vec3, k: int, bv: int, bk: int)
    requires
        in_bounds(v, bv),
        -bk <= k <= bk,
        0 <= bv,
        0 <= bk,
    ensures
        -(bv * bk) <= tdiv(v.x * k, FP_ONE as int) <= bv * bk,
        -(bv * bk) <= tdiv(v.y * k, FP_ONE as int) <= bv * bk,
        -(bv * bk) <= tdiv(v.z * k, FP_ONE as int) <= bv * bk,
{
    lemma_mul_abs_bound(v.x as int, k, bv, bk);
    lemma_mul_abs_bound(v.y as int, k, bv, bk);
    lemma_mul_abs_bound(v.z as int, k, bv, bk);
    lemma_tdiv_bound(v.x * k, FP_ONE as int);
    lemma_tdiv_bound(v.y * k, FP_ONE as int);
    lemma_tdiv_bound(v.z * k, FP_ONE as int);
}

/// Componentwise bound of a cross product from its operands' bounds.
pub proof fn lemma_cross_bound(a: Vec3, b: Vec3, ba: int, bb: int)
    requires
        in_bounds(a, ba),
        in_bounds(b, bb),
        0 <= ba,
        0 <= bb,
    ensures
        -2 * ba * bb <= cross_x(a, b) <= 2 * ba * bb,
        -2 * ba * bb <= cross_y(a, b) <= 2 * ba * bb,
        -2 * ba * bb <= cross_z(a, b) <= 2 * ba * bb,
{
    lemma_mul_abs_bound(a.y as int, b.z as int, ba, bb);
    lemma_mul_abs_bound(a.z as int, b.y as int, ba, bb);
    lemma_mul_abs_bound(a.z as int, b.x as int, ba, bb);
    lemma_mul_abs_bound(a.x as int, b.z as int, ba, bb);
    lemma_mul_abs_bound(a.x as int, b.y as int, ba, bb);
    lemma_mul_abs_bound(a.y as int, b.x as int, ba, bb);
    assert(2 * ba * bb == ba * bb + ba * bb) by (nonlinear_arith);
    assert(-2 * ba * bb == -(2 * ba * bb)) by (nonlinear_arith);
}

/// If `c*c` is at most `n2`, then `|c|` is at most `isqrt(n2)`.
proof fn lemma_component_le_isqrt(c: int, n2: int)
    requires
        n2 >= 0,
        c * c <= n2,
        is_isqrt(n2, isqrt(n2)),
    ensures
        -isqrt(n2) <= c <= isqrt(n2),
{
    let r = isqrt(n2);
    assert(-r <= c <= r) by (nonlinear_arith)
        requires
            0 <= r,
            c * c <= n2,
            n2 < (r + 1) * (r + 1),
    ;
}

/// One component of `normalized`: `c * FP_ONE / len`, bounded by `FP_ONE`
/// because `|c| <= len`.
fn norm_component(c: i64, len: u64) -> (r: i64)
    requires
        len > 0,
        -(len as int) <= c as int <= len as int,
    ensures
        r == tdiv(c * FP_ONE, len as int),
        -(FP_ONE as int) <= r as int <= FP_ONE as int,
{
    proof {
        lemma_mul_abs_bound(c as int, FP_ONE as int, len as int, FP_ONE as int);
        lemma_tdiv_abs_mono(c * FP_ONE, len as int * FP_ONE as int, len as int);
        assert(tdiv(len as int * FP_ONE as int, len as int) == FP_ONE as int) by {
            vstd::arithmetic::div_mod::lemma_div_multiples_vanish(FP_ONE as int, len as int);
            assert(len as int * FP_ONE as int >= 0) by (nonlinear_arith)
                requires
                    len as int >= 0,
            ;
        }
    }
    let num = mul_wide(c, FP_ONE);
    let q = crate::fixed::div128(num, len as i128);
    q as i64
}

} // verus!
