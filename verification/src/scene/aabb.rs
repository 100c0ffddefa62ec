//! Axis-aligned bounding boxes and the slab intersection test.
//!
//! The slab test is carried out on exact fractions (numerator/denominator
//! pairs), so `intersect` is proved equivalent to the mathematical statement
//! "some parameter `t > 0` places the ray inside the box on every axis".
//! An axis-parallel ray contributes no constraint when its origin lies
//! between the slabs and a definite miss otherwise, which is what the
//! infinities of floating-point slab tests encode.

use vstd::prelude::*;
use crate::fixed::frle;
use crate::fixed::frac_le;
use crate::fixed::lemma_frle_refl;
use crate::fixed::lemma_frle_trans;
use crate::fixed::lemma_frle_total;
use crate::vec3::Vec3;
use crate::vec3::in_bounds;
use crate::vec3::COORD_LIMIT;
use crate::rendering::ray::Ray;
use crate::scene::triangle::Triangle;
use crate::scene::triangle::tri_wf;

verus! {

#[derive(Clone, Copy, PartialEq, Eq, Structural, Debug)]
pub struct AABB {
    pub min: Vec3,
    pub max: Vec3,
}

pub open spec fn aabb_wf(b: AABB) -> bool {
    &&& in_bounds(b.min, COORD_LIMIT as int)
    &&& in_bounds(b.max, COORD_LIMIT as int)
}

pub open spec fn point_in_box(b: AABB, p: Vec3) -> bool {
    &&& b.min.x <= p.x <= b.max.x
    &&& b.min.y <= p.y <= b.max.y
    &&& b.min.z <= p.z <= b.max.z
}

pub open spec fn tri_in_box(b: AABB, t: Triangle) -> bool {
    &&& point_in_box(b, t.v0)
    &&& point_in_box(b, t.v1)
    &&& point_in_box(b, t.v2)
}

/// The value `v` is the x coordinate of some vertex of
/// `tris[first..first+count]`: how the tightness of a bound is stated.
pub open spec fn attained_x(tris: Seq<Triangle>, first: int, count: int, v: int) -> bool {
    exists|k: int|
        first <= k < first + count && ((#[trigger] tris[k]).v0.x == v || tris[k].v1.x == v
            || tris[k].v2.x == v)
}

pub open spec fn attained_y(tris: Seq<Triangle>, first: int, count: int, v: int) -> bool {
    exists|k: int|
        first <= k < first + count && ((#[trigger] tris[k]).v0.y == v || tris[k].v1.y == v
            || tris[k].v2.y == v)
}

pub open spec fn attained_z(tris: Seq<Triangle>, first: int, count: int, v: int) -> bool {
    exists|k: int|
        first <= k < first + count && ((#[trigger] tris[k]).v0.z == v || tris[k].v1.z == v
            || tris[k].v2.z == v)
}

/// At parameter `tn/td`, the ray coordinate `o + (tn/td) * d` lies between
/// `minv` and `maxv`; stated multiplied through by `td > 0`.
pub open spec fn axis_in(minv: int, maxv: int, o: int, d: int, tn: int, td: int) -> bool {
    &&& td * minv <= td * o + tn * d
    &&& td * o + tn * d <= td * maxv
}

/// Some positive parameter `tn/td` places the ray inside the box on all axes.
pub open spec fn hit_at(b: AABB, r: Ray, tn: int, td: int) -> bool {
    &&& td > 0
    &&& tn > 0
    &&& axis_in(b.min.x as int, b.max.x as int, r.origin.x as int, r.direction.x as int, tn, td)
    &&& axis_in(b.min.y as int, b.max.y as int, r.origin.y as int, r.direction.y as int, tn, td)
    &&& axis_in(b.min.z as int, b.max.z as int, r.origin.z as int, r.direction.z as int, tn, td)
}

/// The mathematical meaning of the slab test.
pub open spec fn slab_hit(b: AABB, r: Ray) -> bool {
    exists|tn: int, td: int| hit_at(b, r, tn, td)
}

/// A constrained axis (minv, maxv, o, d) with `d != 0`: the entry point of its
/// parameter interval, as a fraction over the positive denominator `|d|`.
pub open spec fn lof_n(a: (int, int, int, int)) -> int {
    if a.3 > 0 {
        a.0 - a.2
    } else {
        a.2 - a.1
    }
}

/// The exit point's numerator.
pub open spec fn hif_n(a: (int, int, int, int)) -> int {
    if a.3 > 0 {
        a.1 - a.2
    } else {
        a.2 - a.0
    }
}

/// The positive denominator `|d|`.
pub open spec fn axden(a: (int, int, int, int)) -> int {
    if a.3 > 0 {
        a.3
    } else {
        -a.3
    }
}

/// For a constrained axis, being inside at `tn/td` is exactly lying between
/// the entry and exit fractions.
proof fn lemma_axis_in_iff(a: (int, int, int, int), tn: int, td: int)
    requires
        a.3 != 0,
        td > 0,
    ensures
        axis_in(a.0, a.1, a.2, a.3, tn, td) <==> (frle(lof_n(a), axden(a), tn, td) && frle(
            tn,
            td,
            hif_n(a),
            axden(a),
        )),
{
    if a.3 > 0 {
        assert((td * a.0 <= td * a.2 + tn * a.3 && td * a.2 + tn * a.3 <= td * a.1) <==> ((a.0
            - a.2) * td <= tn * a.3 && tn * a.3 <= (a.1 - a.2) * td)) by (nonlinear_arith);
    } else {
        assert((td * a.0 <= td * a.2 + tn * a.3 && td * a.2 + tn * a.3 <= td * a.1) <==> ((a.2
            - a.1) * td <= tn * (-a.3) && tn * (-a.3) <= (a.2 - a.0) * td)) by (nonlinear_arith);
    }
}

/// For an unconstrained axis (`d == 0`), being inside at any parameter is the
/// origin lying between the slabs.
proof fn lemma_axis_free(minv: int, maxv: int, o: int, tn: int, td: int)
    requires
        td > 0,
    ensures
        axis_in(minv, maxv, o, 0, tn, td) <==> (minv <= o <= maxv),
{
    assert((td * minv <= td * o + tn * 0 && td * o + tn * 0 <= td * maxv) <==> (minv <= o
        <= maxv)) by (nonlinear_arith)
        requires
            td > 0,
    ;
}

/// The running interval state of the slab test: the tightest entry fraction
/// `lo` and exit fraction `hi` over the constrained axes seen so far
/// (`lo_d == 0` encodes "no constrained axis yet").
spec fn st_inv(lo_n: int, lo_d: int, hi_n: int, hi_d: int, axes: Seq<(int, int, int, int)>) -> bool {
    if axes.len() == 0 {
        lo_d == 0 && hi_d == 0
    } else {
        &&& lo_d > 0
        &&& hi_d > 0
        &&& forall|i: int|
            0 <= i < axes.len() ==> (#[trigger] axes[i]).3 != 0
        &&& forall|i: int|
            0 <= i < axes.len() ==> frle(lof_n(#[trigger] axes[i]), axden(axes[i]), lo_n, lo_d)
        &&& forall|i: int|
            0 <= i < axes.len() ==> frle(hi_n, hi_d, hif_n(#[trigger] axes[i]), axden(axes[i]))
        &&& exists|i: int|
            0 <= i < axes.len() && lo_n == lof_n(#[trigger] axes[i]) && lo_d == axden(axes[i])
        &&& exists|i: int|
            0 <= i < axes.len() && hi_n == hif_n(#[trigger] axes[i]) && hi_d == axden(axes[i])
    }
}

/// Fold one constrained axis into the running interval.
fn merge_axis(
    lo_n: i64,
    lo_d: i64,
    hi_n: i64,
    hi_d: i64,
    minv: i64,
    maxv: i64,
    o: i64,
    d: i64,
    Ghost(axes): Ghost<Seq<(int, int, int, int)>>,
) -> (r: (i64, i64, i64, i64))
    requires
        d != 0,
        -0x4000_0000 <= minv <= 0x4000_0000,
        -0x4000_0000 <= maxv <= 0x4000_0000,
        -0x4000_0000 <= o <= 0x4000_0000,
        -0x4000_0000 <= d <= 0x4000_0000,
        st_inv(lo_n as int, lo_d as int, hi_n as int, hi_d as int, axes),
    ensures
        st_inv(
            r.0 as int,
            r.1 as int,
            r.2 as int,
            r.3 as int,
            axes.push((minv as int, maxv as int, o as int, d as int)),
        ),
{
    let ghost ax = (minv as int, maxv as int, o as int, d as int);
    let ghost axes2 = axes.push(ax);
    let ln: i64 = if d > 0 {
        minv - o
    } else {
        o - maxv
    };
    let hn: i64 = if d > 0 {
        maxv - o
    } else {
        o - minv
    };
    let den: i64 = if d > 0 {
        d
    } else {
        -d
    };
    proof {
        assert(ln as int == lof_n(ax));
        assert(hn as int == hif_n(ax));
        assert(den as int == axden(ax));
        lemma_frle_refl(ln as int, den as int);
        lemma_frle_refl(hn as int, den as int);
    }
    if lo_d == 0 {
        proof {
            assert(axes.len() == 0);
            assert(axes2[0] == ax);
        }
        (ln, den, hn, den)
    } else {
        let (nlo_n, nlo_d) = if frac_le(lo_n, lo_d, ln, den) {
            proof {
                assert forall|i: int| 0 <= i < axes2.len() implies frle(
                    lof_n(#[trigger] axes2[i]),
                    axden(axes2[i]),
                    ln as int,
                    den as int,
                ) by {
                    if i < axes.len() {
                        lemma_frle_trans(
                            lof_n(axes2[i]),
                            axden(axes2[i]),
                            lo_n as int,
                            lo_d as int,
                            ln as int,
                            den as int,
                        );
                    }
                }
            }
            (ln, den)
        } else {
            proof {
                lemma_frle_total(lo_n as int, lo_d as int, ln as int, den as int);
            }
            (lo_n, lo_d)
        };
        let (nhi_n, nhi_d) = if frac_le(hn, den, hi_n, hi_d) {
            proof {
                assert forall|i: int| 0 <= i < axes2.len() implies frle(
                    hn as int,
                    den as int,
                    hif_n(#[trigger] axes2[i]),
                    axden(axes2[i]),
                ) by {
                    if i < axes.len() {
                        lemma_frle_trans(
                            hn as int,
                            den as int,
                            hi_n as int,
                            hi_d as int,
                            hif_n(axes2[i]),
                            axden(axes2[i]),
                        );
                    }
                }
            }
            (hn, den)
        } else {
            proof {
                lemma_frle_total(hn as int, den as int, hi_n as int, hi_d as int);
            }
            (hi_n, hi_d)
        };
        proof {
            let i0 = choose|i: int|
                0 <= i < axes.len() && lo_n as int == lof_n(#[trigger] axes[i]) && lo_d as int
                    == axden(axes[i]);
            let j0 = choose|j: int|
                0 <= j < axes.len() && hi_n as int == hif_n(#[trigger] axes[j]) && hi_d as int
                    == axden(axes[j]);
            assert(axes2[axes.len() as int] == ax);
            assert(axes2[i0] == axes[i0]);
            assert(axes2[j0] == axes[j0]);
        }
        (nlo_n, nlo_d, nhi_n, nhi_d)
    }
}

impl AABB {
    /// The zero box at the origin; populate it with `include` before use.
    pub fn new() -> (r: AABB)
        ensures
            r.min == (Vec3 { x: 0i64, y: 0i64, z: 0i64 }),
            r.max == (Vec3 { x: 0i64, y: 0i64, z: 0i64 }),
    {
        AABB { min: Vec3::zero(), max: Vec3::zero() }
    }

    pub fn from_bounds(min: Vec3, max: Vec3) -> (r: AABB)
        ensures
            r.min == min,
            r.max == max,
    {
        AABB { min, max }
    }

    /// Grow the box to cover the point `p`.
    pub fn grow(&mut self, p: Vec3)
        ensures
            final (self).min.x == if p.x < old(self).min.x {
                p.x
            } else {
                old(self).min.x
            },
            final (self).min.y == if p.y < old(self).min.y {
                p.y
            } else {
                old(self).min.y
            },
            final (self).min.z == if p.z < old(self).min.z {
                p.z
            } else {
                old(self).min.z
            },
            final (self).max.x == if p.x > old(self).max.x {
                p.x
            } else {
                old(self).max.x
            },
            final (self).max.y == if p.y > old(self).max.y {
                p.y
            } else {
                old(self).max.y
            },
            final (self).max.z == if p.z > old(self).max.z {
                p.z
            } else {
                old(self).max.z
            },
    {
        if p.x < self.min.x {
            self.min.x = p.x;
        }
        if p.y < self.min.y {
            self.min.y = p.y;
        }
        if p.z < self.min.z {
            self.min.z = p.z;
        }
        if p.x > self.max.x {
            self.max.x = p.x;
        }
        if p.y > self.max.y {
            self.max.y = p.y;
        }
        if p.z > self.max.z {
            self.max.z = p.z;
        }
    }

    /// The tight bound of all vertices of `tris[first..first+count]`; for an
    /// empty range, an inverted box that no ray hits.
    pub fn from_tris_range(tris: &Vec<Triangle>, first: usize, count: usize) -> (r: AABB)
        requires
            first + count <= tris.len(),
            forall|i: int| 0 <= i < tris.len() ==> tri_wf(#[trigger] tris[i]),
        ensures
            aabb_wf(r),
            forall|i: int| first <= i < first + count ==> tri_in_box(r, #[trigger] tris[i]),
            count == 0 ==> r.min.x > r.max.x,
            // Tightness: every bound is attained by a vertex of the range.
            count > 0 ==> {
                &&& attained_x(tris@, first as int, count as int, r.min.x as int)
                &&& attained_x(tris@, first as int, count as int, r.max.x as int)
                &&& attained_y(tris@, first as int, count as int, r.min.y as int)
                &&& attained_y(tris@, first as int, count as int, r.max.y as int)
                &&& attained_z(tris@, first as int, count as int, r.min.z as int)
                &&& attained_z(tris@, first as int, count as int, r.max.z as int)
            },
    {
        if count == 0 {
            return AABB {
                min: Vec3 { x: COORD_LIMIT, y: COORD_LIMIT, z: COORD_LIMIT },
                max: Vec3 { x: -COORD_LIMIT, y: -COORD_LIMIT, z: -COORD_LIMIT },
            };
        }
        let seed = tris[first].v0;
        let mut b = AABB { min: seed, max: seed };
        let mut i: usize = first;
        while i < first + count
            invariant
                first + count <= tris.len(),
                first <= i <= first + count,
                count > 0,
                forall|j: int| 0 <= j < tris.len() ==> tri_wf(#[trigger] tris[j]),
                aabb_wf(b),
                forall|j: int| first <= j < i ==> tri_in_box(b, #[trigger] tris[j]),
                attained_x(tris@, first as int, count as int, b.min.x as int),
                attained_x(tris@, first as int, count as int, b.max.x as int),
                attained_y(tris@, first as int, count as int, b.min.y as int),
                attained_y(tris@, first as int, count as int, b.max.y as int),
                attained_z(tris@, first as int, count as int, b.min.z as int),
                attained_z(tris@, first as int, count as int, b.max.z as int),
            decreases first + count - i,
        {
            let t = tris[i];
            let ghost prev = b;
            b.grow(t.v0);
            b.grow(t.v1);
            b.grow(t.v2);
            proof {
                assert forall|j: int| first <= j < i + 1 implies tri_in_box(
                    b,
                    #[trigger] tris[j],
                ) by {
                    if j < i {
                        assert(tri_in_box(prev, tris[j]));
                    }
                }
                // Each new bound is either the previous (already attained) or
                // one of this triangle's coordinates.
                assert(attained_x(tris@, first as int, count as int, b.min.x as int)) by {
                    if b.min.x != prev.min.x {
                        assert(tris@[i as int].v0.x == b.min.x || tris@[i as int].v1.x == b.min.x
                            || tris@[i as int].v2.x == b.min.x);
                    }
                }
                assert(attained_x(tris@, first as int, count as int, b.max.x as int)) by {
                    if b.max.x != prev.max.x {
                        assert(tris@[i as int].v0.x == b.max.x || tris@[i as int].v1.x == b.max.x
                            || tris@[i as int].v2.x == b.max.x);
                    }
                }
                assert(attained_y(tris@, first as int, count as int, b.min.y as int)) by {
                    if b.min.y != prev.min.y {
                        assert(tris@[i as int].v0.y == b.min.y || tris@[i as int].v1.y == b.min.y
                            || tris@[i as int].v2.y == b.min.y);
                    }
                }
                assert(attained_y(tris@, first as int, count as int, b.max.y as int)) by {
                    if b.max.y != prev.max.y {
                        assert(tris@[i as int].v0.y == b.max.y || tris@[i as int].v1.y == b.max.y
                            || tris@[i as int].v2.y == b.max.y);
                    }
                }
                assert(attained_z(tris@, first as int, count as int, b.min.z as int)) by {
                    if b.min.z != prev.min.z {
                        assert(tris@[i as int].v0.z == b.min.z || tris@[i as int].v1.z == b.min.z
                            || tris@[i as int].v2.z == b.min.z);
                    }
                }
                assert(attained_z(tris@, first as int, count as int, b.max.z as int)) by {
                    if b.max.z != prev.max.z {
                        assert(tris@[i as int].v0.z == b.max.z || tris@[i as int].v1.z == b.max.z
                            || tris@[i as int].v2.z == b.max.z);
                    }
                }
            }
            i = i + 1;
        }
        b
    }

    /// The tight bound of all vertices of a triangle list: every vertex is
    /// inside, and each face of the box touches a vertex.
    pub fn from_tris(tris: &Vec<Triangle>) -> (r: AABB)
        requires
            forall|i: int| 0 <= i < tris.len() ==> tri_wf(#[trigger] tris[i]),
        ensures
            aabb_wf(r),
            forall|i: int| 0 <= i < tris.len() ==> tri_in_box(r, #[trigger] tris[i]),
            tris.len() > 0 ==> {
                &&& attained_x(tris@, 0, tris.len() as int, r.min.x as int)
                &&& attained_x(tris@, 0, tris.len() as int, r.max.x as int)
                &&& attained_y(tris@, 0, tris.len() as int, r.min.y as int)
                &&& attained_y(tris@, 0, tris.len() as int, r.max.y as int)
                &&& attained_z(tris@, 0, tris.len() as int, r.min.z as int)
                &&& attained_z(tris@, 0, tris.len() as int, r.max.z as int)
            },
    {
        AABB::from_tris_range(tris, 0, tris.len())
    }

    /// The slab intersection predicate: whether some positive ray parameter
    /// lies inside the box on every axis.
    pub fn intersect(&self, ray: &Ray) -> (res: bool)
        requires
            in_bounds(self.min, 0x4000_0000),
            in_bounds(self.max, 0x4000_0000),
            in_bounds(ray.origin, 0x4000_0000),
            in_bounds(ray.direction, 0x4000_0000),
        ensures
            res == slab_hit(*self, *ray),
    {
        let b = *self;
        let r = *ray;
        let ghost mut axes: Seq<(int, int, int, int)> = Seq::empty();
        let mut lo_n: i64 = 0;
        let mut lo_d: i64 = 0;
        let mut hi_n: i64 = 0;
        let mut hi_d: i64 = 0;

        if r.direction.x == 0 {
            if r.origin.x < b.min.x || r.origin.x > b.max.x {
                proof {
                    assert forall|tn: int, td: int| !hit_at(b, r, tn, td) by {
                        if td > 0 {
                            lemma_axis_free(
                                b.min.x as int,
                                b.max.x as int,
                                r.origin.x as int,
                                tn,
                                td,
                            );
                        }
                    }
                }
                return false;
            }
        } else {
            let m = merge_axis(
                lo_n,
                lo_d,
                hi_n,
                hi_d,
                b.min.x,
                b.max.x,
                r.origin.x,
                r.direction.x,
                Ghost(axes),
            );
            lo_n = m.0;
            lo_d = m.1;
            hi_n = m.2;
            hi_d = m.3;
            proof {
                axes = axes.push(
                    (b.min.x as int, b.max.x as int, r.origin.x as int, r.direction.x as int),
                );
            }
        }

        if r.direction.y == 0 {
            if r.origin.y < b.min.y || r.origin.y > b.max.y {
                proof {
                    assert forall|tn: int, td: int| !hit_at(b, r, tn, td) by {
                        if td > 0 {
                            lemma_axis_free(
                                b.min.y as int,
                                b.max.y as int,
                                r.origin.y as int,
                                tn,
                                td,
                            );
                        }
                    }
                }
                return false;
            }
        } else {
            let m = merge_axis(
                lo_n,
                lo_d,
                hi_n,
                hi_d,
                b.min.y,
                b.max.y,
                r.origin.y,
                r.direction.y,
                Ghost(axes),
            );
            lo_n = m.0;
            lo_d = m.1;
            hi_n = m.2;
            hi_d = m.3;
            proof {
                axes = axes.push(
                    (b.min.y as int, b.max.y as int, r.origin.y as int, r.direction.y as int),
                );
            }
        }

        if r.direction.z == 0 {
            if r.origin.z < b.min.z || r.origin.z > b.max.z {
                proof {
                    assert forall|tn: int, td: int| !hit_at(b, r, tn, td) by {
                        if td > 0 {
                            lemma_axis_free(
                                b.min.z as int,
                                b.max.z as int,
                                r.origin.z as int,
                                tn,
                                td,
                            );
                        }
                    }
                }
                return false;
            }
        } else {
            let m = merge_axis(
                lo_n,
                lo_d,
                hi_n,
                hi_d,
                b.min.z,
                b.max.z,
                r.origin.z,
                r.direction.z,
                Ghost(axes),
            );
            lo_n = m.0;
            lo_d = m.1;
            hi_n = m.2;
            hi_d = m.3;
            proof {
                axes = axes.push(
                    (b.min.z as int, b.max.z as int, r.origin.z as int, r.direction.z as int),
                );
            }
        }

        if lo_d == 0 {
            // No constrained axis, and the origin sat between the slabs on
            // every axis: any positive parameter witnesses the hit.
            proof {
                lemma_axis_free(b.min.x as int, b.max.x as int, r.origin.x as int, 1, 1);
                lemma_axis_free(b.min.y as int, b.max.y as int, r.origin.y as int, 1, 1);
                lemma_axis_free(b.min.z as int, b.max.z as int, r.origin.z as int, 1, 1);
                assert(hit_at(b, r, 1, 1));
            }
            return true;
        }

        let ok = frac_le(lo_n, lo_d, hi_n, hi_d) && hi_n > 0;
        proof {
            broadcast use vstd::seq_lib::lemma_seq_contains_after_push;

            lemma_slab_final(b, r, lo_n as int, lo_d as int, hi_n as int, hi_d as int, axes, ok);
        }
        ok
    }
}

/// The final decision of the slab test agrees with the existential spec.
proof fn lemma_slab_final(
    b: AABB,
    r: Ray,
    lo_n: int,
    lo_d: int,
    hi_n: int,
    hi_d: int,
    axes: Seq<(int, int, int, int)>,
    ok: bool,
)
    requires
        axes.len() > 0,
        st_inv(lo_n, lo_d, hi_n, hi_d, axes),
        ok == (frle(lo_n, lo_d, hi_n, hi_d) && hi_n > 0),
        // Every constrained axis of (b, r) is recorded, and every recorded
        // axis is a constrained axis of (b, r):
        r.direction.x != 0 ==> axes.contains(
            (b.min.x as int, b.max.x as int, r.origin.x as int, r.direction.x as int),
        ),
        r.direction.y != 0 ==> axes.contains(
            (b.min.y as int, b.max.y as int, r.origin.y as int, r.direction.y as int),
        ),
        r.direction.z != 0 ==> axes.contains(
            (b.min.z as int, b.max.z as int, r.origin.z as int, r.direction.z as int),
        ),
        forall|i: int|
            0 <= i < axes.len() ==> ((#[trigger] axes[i]) == (
                b.min.x as int,
                b.max.x as int,
                r.origin.x as int,
                r.direction.x as int,
            ) || axes[i] == (b.min.y as int, b.max.y as int, r.origin.y as int, r.direction.y as int)
                || axes[i] == (
                b.min.z as int,
                b.max.z as int,
                r.origin.z as int,
                r.direction.z as int,
            )),
        r.direction.x == 0 ==> b.min.x <= r.origin.x <= b.max.x,
        r.direction.y == 0 ==> b.min.y <= r.origin.y <= b.max.y,
        r.direction.z == 0 ==> b.min.z <= r.origin.z <= b.max.z,
    ensures
        ok == slab_hit(b, r),
{
    let ax = (b.min.x as int, b.max.x as int, r.origin.x as int, r.direction.x as int);
    let ay = (b.min.y as int, b.max.y as int, r.origin.y as int, r.direction.y as int);
    let az = (b.min.z as int, b.max.z as int, r.origin.z as int, r.direction.z as int);
    if ok {
        // Witness: the exit fraction hi.
        let tn = hi_n;
        let td = hi_d;
        assert forall|i: int| 0 <= i < axes.len() implies frle(
            lof_n(#[trigger] axes[i]),
            axden(axes[i]),
            tn,
            td,
        ) && frle(tn, td, hif_n(axes[i]), axden(axes[i])) by {
            lemma_frle_trans(lof_n(axes[i]), axden(axes[i]), lo_n, lo_d, tn, td);
        }
        assert(tn > 0);
        if r.direction.x != 0 {
            let i = choose|i: int| 0 <= i < axes.len() && axes[i] == ax;
            lemma_axis_in_iff(ax, tn, td);
        } else {
            lemma_axis_free(ax.0, ax.1, ax.2, tn, td);
        }
        if r.direction.y != 0 {
            let i = choose|i: int| 0 <= i < axes.len() && axes[i] == ay;
            lemma_axis_in_iff(ay, tn, td);
        } else {
            lemma_axis_free(ay.0, ay.1, ay.2, tn, td);
        }
        if r.direction.z != 0 {
            let i = choose|i: int| 0 <= i < axes.len() && axes[i] == az;
            lemma_axis_in_iff(az, tn, td);
        } else {
            lemma_axis_free(az.0, az.1, az.2, tn, td);
        }
        assert(hit_at(b, r, tn, td));
    } else {
        assert forall|tn: int, td: int| !hit_at(b, r, tn, td) by {
            if td > 0 && tn > 0 {
                if axis_in(ax.0, ax.1, ax.2, ax.3, tn, td) && axis_in(
                    ay.0,
                    ay.1,
                    ay.2,
                    ay.3,
                    tn,
                    td,
                ) && axis_in(az.0, az.1, az.2, az.3, tn, td) {
                    // Every recorded axis constrains (tn, td).
                    assert forall|i: int| 0 <= i < axes.len() implies frle(
                        lof_n(#[trigger] axes[i]),
                        axden(axes[i]),
                        tn,
                        td,
                    ) && frle(tn, td, hif_n(axes[i]), axden(axes[i])) by {
                        lemma_axis_in_iff(axes[i], tn, td);
                    }
                    let i0 = choose|i: int|
                        0 <= i < axes.len() && lo_n == lof_n(#[trigger] axes[i]) && lo_d == axden(
                            axes[i],
                        );
                    let j0 = choose|j: int|
                        0 <= j < axes.len() && hi_n == hif_n(#[trigger] axes[j]) && hi_d == axden(
                            axes[j],
                        );
                    lemma_frle_trans(lo_n, lo_d, tn, td, hi_n, hi_d);
                    // So lo <= hi held; the failure must be hi_n <= 0, which
                    // contradicts tn/td being positive and below hi.
                    assert(frle(tn, td, hi_n, hi_d));
                    assert(tn * hi_d > 0) by (nonlinear_arith)
                        requires
                            tn > 0,
                            hi_d > 0,
                    ;
                    assert(hi_n <= 0);
                    assert(hi_n * td <= 0) by (nonlinear_arith)
                        requires
                            hi_n <= 0,
                            td > 0,
                    ;
                    assert(false);
                }
            }
        }
    }
}

} // verus!
