//! A binary bounding-volume hierarchy over triangles.
//!
//! The node array is an arena indexed from zero; children always carry larger
//! indices than their parent, and each leaf references a contiguous range of
//! the (reordered) triangle array. Traversal is proved to return exactly the
//! nearest hit over all triangles — the same answer `intersect_linear` gives
//! by scanning every triangle.

use vstd::prelude::*;
use crate::fixed::FP_ONE;
use crate::fixed::tdiv;
use crate::fixed::frlt;
use crate::fixed::frac_lt;
use crate::fixed::lemma_frle_trans;
use crate::fixed::lemma_frlt_frle_trans;
use crate::fixed::lemma_frlt_total;
use crate::fixed::lemma_mul_le_pos;
use crate::vec3::in_bounds;
use crate::vec3::COORD_LIMIT;
use crate::rendering::ray::Ray;
use crate::rendering::ray::ray_wf;
use crate::scene::aabb::AABB;
use crate::scene::aabb::aabb_wf;
use crate::scene::aabb::tri_in_box;
use crate::scene::aabb::slab_hit;
use crate::scene::aabb::hit_at;
use crate::scene::triangle::Triangle;
use crate::scene::triangle::TriangleHitData;
use crate::scene::triangle::tri_wf;
use crate::scene::triangle::tri_hits;
use crate::scene::triangle::tri_hit_spec;
use crate::scene::triangle::mt_tn;
use crate::scene::triangle::mt_det;
use crate::scene::triangle::tri_lo_x;
use crate::scene::triangle::tri_lo_y;
use crate::scene::triangle::tri_lo_z;
use crate::scene::triangle::tri_hi_x;
use crate::scene::triangle::tri_hi_y;
use crate::scene::triangle::tri_hi_z;
use crate::scene::models::HitData;

verus! {

#[derive(Clone, Copy, PartialEq, Eq, Structural, Debug)]
pub struct BVHNode {
    pub aabb: AABB,
    pub left: usize,
    pub right: usize,
    pub leaf: bool,
    pub first: usize,
    pub tris: usize,
}

pub struct BVH {
    pub nodes: Vec<BVHNode>,
    pub tris: Vec<Triangle>,
}

/// Structural well-formedness of one node: its range lies within the triangle
/// array, its box covers every triangle of the range, and an interior node's
/// children carry larger indices and split its range exactly in two by the
/// mid-split rule — every left-child centroid below the box midpoint of the
/// longest axis, every right-child centroid at or above it.
pub open spec fn node_wf(nodes: Seq<BVHNode>, tris: Seq<Triangle>, i: int) -> bool {
    let n = nodes[i];
    &&& n.first + n.tris <= tris.len()
    &&& aabb_wf(n.aabb)
    &&& (forall|j: int|
        n.first <= j < n.first + n.tris ==> tri_in_box(n.aabb, #[trigger] tris[j]))
    &&& (!n.leaf ==> {
        &&& i < n.left < nodes.len()
        &&& i < n.right < nodes.len()
        &&& nodes[n.left as int].first == n.first
        &&& nodes[n.left as int].tris + nodes[n.right as int].tris == n.tris
        &&& nodes[n.right as int].first == n.first + nodes[n.left as int].tris
        &&& (forall|j: int|
            n.first <= j < n.first + nodes[n.left as int].tris ==> cax(
                #[trigger] tris[j],
                split_axis(n.aabb),
            ) < split_mid3(n.aabb))
        &&& (forall|j: int|
            n.first + nodes[n.left as int].tris <= j < n.first + n.tris ==> cax(
                #[trigger] tris[j],
                split_axis(n.aabb),
            ) >= split_mid3(n.aabb))
    })
}

/// All nodes are well-formed and all triangles lie within the world bounds.
pub open spec fn forest_wf(nodes: Seq<BVHNode>, tris: Seq<Triangle>) -> bool {
    &&& forall|i: int| 0 <= i < nodes.len() ==> node_wf(nodes, tris, i)
    &&& forall|i: int| 0 <= i < tris.len() ==> tri_wf(#[trigger] tris[i])
}

/// A queryable BVH: a well-formed forest whose root covers every triangle.
pub open spec fn bvh_wf(b: BVH) -> bool {
    &&& b.nodes.len() >= 1
    &&& b.nodes[0].first == 0
    &&& b.nodes[0].tris == b.tris.len()
    &&& forest_wf(b.nodes@, b.tris@)
}

/// Strictly nearer: triangle `j`'s hit parameter is strictly below `i`'s.
pub open spec fn nearer(tris: Seq<Triangle>, r: Ray, j: int, i: int) -> bool {
    frlt(mt_tn(tris[j], r), mt_det(tris[j], r), mt_tn(tris[i], r), mt_det(tris[i], r))
}

/// Merge two candidate nearest-hit indices: the right one wins only when it
/// is strictly nearer, so earlier indices win ties.
pub open spec fn combine_best(tris: Seq<Triangle>, r: Ray, a: Option<int>, b: Option<int>) -> Option<
    int,
> {
    match (a, b) {
        (Option::None, x) => x,
        (x, Option::None) => x,
        (Option::Some(i), Option::Some(j)) => if nearer(tris, r, j, i) {
            Option::Some(j)
        } else {
            Option::Some(i)
        },
    }
}

/// The first index in `[lo, hi)` whose triangle the ray hits at the smallest
/// parameter — the specification of a nearest-hit query.
pub open spec fn best_idx(tris: Seq<Triangle>, r: Ray, lo: int, hi: int) -> Option<int>
    decreases hi - lo,
{
    if lo >= hi {
        Option::None
    } else {
        let head: Option<int> = if tri_hits(tris[lo], r) {
            Option::Some(lo)
        } else {
            Option::None
        };
        combine_best(tris, r, head, best_idx(tris, r, lo + 1, hi))
    }
}

/// What a nearest-hit result must look like for the range `[lo, hi)`.
pub open spec fn hit_matches(
    tris: Seq<Triangle>,
    r: Ray,
    lo: int,
    hi: int,
    res: Option<TriangleHitData>,
) -> bool {
    match best_idx(tris, r, lo, hi) {
        Option::None => res is None,
        Option::Some(i) => match res {
            Option::None => false,
            Option::Some(h) => {
                &&& h == tri_hit_spec(tris[i], r)
                &&& h.t_num as int == mt_tn(tris[i], r)
                &&& h.t_den as int == mt_det(tris[i], r)
                &&& h.t_num > 0
                &&& h.t_den > 0
                &&& in_bounds(h.p, COORD_LIMIT as int)
                &&& in_bounds(h.normal, FP_ONE as int)
            },
        },
    }
}

/// What a nearest-hit query over the whole triangle array must return: a miss
/// exactly when no triangle is hit, else the hit data of the first triangle
/// achieving the smallest hit parameter. This is the statement both `BVH::intersect`
/// and `BVH::intersect_linear` are proved to satisfy, so the two agree on
/// every ray. (`node_hits` is a debug counter and not constrained.)
pub open spec fn bvh_query_matches(tris: Seq<Triangle>, r: Ray, res: Option<HitData>) -> bool {
    match best_idx(tris, r, 0, tris.len() as int) {
        Option::None => res is None,
        Option::Some(i) => match res {
            Option::None => false,
            Option::Some(h) => {
                let s = tri_hit_spec(tris[i], r);
                &&& h.position == s.p
                &&& h.normal == s.normal
                &&& h.bary == s.bary
                &&& in_bounds(h.position, COORD_LIMIT as int)
                &&& in_bounds(h.normal, FP_ONE as int)
            },
        },
    }
}

/// A best index lies in its range and is a hit.
proof fn lemma_best_in_range(tris: Seq<Triangle>, r: Ray, lo: int, hi: int)
    requires
        best_idx(tris, r, lo, hi) is Some,
    ensures
        ({
            let i = best_idx(tris, r, lo, hi)->Some_0;
            &&& lo <= i < hi
            &&& tri_hits(tris[i], r)
        }),
    decreases hi - lo,
{
    if lo < hi {
        if best_idx(tris, r, lo + 1, hi) is Some {
            lemma_best_in_range(tris, r, lo + 1, hi);
        }
    }
}

/// If nothing in the range is hit, there is no best index.
proof fn lemma_best_none(tris: Seq<Triangle>, r: Ray, lo: int, hi: int)
    requires
        forall|i: int| lo <= i < hi ==> !tri_hits(#[trigger] tris[i], r),
    ensures
        best_idx(tris, r, lo, hi) is None,
    decreases hi - lo,
{
    if lo < hi {
        lemma_best_none(tris, r, lo + 1, hi);
    }
}

/// Merging is associative over hit candidates.
proof fn lemma_combine_assoc(tris: Seq<Triangle>, r: Ray, a: Option<int>, b: Option<int>, c: Option<
    int,
>)
    requires
        a is Some ==> tri_hits(tris[a->Some_0], r),
        b is Some ==> tri_hits(tris[b->Some_0], r),
        c is Some ==> tri_hits(tris[c->Some_0], r),
    ensures
        combine_best(tris, r, a, combine_best(tris, r, b, c)) == combine_best(
            tris,
            r,
            combine_best(tris, r, a, b),
            c,
        ),
{
    if a is Some && b is Some && c is Some {
        let i = a->Some_0;
        let j = b->Some_0;
        let k = c->Some_0;
        let ti = mt_tn(tris[i], r);
        let di = mt_det(tris[i], r);
        let tj = mt_tn(tris[j], r);
        let dj = mt_det(tris[j], r);
        let tk = mt_tn(tris[k], r);
        let dk = mt_det(tris[k], r);
        if frlt(tk, dk, tj, dj) && frlt(tj, dj, ti, di) {
            lemma_frlt_frle_trans(tk, dk, tj, dj, ti, di);
        }
        if !frlt(tk, dk, tj, dj) && frlt(tk, dk, ti, di) && !frlt(tj, dj, ti, di) {
            // tk >= tj and tj >= ti would force tk >= ti.
            lemma_frlt_total(tk, dk, tj, dj);
            lemma_frlt_total(tj, dj, ti, di);
            lemma_frle_trans(ti, di, tj, dj, tk, dk);
            lemma_frlt_total(tk, dk, ti, di);
        }
    }
}

/// The nearest hit over `[lo, hi)` is the merge of the nearest hits of the
/// two halves at any split point `m`.
proof fn lemma_best_split(tris: Seq<Triangle>, r: Ray, lo: int, m: int, hi: int)
    requires
        lo <= m <= hi,
    ensures
        best_idx(tris, r, lo, hi) == combine_best(
            tris,
            r,
            best_idx(tris, r, lo, m),
            best_idx(tris, r, m, hi),
        ),
    decreases m - lo,
{
    if lo >= m {
        // best(lo, lo) == None and merging with None is the identity.
    } else {
        lemma_best_split(tris, r, lo + 1, m, hi);
        let head: Option<int> = if tri_hits(tris[lo], r) {
            Option::Some(lo)
        } else {
            Option::None
        };
        let b1 = best_idx(tris, r, lo + 1, m);
        let b2 = best_idx(tris, r, m, hi);
        if b1 is Some {
            lemma_best_in_range(tris, r, lo + 1, m);
        }
        if b2 is Some {
            lemma_best_in_range(tris, r, m, hi);
        }
        lemma_combine_assoc(tris, r, head, b1, b2);
    }
}

/// Swapping two entries leaves a sequence's multiset unchanged.
proof fn lemma_swap_multiset<A>(s: Seq<A>, p: int, q: int)
    requires
        0 <= p < s.len(),
        0 <= q < s.len(),
    ensures
        s.update(p, s[q]).update(q, s[p]).to_multiset() == s.to_multiset(),
{
    broadcast use vstd::seq_lib::to_multiset_update;
    broadcast use vstd::multiset::group_multiset_axioms;

    let s2 = s.update(p, s[q]);
    let s3 = s2.update(q, s[p]);
    if p == q {
        assert(s3 =~= s);
    } else {
        assert(s2[q] == s[q]);
        assert(s3.to_multiset() =~= s.to_multiset()) by {
            assert(s2.to_multiset() == s.to_multiset().insert(s[q]).remove(s[p]));
            assert(s3.to_multiset() == s2.to_multiset().insert(s[p]).remove(s2[q]));
            assert forall|x: A|
                s3.to_multiset().count(x) == s.to_multiset().count(x) by {
                assert(s.to_multiset().count(s[p]) > 0) by {
                    broadcast use vstd::seq_lib::group_to_multiset_ensures;

                    assert(s.contains(s[p]));
                }
                assert(s.to_multiset().count(s[q]) > 0) by {
                    broadcast use vstd::seq_lib::group_to_multiset_ensures;

                    assert(s.contains(s[q]));
                }
            }
        }
    }
}

/// If two equally long sequences agree outside `[lo, hi)` and hold the same
/// multiset overall, their `[lo, hi)` parts hold the same multiset.
proof fn lemma_eq_outside_submultiset<A>(a: Seq<A>, b: Seq<A>, lo: int, hi: int)
    requires
        a.len() == b.len(),
        0 <= lo <= hi <= a.len(),
        a.to_multiset() == b.to_multiset(),
        forall|j: int| 0 <= j < a.len() && !(lo <= j < hi) ==> a[j] == b[j],
    ensures
        a.subrange(lo, hi).to_multiset() == b.subrange(lo, hi).to_multiset(),
{
    broadcast use vstd::multiset::group_multiset_axioms;

    let n = a.len() as int;
    assert(a =~= a.subrange(0, lo) + a.subrange(lo, hi) + a.subrange(hi, n));
    assert(b =~= b.subrange(0, lo) + b.subrange(lo, hi) + b.subrange(hi, n));
    vstd::seq_lib::lemma_multiset_commutative(a.subrange(0, lo) + a.subrange(lo, hi), a.subrange(hi, n));
    vstd::seq_lib::lemma_multiset_commutative(a.subrange(0, lo), a.subrange(lo, hi));
    vstd::seq_lib::lemma_multiset_commutative(b.subrange(0, lo) + b.subrange(lo, hi), b.subrange(hi, n));
    vstd::seq_lib::lemma_multiset_commutative(b.subrange(0, lo), b.subrange(lo, hi));
    assert(a.subrange(0, lo) =~= b.subrange(0, lo));
    assert(a.subrange(hi, n) =~= b.subrange(hi, n));
    assert(a.subrange(lo, hi).to_multiset() =~= b.subrange(lo, hi).to_multiset()) by {
        assert forall|x: A|
            a.subrange(lo, hi).to_multiset().count(x) == b.subrange(lo, hi).to_multiset().count(
                x,
            ) by {
            assert(a.to_multiset().count(x) == b.to_multiset().count(x));
            assert(a.to_multiset() == (a.subrange(0, lo) + a.subrange(lo, hi)
                + a.subrange(hi, n)).to_multiset());
            assert((a.subrange(0, lo) + a.subrange(lo, hi) + a.subrange(hi, n)).to_multiset()
                == (a.subrange(0, lo) + a.subrange(lo, hi)).to_multiset().add(
                a.subrange(hi, n).to_multiset(),
            ));
            assert(a.to_multiset().count(x) == a.subrange(0, lo).to_multiset().count(x)
                + a.subrange(lo, hi).to_multiset().count(x) + a.subrange(hi, n).to_multiset().count(
                x,
            ));
            assert(b.to_multiset() == (b.subrange(0, lo) + b.subrange(lo, hi)
                + b.subrange(hi, n)).to_multiset());
            assert((b.subrange(0, lo) + b.subrange(lo, hi) + b.subrange(hi, n)).to_multiset()
                == (b.subrange(0, lo) + b.subrange(lo, hi)).to_multiset().add(
                b.subrange(hi, n).to_multiset(),
            ));
            assert(b.to_multiset().count(x) == b.subrange(0, lo).to_multiset().count(x)
                + b.subrange(lo, hi).to_multiset().count(x) + b.subrange(hi, n).to_multiset().count(
                x,
            ));
        }
    }
}

/// Every element of a sequence occurs in its multiset, so a property that
/// holds of every element of `a` holds of every element of a permutation.
proof fn lemma_perm_element_source<A>(a: Seq<A>, b: Seq<A>, j: int) -> (k: int)
    requires
        a.to_multiset() == b.to_multiset(),
        0 <= j < b.len(),
    ensures
        0 <= k < a.len(),
        a[k] == b[j],
{
    broadcast use vstd::seq_lib::group_to_multiset_ensures;

    assert(b.contains(b[j]));
    assert(b.to_multiset().count(b[j]) > 0);
    assert(a.to_multiset().count(b[j]) > 0);
    assert(a.contains(b[j]));
    choose|k: int| 0 <= k < a.len() && a[k] == b[j]
}

/// A node box keeps covering its triangle range when the triangles are
/// permuted within a span the range either fully covers or does not touch.
proof fn lemma_box_preserved(
    a: Seq<Triangle>,
    b: Seq<Triangle>,
    lo: int,
    hi: int,
    bx: AABB,
    mf: int,
    mc: int,
)
    requires
        a.len() == b.len(),
        0 <= lo <= hi <= a.len(),
        a.to_multiset() == b.to_multiset(),
        forall|j: int| 0 <= j < a.len() && !(lo <= j < hi) ==> a[j] == b[j],
        0 <= mf && 0 <= mc && mf + mc <= a.len(),
        (mf <= lo && hi <= mf + mc) || (mf + mc <= lo) || (hi <= mf),
        forall|j: int| mf <= j < mf + mc ==> tri_in_box(bx, #[trigger] a[j]),
    ensures
        forall|j: int| mf <= j < mf + mc ==> tri_in_box(bx, #[trigger] b[j]),
{
    lemma_eq_outside_submultiset(a, b, lo, hi);
    assert forall|j: int| mf <= j < mf + mc implies tri_in_box(bx, #[trigger] b[j]) by {
        if !(lo <= j < hi) {
            assert(b[j] == a[j]);
        } else {
            // The range covers the permuted span; find the source element.
            let asub = a.subrange(lo, hi);
            let bsub = b.subrange(lo, hi);
            let k = lemma_perm_element_source(asub, bsub, j - lo);
            assert(a[lo + k] == b[j]);
            assert(tri_in_box(bx, a[lo + k]));
        }
    }
}

/// Any per-triangle property of a node's range survives a permutation of a
/// span the range either fully covers or does not touch.
proof fn lemma_tri_pred_preserved(
    a: Seq<Triangle>,
    b: Seq<Triangle>,
    lo: int,
    hi: int,
    p: spec_fn(Triangle) -> bool,
    mf: int,
    mc: int,
)
    requires
        a.len() == b.len(),
        0 <= lo <= hi <= a.len(),
        a.to_multiset() == b.to_multiset(),
        forall|j: int| 0 <= j < a.len() && !(lo <= j < hi) ==> a[j] == b[j],
        0 <= mf && 0 <= mc && mf + mc <= a.len(),
        (mf <= lo && hi <= mf + mc) || (mf + mc <= lo) || (hi <= mf),
        forall|j: int| mf <= j < mf + mc ==> p(#[trigger] a[j]),
    ensures
        forall|j: int| mf <= j < mf + mc ==> p(#[trigger] b[j]),
{
    lemma_eq_outside_submultiset(a, b, lo, hi);
    assert forall|j: int| mf <= j < mf + mc implies p(#[trigger] b[j]) by {
        if !(lo <= j < hi) {
            assert(b[j] == a[j]);
        } else {
            let asub = a.subrange(lo, hi);
            let bsub = b.subrange(lo, hi);
            let k = lemma_perm_element_source(asub, bsub, j - lo);
            assert(a[lo + k] == b[j]);
            assert(p(a[lo + k]));
        }
    }
}

/// All triangles stay within the world bounds under a permutation.
proof fn lemma_wf_preserved(a: Seq<Triangle>, b: Seq<Triangle>)
    requires
        a.to_multiset() == b.to_multiset(),
        a.len() == b.len(),
        forall|j: int| 0 <= j < a.len() ==> tri_wf(#[trigger] a[j]),
    ensures
        forall|j: int| 0 <= j < b.len() ==> tri_wf(#[trigger] b[j]),
{
    assert forall|j: int| 0 <= j < b.len() implies tri_wf(#[trigger] b[j]) by {
        let k = lemma_perm_element_source(a, b, j);
    }
}

/// Soundness of the hierarchy: any two results that satisfy
/// `bvh_query_matches` for the same triangles and ray agree — they miss
/// together, or hit with the same point, normal and barycentrics. Since both
/// `BVH::intersect` (the pruned traversal) and `BVH::intersect_linear` (the
/// naive scan over every triangle) ensure `bvh_query_matches`, the traversal
/// returns exactly the nearest hit the scan finds, on every ray and every
/// well-formed hierarchy.
pub proof fn lemma_traversal_agrees_with_scan(
    tris: Seq<Triangle>,
    r: Ray,
    a: Option<HitData>,
    b: Option<HitData>,
)
    requires
        bvh_query_matches(tris, r, a),
        bvh_query_matches(tris, r, b),
    ensures
        a is Some <==> b is Some,
        (a is Some && b is Some) ==> {
            &&& a->Some_0.position == b->Some_0.position
            &&& a->Some_0.normal == b->Some_0.normal
            &&& a->Some_0.bary == b->Some_0.bary
        },
{
}

/// A hit triangle contained in a box forces the slab test of that box to
/// pass: the exact hit parameter is a witness.
pub proof fn lemma_hit_in_box(t: Triangle, r: Ray, b: AABB)
    requires
        tri_hits(t, r),
        tri_in_box(b, t),
    ensures
        slab_hit(b, r),
{
    let det = mt_det(t, r);
    let tn = mt_tn(t, r);
    lemma_mul_le_pos(b.min.x as int, tri_lo_x(t), det);
    lemma_mul_le_pos(tri_hi_x(t), b.max.x as int, det);
    lemma_mul_le_pos(b.min.y as int, tri_lo_y(t), det);
    lemma_mul_le_pos(tri_hi_y(t), b.max.y as int, det);
    lemma_mul_le_pos(b.min.z as int, tri_lo_z(t), det);
    lemma_mul_le_pos(tri_hi_z(t), b.max.z as int, det);
    assert(hit_at(b, r, tn, det));
}

/// The tripled centroid along one axis (0 = x, 1 = y, anything else = z).
pub open spec fn cax(t: Triangle, axis: int) -> int {
    if axis == 0 {
        crate::scene::triangle::centroid3_x(t)
    } else if axis == 1 {
        crate::scene::triangle::centroid3_y(t)
    } else {
        crate::scene::triangle::centroid3_z(t)
    }
}

fn cent3_axis(t: &Triangle, axis: u8) -> (r: i64)
    requires
        tri_wf(*t),
    ensures
        r == cax(*t, axis as int),
{
    if axis == 0 {
        t.v0.x + t.v1.x + t.v2.x
    } else if axis == 1 {
        t.v0.y + t.v1.y + t.v2.y
    } else {
        t.v0.z + t.v1.z + t.v2.z
    }
}

/// The split axis of a box: the longest extent, ties broken x before y
/// before z (0 = x, 1 = y, anything else = z).
pub open spec fn split_axis(b: AABB) -> int {
    let ex = b.max.x - b.min.x;
    let ey = b.max.y - b.min.y;
    let ez = b.max.z - b.min.z;
    if ex >= ey && ex >= ez {
        0
    } else if ey >= ex && ey >= ez {
        1
    } else {
        2
    }
}

/// The tripled midpoint of the box along its split axis (tripled so that it
/// compares against tripled centroids without rounding).
pub open spec fn split_mid3(b: AABB) -> int {
    let a = split_axis(b);
    if a == 0 {
        3 * b.min.x + tdiv(3 * (b.max.x - b.min.x), 2)
    } else if a == 1 {
        3 * b.min.y + tdiv(3 * (b.max.y - b.min.y), 2)
    } else {
        3 * b.min.z + tdiv(3 * (b.max.z - b.min.z), 2)
    }
}

/// A leaf the build is allowed to stop at: two or fewer triangles, or a
/// longest-axis midpoint split that would leave one side empty (every
/// centroid on one side of the midpoint).
pub open spec fn leaf_split_exhausted(nodes: Seq<BVHNode>, tris: Seq<Triangle>, i: int) -> bool {
    let n = nodes[i];
    n.leaf ==> {
        ||| n.tris <= 2
        ||| (forall|j: int|
            n.first <= j < n.first + n.tris ==> cax(#[trigger] tris[j], split_axis(n.aabb))
                < split_mid3(n.aabb))
        ||| (forall|j: int|
            n.first <= j < n.first + n.tris ==> cax(#[trigger] tris[j], split_axis(n.aabb))
                >= split_mid3(n.aabb))
    }
}

/// Every node range either covers `[lo, hi)` or does not touch it. The build
/// maintains this between the node being split and every node already in the
/// arena, so reordering triangles inside `[lo, hi)` upsets no box.
pub open spec fn covers_or_disjoint(nodes: Seq<BVHNode>, lo: int, hi: int) -> bool {
    forall|m: int|
        0 <= m < nodes.len() ==> {
            let nm = #[trigger] nodes[m];
            ||| (nm.first <= lo && hi <= nm.first + nm.tris)
            ||| nm.first + nm.tris <= lo
            ||| hi <= nm.first
        }
}

/// Hoare-style two-pointer partition of `tris[first..first+count]` by tripled
/// centroid against a tripled split position. Returns the first index of the
/// right block.
fn partition(tris: &mut Vec<Triangle>, first: usize, count: usize, axis: u8, split3: i64) -> (mid:
    usize)
    requires
        first + count <= old(tris).len(),
        forall|j: int| 0 <= j < old(tris).len() ==> tri_wf(#[trigger] old(tris)@[j]),
    ensures
        final (tris).len() == old(tris).len(),
        forall|j: int| 0 <= j < old(tris).len() ==> tri_wf(#[trigger] final (tris)@[j]),
        first <= mid <= first + count,
        forall|j: int|
            0 <= j < old(tris).len() && !(first <= j < first + count) ==> final (tris)@[j] == old(
                tris,
            )@[j],
        final (tris)@.to_multiset() == old(tris)@.to_multiset(),
        forall|k: int| first <= k < mid ==> cax(#[trigger] final (tris)@[k], axis as int) < split3,
        forall|k: int|
            mid <= k < first + count ==> cax(#[trigger] final (tris)@[k], axis as int) >= split3,
{
    let mut i: usize = first;
    let mut j1: usize = first + count;
    while i < j1
        invariant
            first <= i <= j1 <= first + count,
            first + count <= tris.len(),
            tris.len() == old(tris).len(),
            forall|j: int| 0 <= j < tris.len() ==> tri_wf(#[trigger] tris@[j]),
            forall|j: int|
                0 <= j < tris.len() && !(first <= j < first + count) ==> tris@[j] == old(
                    tris,
                )@[j],
            tris@.to_multiset() == old(tris)@.to_multiset(),
            forall|k: int| first <= k < i ==> cax(#[trigger] tris@[k], axis as int) < split3,
            forall|k: int|
                j1 <= k < first + count ==> cax(#[trigger] tris@[k], axis as int) >= split3,
        decreases j1 - i,
    {
        let c = cent3_axis(&tris[i], axis);
        if c < split3 {
            i = i + 1;
        } else {
            let ghost pre = tris@;
            let a = tris[i];
            let b = tris[j1 - 1];
            tris.set(i, b);
            tris.set(j1 - 1, a);
            proof {
                lemma_swap_multiset(pre, i as int, j1 - 1);
                assert(tris@ =~= pre.update(i as int, pre[j1 - 1]).update(j1 - 1, pre[i as int]));
            }
            j1 = j1 - 1;
        }
    }
    i
}

/// The total triangle count of the leaves below node `i`.
pub open spec fn leaf_tri_sum(nodes: Seq<BVHNode>, i: int) -> int
    decreases nodes.len() - i,
    when 0 <= i < nodes.len()
{
    let n = nodes[i];
    if n.leaf {
        n.tris as int
    } else if i < n.left < nodes.len() && i < n.right < nodes.len() {
        leaf_tri_sum(nodes, n.left as int) + leaf_tri_sum(nodes, n.right as int)
    } else {
        0
    }
}

/// In a well-formed forest the leaves below a node hold exactly the node's
/// triangle count: subdivision loses and duplicates nothing.
pub proof fn lemma_leaf_conservation(nodes: Seq<BVHNode>, tris: Seq<Triangle>, i: int)
    requires
        forest_wf(nodes, tris),
        0 <= i < nodes.len(),
    ensures
        leaf_tri_sum(nodes, i) == nodes[i].tris,
    decreases nodes.len() - i,
{
    assert(node_wf(nodes, tris, i));
    let n = nodes[i];
    if !n.leaf {
        lemma_leaf_conservation(nodes, tris, n.left as int);
        lemma_leaf_conservation(nodes, tris, n.right as int);
    }
}

/// The leaves of a built hierarchy hold exactly the input triangle count.
pub proof fn lemma_bvh_triangle_conservation(b: BVH)
    requires
        bvh_wf(b),
    ensures
        leaf_tri_sum(b.nodes@, 0) == b.tris.len(),
{
    lemma_leaf_conservation(b.nodes@, b.tris@, 0);
}

impl BVH {
    /// A fresh hierarchy: one leaf covering every triangle, with the tight
    /// bound of all of them. `build` refines it by subdivision.
    pub fn new(tris: Vec<Triangle>) -> (r: BVH)
        requires
            forall|i: int| 0 <= i < tris.len() ==> tri_wf(#[trigger] tris[i]),
        ensures
            bvh_wf(r),
            r.tris == tris,
            r.nodes.len() == 1,
            r.nodes@[0].leaf,
    {
        let aabb = AABB::from_tris(&tris);
        let root = BVHNode { aabb, left: 0, right: 0, leaf: true, first: 0, tris: tris.len() };
        let mut nodes: Vec<BVHNode> = Vec::new();
        nodes.push(root);
        BVH { nodes, tris }
    }

    /// Split every leaf of more than two triangles by the midpoint of its
    /// box's longest axis, recursively, reordering the triangle array in
    /// place. The triangles end as a permutation of the input.
    pub fn build(&mut self)
        requires
            bvh_wf(*old(self)),
            old(self).nodes.len() == 1,
            old(self).nodes@[0].leaf,
        ensures
            bvh_wf(*final (self)),
            final (self).tris.len() == old(self).tris.len(),
            final (self).tris@.to_multiset() == old(self).tris@.to_multiset(),
            // At most 2N - 1 nodes for N triangles (one for an empty mesh):
            final (self).nodes.len() <= if old(self).tris.len() == 0 {
                1int
            } else {
                2 * old(self).tris.len() - 1
            },
            // The stopping rule: every leaf either holds two or fewer
            // triangles or could not be mid-split without an empty side.
            forall|i: int|
                0 <= i < final (self).nodes.len() ==> leaf_split_exhausted(
                    final (self).nodes@,
                    final (self).tris@,
                    i,
                ),
    {
        proof {
            assert(node_wf(self.nodes@, self.tris@, 0));
        }
        self.subdivide(0);
        proof {
            assert forall|i: int| 0 <= i < self.nodes.len() implies leaf_split_exhausted(
                self.nodes@,
                self.tris@,
                i,
            ) by {
                assert(i == 0 || i >= old(self).nodes.len());
            }
        }
    }

    /// Recursively split the leaf `idx`.
    #[verifier::rlimit(100)]
    #[verifier::spinoff_prover]
    fn subdivide(&mut self, idx: usize)
        requires
            forest_wf(old(self).nodes@, old(self).tris@),
            idx < old(self).nodes.len(),
            old(self).nodes@[idx as int].leaf,
            covers_or_disjoint(
                old(self).nodes@,
                old(self).nodes@[idx as int].first as int,
                old(self).nodes@[idx as int].first + old(self).nodes@[idx as int].tris,
            ),
        ensures
            forest_wf(final (self).nodes@, final (self).tris@),
            final (self).nodes.len() >= old(self).nodes.len(),
            final (self).tris.len() == old(self).tris.len(),
            ({
                let no = old(self).nodes@;
                let nf = final (self).nodes@;
                forall|i: int| 0 <= i < no.len() && i != idx ==> nf[i] == no[i]
            }),
            final (self).nodes@[idx as int].first == old(self).nodes@[idx as int].first,
            final (self).nodes@[idx as int].tris == old(self).nodes@[idx as int].tris,
            final (self).nodes@[idx as int].aabb == old(self).nodes@[idx as int].aabb,
            ({
                let no = old(self).nodes@;
                let nf = final (self).nodes@;
                let f = no[idx as int].first as int;
                let e = no[idx as int].first + no[idx as int].tris;
                forall|i: int|
                    no.len() <= i < nf.len() ==> f <= (#[trigger] nf[i]).first && nf[i].first
                        + nf[i].tris <= e
            }),
            ({
                let to = old(self).tris@;
                let tf = final (self).tris@;
                let f = old(self).nodes@[idx as int].first as int;
                let e = old(self).nodes@[idx as int].first + old(self).nodes@[idx as int].tris;
                forall|j: int| 0 <= j < to.len() && !(f <= j < e) ==> tf[j] == to[j]
            }),
            final (self).tris@.to_multiset() == old(self).tris@.to_multiset(),
            // The arena grows by at most 2 * count - 2 nodes.
            ({
                let c = old(self).nodes@[idx as int].tris as int;
                final (self).nodes.len() <= old(self).nodes.len() + (if c == 0 {
                    0int
                } else {
                    2 * c - 2
                })
            }),
            // Every leaf this call left or created obeys the stopping rule.
            forall|i: int|
                0 <= i < final (self).nodes.len() && (i == idx || i >= old(self).nodes.len())
                    ==> leaf_split_exhausted(final (self).nodes@, final (self).tris@, i),
        decreases old(self).nodes@[idx as int].tris,
    {
        let n = self.nodes[idx];
        proof {
            assert(node_wf(self.nodes@, self.tris@, idx as int));
        }
        if n.tris <= 2 {
            proof {
                assert forall|i: int|
                    0 <= i < self.nodes.len() && (i == idx || i >= old(self).nodes.len())
                        implies leaf_split_exhausted(self.nodes@, self.tris@, i) by {
                    assert(i == idx);
                    assert(self.nodes@[i].tris <= 2);
                }
            }
            return ;
        }
        let first = n.first;
        let count = n.tris;
        let tl: usize = self.tris.len();
        proof {
            assert(n == self.nodes@[idx as int]);
            assert(n.first + n.tris <= self.tris@.len());
        }
        let end: usize = first + count;
        // Longest axis of the node's box, ties broken x before y before z.
        let ex: i64 = n.aabb.max.x - n.aabb.min.x;
        let ey: i64 = n.aabb.max.y - n.aabb.min.y;
        let ez: i64 = n.aabb.max.z - n.aabb.min.z;
        let (axis, amin, aext): (u8, i64, i64) = if ex >= ey && ex >= ez {
            (0, n.aabb.min.x, ex)
        } else if ey >= ex && ey >= ez {
            (1, n.aabb.min.y, ey)
        } else {
            (2, n.aabb.min.z, ez)
        };
        // Tripled midpoint, so the comparison against tripled centroids needs
        // no rounding at all.
        let split3: i64 = 3 * amin + crate::fixed::div64(3 * aext, 2);
        let ghost tris0 = self.tris@;
        let ghost nodes0 = self.nodes@;
        let mid = partition(&mut self.tris, first, count, axis, split3);
        proof {
            assert(self.nodes@ == nodes0);
            assert forall|m: int| 0 <= m < self.nodes@.len() implies node_wf(
                self.nodes@,
                self.tris@,
                m,
            ) by {
                assert(node_wf(nodes0, tris0, m));
                let nm = self.nodes@[m];
                assert(nm == nodes0[m]);
                assert(nm.first + nm.tris <= tris0.len());
                lemma_box_preserved(
                    tris0,
                    self.tris@,
                    first as int,
                    end as int,
                    nm.aabb,
                    nm.first as int,
                    nm.tris as int,
                );
                if !nm.leaf {
                    // The children are arena nodes too, so the permuted span
                    // either lies within each child's range or avoids it, and
                    // the mid-split sides survive the permutation.
                    let lch = self.nodes@[nm.left as int];
                    let rch = self.nodes@[nm.right as int];
                    assert(node_wf(nodes0, tris0, nm.left as int));
                    assert(node_wf(nodes0, tris0, nm.right as int));
                    lemma_tri_pred_preserved(
                        tris0,
                        self.tris@,
                        first as int,
                        end as int,
                        |t: Triangle| cax(t, split_axis(nm.aabb)) < split_mid3(nm.aabb),
                        lch.first as int,
                        lch.tris as int,
                    );
                    lemma_tri_pred_preserved(
                        tris0,
                        self.tris@,
                        first as int,
                        end as int,
                        |t: Triangle| cax(t, split_axis(nm.aabb)) >= split_mid3(nm.aabb),
                        rch.first as int,
                        rch.tris as int,
                    );
                }
            }
            lemma_wf_preserved(tris0, self.tris@);
        }
        let left_count: usize = mid - first;
        if left_count == 0 || left_count == count {
            proof {
                // The partition put every centroid on one side of the
                // midpoint along the longest axis: the split is exhausted.
                assert(axis as int == split_axis(n.aabb));
                assert(split3 as int == split_mid3(n.aabb));
                assert forall|i: int|
                    0 <= i < self.nodes.len() && (i == idx || i >= old(self).nodes.len())
                        implies leaf_split_exhausted(self.nodes@, self.tris@, i) by {
                    assert(i == idx);
                    if left_count == 0 {
                        assert(forall|j: int|
                            first <= j < first + count ==> cax(#[trigger] self.tris@[j], axis as int)
                                >= split3);
                    } else {
                        assert(forall|j: int|
                            first <= j < first + count ==> cax(#[trigger] self.tris@[j], axis as int)
                                < split3);
                    }
                }
            }
            return ;
        }
        let lbox = AABB::from_tris_range(&self.tris, first, left_count);
        let rbox = AABB::from_tris_range(&self.tris, mid, count - left_count);
        let ghost tris1 = self.tris@;
        self.nodes.push(
            BVHNode { aabb: lbox, left: 0, right: 0, leaf: true, first, tris: left_count },
        );
        self.nodes.push(
            BVHNode {
                aabb: rbox,
                left: 0,
                right: 0,
                leaf: true,
                first: mid,
                tris: count - left_count,
            },
        );
        let ri: usize = self.nodes.len() - 1;
        let li: usize = ri - 1;
        self.nodes.set(
            idx,
            BVHNode { aabb: n.aabb, left: li, right: ri, leaf: false, first, tris: count },
        );
        let ghost nodes1 = self.nodes@;
        proof {
            assert forall|m: int| 0 <= m < nodes1.len() implies node_wf(nodes1, tris1, m) by {
                if m < nodes0.len() && m != idx {
                    assert(node_wf(nodes0, tris1, m));
                    assert(nodes1[m] == nodes0[m]);
                    let nm = nodes1[m];
                    if !nm.leaf {
                        // A child of m may be idx itself, whose leaf flag and
                        // child indices changed, but never its range.
                        assert(nodes1[nm.left as int].first == nodes0[nm.left as int].first);
                        assert(nodes1[nm.left as int].tris == nodes0[nm.left as int].tris);
                        assert(nodes1[nm.right as int].first == nodes0[nm.right as int].first);
                        assert(nodes1[nm.right as int].tris == nodes0[nm.right as int].tris);
                    }
                } else if m == idx {
                    assert(node_wf(nodes0, tris1, idx as int));
                    assert(nodes1[li as int].first == first);
                    assert(nodes1[li as int].tris == left_count);
                    assert(nodes1[ri as int].first == mid);
                    assert(nodes1[ri as int].tris == count - left_count);
                } else {
                    assert(nodes1[m].leaf);
                }
            }
            assert forall|m: int| 0 <= m < nodes1.len() implies {
                let nm = #[trigger] nodes1[m];
                ||| (nm.first <= first as int && mid as int <= nm.first + nm.tris)
                ||| nm.first + nm.tris <= first as int
                ||| mid as int <= nm.first
            } by {
                if m < nodes0.len() {
                    assert(nodes1[m].first == nodes0[m].first && nodes1[m].tris
                        == nodes0[m].tris);
                    assert({
                        let nm = nodes0[m];
                        ||| (nm.first <= first as int && end as int <= nm.first + nm.tris)
                        ||| nm.first + nm.tris <= first as int
                        ||| end as int <= nm.first
                    });
                }
            }
            assert(covers_or_disjoint(nodes1, first as int, mid as int));
        }
        self.subdivide(li);
        let ghost tris2 = self.tris@;
        let ghost nodes2 = self.nodes@;
        proof {
            // Every node range still covers or avoids the right half.
            assert forall|m: int| 0 <= m < nodes2.len() implies {
                let nm = #[trigger] nodes2[m];
                ||| (nm.first <= mid as int && end as int <= nm.first + nm.tris)
                ||| nm.first + nm.tris <= mid as int
                ||| end as int <= nm.first
            } by {
                if m < nodes1.len() {
                    assert(nodes2[m].first == nodes1[m].first && nodes2[m].tris
                        == nodes1[m].tris);
                    if m < nodes0.len() {
                        assert({
                            let nm = nodes0[m];
                            ||| (nm.first <= first as int && end as int <= nm.first + nm.tris)
                            ||| nm.first + nm.tris <= first as int
                            ||| end as int <= nm.first
                        });
                    }
                } else {
                    // Nodes added below the left child stay within its range.
                    assert(nodes2[m].first + nodes2[m].tris <= mid as int);
                }
            }
            assert(covers_or_disjoint(nodes2, mid as int, end as int));
        }
        self.subdivide(ri);
        proof {
            // Assemble the stopping rule for everything this call touched.
            // The right recursion left the left half pointwise unchanged, so
            // the left subtree's leaves stay exhausted; `idx` itself is now
            // interior; the right subtree's leaves come from its own call.
            let nf = self.nodes@;
            let tf = self.tris@;
            assert forall|i: int|
                0 <= i < nf.len() && (i == idx || i >= old(self).nodes.len())
                    implies leaf_split_exhausted(nf, tf, i) by {
                if i == idx {
                    assert(!nf[i].leaf);
                } else if i == ri || i >= nodes2.len() {
                    // Covered by the right child's own postcondition.
                    assert(leaf_split_exhausted(nf, tf, i));
                } else {
                    // The left child or one of its descendants: its node is
                    // unchanged by the right recursion, its range lies within
                    // [first, mid), and those triangles are unchanged.
                    assert(nf[i] == nodes2[i]);
                    assert(leaf_split_exhausted(nodes2, tris2, i));
                    let nd = nodes2[i];
                    assert(nd.first as int + nd.tris <= mid as int);
                    assert forall|j: int| nd.first <= j < nd.first + nd.tris implies tf[j]
                        == tris2[j] by {}
                    if nd.leaf && nd.tris > 2 {
                        if forall|j: int|
                            nd.first <= j < nd.first + nd.tris ==> cax(
                                #[trigger] tris2[j],
                                split_axis(nd.aabb),
                            ) < split_mid3(nd.aabb) {
                            assert(forall|j: int|
                                nd.first <= j < nd.first + nd.tris ==> cax(
                                    #[trigger] tf[j],
                                    split_axis(nd.aabb),
                                ) < split_mid3(nd.aabb));
                        } else {
                            assert(forall|j: int|
                                nd.first <= j < nd.first + nd.tris ==> cax(
                                    #[trigger] tris2[j],
                                    split_axis(nd.aabb),
                                ) >= split_mid3(nd.aabb));
                            assert(forall|j: int|
                                nd.first <= j < nd.first + nd.tris ==> cax(
                                    #[trigger] tf[j],
                                    split_axis(nd.aabb),
                                ) >= split_mid3(nd.aabb));
                        }
                    }
                }
            }
        }
    }

    /// Nearest hit through the hierarchy. Subtrees whose box the ray misses
    /// are pruned; the result is proved to be exactly what `intersect_linear`
    /// returns, ties and all.
    pub fn intersect(&self, ray: &Ray) -> (res: Option<HitData>)
        requires
            bvh_wf(*self),
            ray_wf(*ray),
        ensures
            bvh_query_matches(self.tris@, *ray, res),
    {
        match self.intersect_node(ray, 0, 0) {
            Option::None => Option::None,
            Option::Some((h, nh)) => Option::Some(
                HitData { position: h.p, normal: h.normal, bary: h.bary, node_hits: nh },
            ),
        }
    }

    /// Depth-first traversal below node `idx`; `hits` counts interior
    /// descents for the debug heat view.
    fn intersect_node(&self, ray: &Ray, idx: usize, hits: u32) -> (res: Option<
        (TriangleHitData, u32),
    >)
        requires
            forest_wf(self.nodes@, self.tris@),
            idx < self.nodes.len(),
            ray_wf(*ray),
        ensures
            hit_matches(
                self.tris@,
                *ray,
                self.nodes@[idx as int].first as int,
                self.nodes@[idx as int].first + self.nodes@[idx as int].tris,
                match res {
                    Option::None => Option::None,
                    Option::Some((h, nh)) => Option::Some(h),
                },
            ),
        decreases self.nodes.len() - idx,
    {
        let n = self.nodes[idx];
        proof {
            assert(node_wf(self.nodes@, self.tris@, idx as int));
        }
        if !n.aabb.intersect(ray) {
            proof {
                let s = self.tris@;
                assert forall|i: int| n.first <= i < n.first + n.tris implies !tri_hits(
                    #[trigger] s[i],
                    *ray,
                ) by {
                    if tri_hits(s[i], *ray) {
                        assert(tri_in_box(n.aabb, s[i]));
                        lemma_hit_in_box(s[i], *ray, n.aabb);
                    }
                }
                lemma_best_none(s, *ray, n.first as int, n.first + n.tris);
            }
            return Option::None;
        }
        if n.leaf {
            let r = self.scan_range(ray, n.first, n.tris);
            match r {
                Option::None => Option::None,
                Option::Some(h) => Option::Some((h, hits)),
            }
        } else {
            let h2: u32 = if hits < 0xFFFF_FFFFu32 {
                hits + 1
            } else {
                hits
            };
            let left = self.intersect_node(ray, n.left, h2);
            let right = self.intersect_node(ray, n.right, h2);
            proof {
                let s = self.tris@;
                let mid = self.nodes@[n.left as int].first + self.nodes@[n.left as int].tris;
                lemma_best_split(s, *ray, n.first as int, mid, n.first + n.tris);
                if best_idx(s, *ray, n.first as int, mid) is Some {
                    lemma_best_in_range(s, *ray, n.first as int, mid);
                }
                if best_idx(s, *ray, mid, n.first + n.tris) is Some {
                    lemma_best_in_range(s, *ray, mid, n.first + n.tris);
                }
            }
            match (left, right) {
                (Option::None, Option::None) => Option::None,
                (Option::Some(l), Option::None) => Option::Some(l),
                (Option::None, Option::Some(rr)) => Option::Some(rr),
                (Option::Some((lh, ln)), Option::Some((rh, rn))) => {
                    if frac_lt(rh.t_num, rh.t_den, lh.t_num, lh.t_den) {
                        Option::Some((rh, rn))
                    } else {
                        Option::Some((lh, ln))
                    }
                },
            }
        }
    }

    /// Nearest hit by scanning every triangle: the reference the hierarchy is
    /// held to.
    pub fn intersect_linear(&self, ray: &Ray) -> (res: Option<HitData>)
        requires
            bvh_wf(*self),
            ray_wf(*ray),
        ensures
            bvh_query_matches(self.tris@, *ray, res),
    {
        let cur = self.scan_range(ray, 0, self.tris.len());
        match cur {
            Option::None => Option::None,
            Option::Some(h) => Option::Some(
                HitData { position: h.p, normal: h.normal, bary: h.bary, node_hits: 0 },
            ),
        }
    }

    /// Nearest hit over the contiguous triangle range `[first, first+count)`.
    fn scan_range(&self, ray: &Ray, first: usize, count: usize) -> (res: Option<TriangleHitData>)
        requires
            forest_wf(self.nodes@, self.tris@),
            ray_wf(*ray),
            first + count <= self.tris.len(),
        ensures
            hit_matches(self.tris@, *ray, first as int, first + count, res),
    {
        let tris = &self.tris;
        let mut cur: Option<TriangleHitData> = Option::None;
        let ghost mut cur_i: Option<int> = Option::None;
        let end: usize = first + count;
        let mut k: usize = first;
        while k < end
            invariant
                forest_wf(self.nodes@, self.tris@),
                ray_wf(*ray),
                first <= k <= end,
                end == first + count <= self.tris.len(),
                tris == &self.tris,
                hit_matches(self.tris@, *ray, first as int, k as int, cur),
            decreases end - k,
        {
            let h = tris[k].intersect(ray);
            proof {
                let s = self.tris@;
                lemma_best_split(s, *ray, first as int, k as int, k + 1);
                if best_idx(s, *ray, first as int, k as int) is Some {
                    lemma_best_in_range(s, *ray, first as int, k as int);
                }
                assert(best_idx(s, *ray, k + 1, k + 1) is None);
                assert(best_idx(s, *ray, k as int, k + 1) == combine_best(
                    s,
                    *ray,
                    if tri_hits(s[k as int], *ray) {
                        Option::Some(k as int)
                    } else {
                        Option::None
                    },
                    best_idx(s, *ray, k + 1, k + 1),
                ));
            }
            match h {
                Option::Some(hd) => {
                    match cur {
                        Option::None => {
                            cur = Option::Some(hd);
                            proof {
                                cur_i = Option::Some(k as int);
                            }
                        },
                        Option::Some(c) => {
                            if frac_lt(hd.t_num, hd.t_den, c.t_num, c.t_den) {
                                cur = Option::Some(hd);
                                proof {
                                    cur_i = Option::Some(k as int);
                                }
                            }
                        },
                    }
                },
                Option::None => {},
            }
            k = k + 1;
        }
        cur
    }
}

} // verus!
