//! Scene-level types: hits, primitives and the scene list.

use vstd::prelude::*;
use crate::fixed::FP_ONE;
use crate::vec3::Vec3;
use crate::vec3::in_bounds;
use crate::vec3::dot3;
use crate::vec3::sv;
use crate::vec3::tsub;
use crate::vec3::tdot;
use crate::vec3::COORD_LIMIT;

verus! {

/// The far clip of the tracer: hit parameters beyond this fixed-point value
/// count as misses, the role the huge initial nearest-distance plays in a
/// floating-point scan.
pub const FAR_T: i64 = 0x4000_0000;

/// A hit as the renderer consumes it. `bary` is zero for non-triangle
/// primitives; `node_hits` counts BVH interior descents on the winning path
/// (a debug quantity, never part of radiometry).
#[derive(Clone, Copy, PartialEq, Eq, Structural, Debug)]
pub struct HitData {
    pub position: Vec3,
    pub normal: Vec3,
    pub bary: Vec3,
    pub node_hits: u32,
}

impl HitData {
    pub fn new(position: Vec3, normal: Vec3, bary: Vec3) -> (r: HitData)
        ensures
            r == (HitData { position, normal, bary, node_hits: 0u32 }),
    {
        HitData { position, normal, bary, node_hits: 0 }
    }
}

/// The closed set of scene primitives, dispatched without indirection.
pub enum SceneObject {
    Sphere(crate::scene::sphere::Sphere),
    Plane(crate::scene::plane::Plane),
    Quad(crate::scene::quad::Quad),
    Mesh(crate::scene::mesh::Mesh),
}

pub open spec fn object_wf(o: SceneObject) -> bool {
    match o {
        SceneObject::Sphere(s) => crate::scene::sphere::sphere_wf(s),
        SceneObject::Plane(p) => crate::scene::plane::plane_wf(p),
        SceneObject::Quad(q) => crate::scene::quad::quad_wf(q),
        SceneObject::Mesh(m) => crate::scene::mesh::mesh_wf(m),
    }
}

pub open spec fn object_material(o: SceneObject) -> crate::rendering::materials::Material {
    match o {
        SceneObject::Sphere(s) => s.material,
        SceneObject::Plane(p) => p.material,
        SceneObject::Quad(q) => q.material,
        SceneObject::Mesh(m) => m.material,
    }
}

/// What each primitive's intersection reports, with the debug counter
/// cleared.
pub open spec fn object_hit_spec(o: SceneObject, r: crate::rendering::ray::Ray) -> Option<HitData> {
    match o {
        SceneObject::Sphere(s) => crate::scene::sphere::sphere_hit_spec(s, r),
        SceneObject::Plane(p) => crate::scene::plane::plane_hit_spec(p, r),
        SceneObject::Quad(q) => crate::scene::quad::quad_hit_spec(q, r),
        SceneObject::Mesh(m) => crate::scene::mesh::mesh_hit_spec(m, r),
    }
}

impl SceneObject {
    pub fn material(&self) -> (r: crate::rendering::materials::Material)
        ensures
            r == object_material(*self),
    {
        match self {
            SceneObject::Sphere(s) => s.material(),
            SceneObject::Plane(p) => p.material(),
            SceneObject::Quad(q) => q.material(),
            SceneObject::Mesh(m) => m.material(),
        }
    }

    /// Dispatch to the primitive's intersection. The result carries the
    /// fields `object_hit_spec` pins (the debug counter aside).
    pub fn intersect(&self, ray: &crate::rendering::ray::Ray) -> (res: Option<HitData>)
        requires
            object_wf(*self),
            crate::rendering::ray::ray_wf(*ray),
        ensures
            match (res, object_hit_spec(*self, *ray)) {
                (Option::None, Option::None) => true,
                (Option::Some(h), Option::Some(s)) => {
                    &&& h.position == s.position
                    &&& h.normal == s.normal
                    &&& h.bary == s.bary
                    &&& in_bounds(h.position, COORD_LIMIT as int)
                    &&& in_bounds(h.normal, 2 * FP_ONE as int)
                    &&& dot3(h.normal, h.normal) > 0
                },
                _ => false,
            },
    {
        match self {
            SceneObject::Sphere(s) => s.intersect(ray),
            SceneObject::Plane(p) => p.intersect(ray),
            SceneObject::Quad(q) => q.intersect(ray),
            SceneObject::Mesh(m) => m.intersect(ray),
        }
    }
}

/// The exact squared distance from the ray origin to a hit.
pub open spec fn hit_dist2(h: HitData, r: crate::rendering::ray::Ray) -> int {
    tdot(tsub(sv(h.position), sv(r.origin)), tsub(sv(h.position), sv(r.origin)))
}

/// Merge two candidate (index, hit) pairs: the right one wins only when its
/// hit is strictly nearer, so earlier objects win ties.
pub open spec fn combine_scene(
    r: crate::rendering::ray::Ray,
    a: Option<(int, HitData)>,
    b: Option<(int, HitData)>,
) -> Option<(int, HitData)> {
    match (a, b) {
        (Option::None, x) => x,
        (x, Option::None) => x,
        (Option::Some((i, hi_)), Option::Some((j, hj))) => if hit_dist2(hj, r) < hit_dist2(
            hi_,
            r,
        ) {
            Option::Some((j, hj))
        } else {
            Option::Some((i, hi_))
        },
    }
}

/// The nearest hit over objects `[lo, hi)`: the first object whose hit has
/// the smallest squared distance to the ray origin.
pub open spec fn scene_best(
    objs: Seq<SceneObject>,
    r: crate::rendering::ray::Ray,
    lo: int,
    hi: int,
) -> Option<(int, HitData)>
    decreases hi - lo,
{
    if lo >= hi {
        Option::None
    } else {
        let head: Option<(int, HitData)> = match object_hit_spec(objs[lo], r) {
            Option::Some(h) => Option::Some((lo, h)),
            Option::None => Option::None,
        };
        combine_scene(r, head, scene_best(objs, r, lo + 1, hi))
    }
}

/// The nearest hit over `[lo, hi)` is the merge of the nearest hits of the
/// two halves at any split point `m`.
proof fn lemma_scene_split(
    objs: Seq<SceneObject>,
    r: crate::rendering::ray::Ray,
    lo: int,
    m: int,
    hi: int,
)
    requires
        lo <= m <= hi,
    ensures
        scene_best(objs, r, lo, hi) == combine_scene(
            r,
            scene_best(objs, r, lo, m),
            scene_best(objs, r, m, hi),
        ),
    decreases m - lo,
{
    if lo < m {
        lemma_scene_split(objs, r, lo + 1, m, hi);
    }
}

/// An insertion-ordered list of primitives with an aggregate nearest-hit
/// dispatch over a linear scan. `environment_light` selects whether rays
/// that miss everything contribute the sky gradient or nothing.
pub struct Scene {
    pub scene_objects: Vec<SceneObject>,
    pub environment_light: bool,
}

pub open spec fn scene_wf(s: Scene) -> bool {
    forall|i: int| 0 <= i < s.scene_objects.len() ==> object_wf(#[trigger] s.scene_objects@[i])
}

impl Scene {
    pub fn new() -> (r: Scene)
        ensures
            r.scene_objects@ == Seq::<SceneObject>::empty(),
            r.environment_light,
            scene_wf(r),
    {
        Scene { scene_objects: Vec::new(), environment_light: true }
    }

    pub fn add_object(&mut self, obj: SceneObject)
        requires
            object_wf(obj),
            scene_wf(*old(self)),
        ensures
            final (self).scene_objects@ == old(self).scene_objects@.push(obj),
            scene_wf(*final (self)),
    {
        self.scene_objects.push(obj);
    }

    /// The nearest hit over all primitives, with the owning primitive's
    /// material: a linear scan where an earlier object keeps a tie.
    pub fn intersect(&self, ray: &crate::rendering::ray::Ray) -> (res: Option<
        (HitData, crate::rendering::materials::Material),
    >)
        requires
            scene_wf(*self),
            crate::rendering::ray::ray_wf(*ray),
        ensures
            match (res, scene_best(self.scene_objects@, *ray, 0, self.scene_objects@.len() as int)) {
                (Option::None, Option::None) => true,
                (Option::Some((h, mat)), Option::Some((i, sh))) => {
                    &&& h.position == sh.position
                    &&& h.normal == sh.normal
                    &&& h.bary == sh.bary
                    &&& mat == object_material(self.scene_objects@[i])
                    &&& crate::rendering::materials::material_wf(mat)
                    &&& in_bounds(h.position, COORD_LIMIT as int)
                    &&& in_bounds(h.normal, 2 * FP_ONE as int)
                    &&& dot3(h.normal, h.normal) > 0
                },
                _ => false,
            },
    {
        let r = *ray;
        let objs = &self.scene_objects;
        let mut cur: Option<(HitData, crate::rendering::materials::Material)> = Option::None;
        let mut cur_d2: i64 = 0;
        let ghost mut cur_i: int = 0;
        let mut k: usize = 0;
        while k < objs.len()
            invariant
                scene_wf(*self),
                crate::rendering::ray::ray_wf(r),
                r == *ray,
                objs == &self.scene_objects,
                k <= objs.len(),
                match (cur, scene_best(self.scene_objects@, r, 0, k as int)) {
                    (Option::None, Option::None) => true,
                    (Option::Some((h, mat)), Option::Some((i, sh))) => {
                        &&& h.position == sh.position
                        &&& h.normal == sh.normal
                        &&& h.bary == sh.bary
                        &&& i == cur_i
                        &&& mat == object_material(self.scene_objects@[i])
                        &&& crate::rendering::materials::material_wf(mat)
                        &&& in_bounds(h.position, COORD_LIMIT as int)
                        &&& in_bounds(h.normal, 2 * FP_ONE as int)
                        &&& dot3(h.normal, h.normal) > 0
                        &&& cur_d2 == hit_dist2(sh, r)
                    },
                    _ => false,
                },
            decreases objs.len() - k,
        {
            let obj = &objs[k];
            let hit = obj.intersect(ray);
            proof {
                lemma_scene_split(self.scene_objects@, r, 0, k as int, k + 1);
                assert(scene_best(self.scene_objects@, r, k + 1, k + 1) is None);
            }
            match hit {
                Option::Some(h) => {
                    let d2 = h.position.dist2(r.origin);
                    match cur {
                        Option::None => {
                            cur = Option::Some((h, obj.material()));
                            cur_d2 = d2;
                            proof {
                                cur_i = k as int;
                            }
                        },
                        Option::Some(_) => {
                            if d2 < cur_d2 {
                                cur = Option::Some((h, obj.material()));
                                cur_d2 = d2;
                                proof {
                                    cur_i = k as int;
                                }
                            }
                        },
                    }
                },
                Option::None => {},
            }
            k = k + 1;
        }
        cur
    }
}

} // verus!
