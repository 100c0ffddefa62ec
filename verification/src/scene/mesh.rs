//! Triangle meshes: a BVH over triangles, an instance transform, a material.

use vstd::prelude::*;
use crate::fixed::FP_ONE;
use crate::vec3::Vec3;
use crate::vec3::Vec2;
use crate::vec3::in_bounds;
use crate::vec3::dot3;
use crate::vec3::COORD_LIMIT;
use crate::math::transform::Transform;
use crate::rendering::ray::Ray;
use crate::rendering::ray::ray_wf;
use crate::rendering::materials::Material;
use crate::rendering::materials::material_wf;
use crate::scene::bvh::BVH;
use crate::scene::bvh::bvh_wf;
use crate::scene::bvh::best_idx;
use crate::scene::triangle::Triangle;
use crate::scene::triangle::tri_wf;
use crate::scene::triangle::tri_hit_spec;
use crate::scene::models::HitData;

verus! {

/// One face of an indexed mesh: three vertex indices, and optionally three
/// texture-coordinate indices and three normal indices.
#[derive(Clone, Copy, Debug)]
pub struct FaceIndices {
    pub v: [usize; 3],
    pub t: Option<[usize; 3]>,
    pub n: Option<[usize; 3]>,
}

pub struct Mesh {
    pub bvh: BVH,
    pub transform: Transform,
    pub material: Material,
}

pub open spec fn mesh_wf(m: Mesh) -> bool {
    &&& bvh_wf(m.bvh)
    &&& m.transform.wf()
    &&& material_wf(m.material)
}

/// The triangle a face yields: its vertex positions looked up, its normals
/// and texture coordinates attached only when all three corners carry valid
/// indices. A face with any vertex index out of range, or a vertex outside
/// the world bounds, yields nothing.
pub open spec fn face_tri(ps: Seq<Vec3>, ns: Seq<Vec3>, ts: Seq<Vec2>, f: FaceIndices) -> Option<
    Triangle,
> {
    if f.v[0] < ps.len() && f.v[1] < ps.len() && f.v[2] < ps.len() && in_bounds(
        ps[f.v[0] as int],
        COORD_LIMIT as int,
    ) && in_bounds(ps[f.v[1] as int], COORD_LIMIT as int) && in_bounds(
        ps[f.v[2] as int],
        COORD_LIMIT as int,
    ) {
        let normals = match f.n {
            Option::Some(ni) => if ni[0] < ns.len() && ni[1] < ns.len() && ni[2] < ns.len() {
                Option::Some([ns[ni[0] as int], ns[ni[1] as int], ns[ni[2] as int]])
            } else {
                Option::None
            },
            Option::None => Option::None,
        };
        let uvs = match f.t {
            Option::Some(ti) => if ti[0] < ts.len() && ti[1] < ts.len() && ti[2] < ts.len() {
                Option::Some([ts[ti[0] as int], ts[ti[1] as int], ts[ti[2] as int]])
            } else {
                Option::None
            },
            Option::None => Option::None,
        };
        Option::Some(
            Triangle {
                v0: ps[f.v[0] as int],
                v1: ps[f.v[1] as int],
                v2: ps[f.v[2] as int],
                normals,
                uvs,
            },
        )
    } else {
        Option::None
    }
}

/// The triangles of a face list, in order, skipping faces that yield nothing.
pub open spec fn faces_to_tris(
    ps: Seq<Vec3>,
    ns: Seq<Vec3>,
    ts: Seq<Vec2>,
    faces: Seq<FaceIndices>,
) -> Seq<Triangle>
    decreases faces.len(),
{
    if faces.len() == 0 {
        Seq::empty()
    } else {
        let rest = faces_to_tris(ps, ns, ts, faces.drop_last());
        match face_tri(ps, ns, ts, faces.last()) {
            Option::Some(t) => rest.push(t),
            Option::None => rest,
        }
    }
}

/// The ray in mesh-local space: origin by the inverse matrix, direction by
/// the transposed inverse, renormalized.
pub open spec fn mesh_local_dir(m: Mesh, r: Ray) -> Vec3 {
    m.transform.inv.mul_dir_transposed_spec(r.direction)
}

/// Everything `Mesh::intersect` reports (with `node_hits` cleared): the
/// nearest triangle hit in local space, carried back to world space. A ray
/// whose local form degenerates or leaves the world bounds, or a hit that
/// does, is a miss.
pub open spec fn mesh_hit_spec(m: Mesh, r: Ray) -> Option<HitData> {
    let d0 = mesh_local_dir(m, r);
    let o0 = m.transform.inv.mul_point_spec(r.origin);
    let ld = d0.normalized_spec();
    if dot3(d0, d0) <= 0 || !in_bounds(o0, COORD_LIMIT as int) || (ld.x == 0 && ld.y == 0 && ld.z
        == 0) {
        Option::None
    } else {
        let lr = Ray { origin: o0, direction: ld };
        match best_idx(m.bvh.tris@, lr, 0, m.bvh.tris@.len() as int) {
            Option::None => Option::None,
            Option::Some(i) => {
                let s = tri_hit_spec(m.bvh.tris@[i], lr);
                let wp = m.transform.m.mul_point_spec(s.p);
                let wn0 = m.transform.inv.mul_dir_transposed_spec(s.normal);
                if !in_bounds(wp, COORD_LIMIT as int) || dot3(wn0, wn0) <= 0 {
                    Option::None
                } else {
                    let wn = wn0.normalized_spec();
                    if wn.x == 0 && wn.y == 0 && wn.z == 0 {
                        Option::None
                    } else {
                        Option::Some(
                            HitData { position: wp, normal: wn, bary: s.bary, node_hits: 0u32 },
                        )
                    }
                }
            },
        }
    }
}

impl Mesh {
    /// A mesh over the given triangles; builds the hierarchy once.
    pub fn new(tris: Vec<Triangle>, transform: Transform, material: Material) -> (r: Mesh)
        requires
            forall|i: int| 0 <= i < tris.len() ==> tri_wf(#[trigger] tris@[i]),
            transform.wf(),
            material_wf(material),
        ensures
            mesh_wf(r),
            r.transform == transform,
            r.material == material,
            r.bvh.tris@.to_multiset() == tris@.to_multiset(),
            r.bvh.tris@.len() == tris@.len(),
    {
        let mut bvh = BVH::new(tris);
        bvh.build();
        Mesh { bvh, transform, material }
    }

    /// A mesh from indexed geometry (the form a parsed OBJ object takes):
    /// positions are mandatory per corner; normals and texture coordinates
    /// are attached only when all three corners have them. Faces with an
    /// index out of range, or vertices outside the world bounds, are skipped.
    pub fn from_faces(
        positions: &Vec<Vec3>,
        normals: &Vec<Vec3>,
        uvs: &Vec<Vec2>,
        faces: &Vec<FaceIndices>,
        transform: Transform,
        material: Material,
    ) -> (r: Mesh)
        requires
            transform.wf(),
            material_wf(material),
        ensures
            mesh_wf(r),
            r.transform == transform,
            r.material == material,
            r.bvh.tris@.to_multiset() == faces_to_tris(
                positions@,
                normals@,
                uvs@,
                faces@,
            ).to_multiset(),
    {
        let mut tris: Vec<Triangle> = Vec::new();
        let mut i: usize = 0;
        while i < faces.len()
            invariant
                i <= faces.len(),
                tris@ == faces_to_tris(positions@, normals@, uvs@, faces@.take(i as int)),
                forall|j: int| 0 <= j < tris.len() ==> tri_wf(#[trigger] tris@[j]),
            decreases faces.len() - i,
        {
            let f = faces[i];
            let ghost pre = tris@;
            let pn = positions.len();
            if f.v[0] < pn && f.v[1] < pn && f.v[2] < pn {
                let v0 = positions[f.v[0]];
                let v1 = positions[f.v[1]];
                let v2 = positions[f.v[2]];
                if v0.within(COORD_LIMIT) && v1.within(COORD_LIMIT) && v2.within(COORD_LIMIT) {
                    let tn: Option<[Vec3; 3]> = match f.n {
                        Option::Some(ni) => {
                            if ni[0] < normals.len() && ni[1] < normals.len() && ni[2]
                                < normals.len() {
                                Some([normals[ni[0]], normals[ni[1]], normals[ni[2]]])
                            } else {
                                None
                            }
                        },
                        Option::None => None,
                    };
                    let tt: Option<[Vec2; 3]> = match f.t {
                        Option::Some(ti) => {
                            if ti[0] < uvs.len() && ti[1] < uvs.len() && ti[2] < uvs.len() {
                                Some([uvs[ti[0]], uvs[ti[1]], uvs[ti[2]]])
                            } else {
                                None
                            }
                        },
                        Option::None => None,
                    };
                    tris.push(Triangle { v0, v1, v2, normals: tn, uvs: tt });
                }
            }
            proof {
                assert(faces@.take(i + 1).drop_last() =~= faces@.take(i as int));
                assert(faces@.take(i + 1).last() == faces@[i as int]);
            }
            i = i + 1;
        }
        proof {
            assert(faces@.take(faces@.len() as int) =~= faces@);
        }
        Mesh::new(tris, transform, material)
    }

    pub fn material(&self) -> (r: Material)
        ensures
            r == self.material,
    {
        self.material
    }

    /// Trace in mesh-local space and carry the nearest hit back to world
    /// space, renormalizing the transformed normal.
    pub fn intersect(&self, ray: &Ray) -> (res: Option<HitData>)
        requires
            mesh_wf(*self),
            ray_wf(*ray),
        ensures
            match (res, mesh_hit_spec(*self, *ray)) {
                (Option::None, Option::None) => true,
                (Option::Some(h), Option::Some(s)) => {
                    &&& h.position == s.position
                    &&& h.normal == s.normal
                    &&& h.bary == s.bary
                    &&& in_bounds(h.position, COORD_LIMIT as int)
                    &&& in_bounds(h.normal, FP_ONE as int)
                    &&& dot3(h.normal, h.normal) > 0
                },
                _ => false,
            },
    {
        let o0 = self.transform.inv.mul_point(ray.origin);
        let d0 = self.transform.inv.mul_dir_transposed(ray.direction);
        proof {
            crate::math::transform::lemma_mul_dir_transposed_bounded(
                self.transform.inv,
                ray.direction,
            );
        }
        if d0.is_zero() {
            proof {
                assert(dot3(d0, d0) == 0) by (nonlinear_arith)
                    requires
                        d0.x == 0 && d0.y == 0 && d0.z == 0,
                ;
            }
            return None;
        }
        proof {
            assert(dot3(d0, d0) > 0) by (nonlinear_arith)
                requires
                    !(d0.x == 0 && d0.y == 0 && d0.z == 0),
            ;
        }
        if !o0.within(COORD_LIMIT) {
            return None;
        }
        let ld = d0.normalized();
        if ld.is_zero() {
            return None;
        }
        let lr = Ray { origin: o0, direction: ld };
        let lhit = self.bvh.intersect(&lr);
        match lhit {
            Option::None => None,
            Option::Some(h) => {
                let wp = self.transform.m.mul_point(h.position);
                let wn0 = self.transform.inv.mul_dir_transposed(h.normal);
                proof {
                    crate::math::transform::lemma_mul_dir_transposed_bounded(
                        self.transform.inv,
                        h.normal,
                    );
                }
                if !wp.within(COORD_LIMIT) {
                    return None;
                }
                if wn0.is_zero() {
                    proof {
                        assert(dot3(wn0, wn0) == 0) by (nonlinear_arith)
                            requires
                                wn0.x == 0 && wn0.y == 0 && wn0.z == 0,
                        ;
                    }
                    return None;
                }
                proof {
                    assert(dot3(wn0, wn0) > 0) by (nonlinear_arith)
                        requires
                            !(wn0.x == 0 && wn0.y == 0 && wn0.z == 0),
                    ;
                }
                let wn = wn0.normalized();
                if wn.is_zero() {
                    return None;
                }
                proof {
                    assert(dot3(wn, wn) > 0) by (nonlinear_arith)
                        requires
                            !(wn.x == 0 && wn.y == 0 && wn.z == 0),
                    ;
                }
                Some(HitData { position: wp, normal: wn, bary: h.bary, node_hits: h.node_hits })
            },
        }
    }
}

} // verus!
