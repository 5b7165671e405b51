//! Hit records: what a successful ray/geometry intersection reports.

use vstd::prelude::*;
use crate::fixed::{lemma_fmul_neg};
use crate::vec3::{Vec3, v3, t_in, t_neg, t_dot, VMAX};
use crate::ray::Ray;
use crate::materials::Material;

verus! {

/// The outward normal faces against the incoming ray.
pub open spec fn front_face_s(ray: Ray, outward: Vec3) -> bool {
    t_dot(v3(ray.direction), v3(outward)) < 0
}

/// The result of a successful intersection test.  `normal` always points
/// against the incoming ray; `front_face` records whether the ray met the
/// surface from outside.
#[derive(Clone, Copy, Debug, PartialEq, Eq, Structural)]
pub struct HitRecord {
    pub t: i64,
    pub point: Vec3,
    pub normal: Vec3,
    pub material: Material,
    pub front_face: bool,
}

/// Bounds every hit record handed out by the intersection routines obeys:
/// the normal is of (fixed-point) unit scale and the hit point lies in the
/// representable region.
pub open spec fn hr_wf(rec: HitRecord) -> bool {
    &&& t_in(v3(rec.normal), crate::fixed::SCALE as int)
    &&& t_in(v3(rec.point), 0x1_0000_0000_0000)
    &&& 0 <= rec.t
    &&& crate::materials::mat_wf(rec.material)
}

/// The record reports parameter `t` on `ray`, with the stored normal
/// derived from the given outward normal as `HitRecord::new` derives it.
pub open spec fn hr_matches(
    rec: HitRecord,
    ray: Ray,
    t: int,
    outward: (int, int, int),
    m: Material,
) -> bool {
    &&& rec.t == t
    &&& v3(rec.point) == crate::ray::point_at(ray, t)
    &&& rec.material == m
    &&& rec.front_face == (t_dot(v3(ray.direction), outward) < 0)
    &&& v3(rec.normal) == if rec.front_face {
        outward
    } else {
        t_neg(outward)
    }
}

/// Negating the second vector negates the fixed-point dot product.
pub proof fn lemma_t_dot_neg(a: (int, int, int), b: (int, int, int))
    ensures
        t_dot(a, t_neg(b)) == -t_dot(a, b),
{
    lemma_fmul_neg(a.0, b.0);
    lemma_fmul_neg(a.1, b.1);
    lemma_fmul_neg(a.2, b.2);
}

impl HitRecord {
    /// Build a record from the outward normal, orienting the stored normal
    /// against the ray.  The stored normal always satisfies
    /// `dot(ray.direction, normal) <= 0`.
    pub fn new(t: i64, point: Vec3, outward_normal: Vec3, ray: &Ray, material: Material) -> (r:
        HitRecord)
        requires
            t_in(v3(ray.direction), VMAX as int),
            t_in(v3(outward_normal), VMAX as int),
        ensures
            r.t == t,
            r.point == point,
            r.material == material,
            r.front_face == front_face_s(*ray, outward_normal),
            v3(r.normal) == if front_face_s(*ray, outward_normal) {
                v3(outward_normal)
            } else {
                t_neg(v3(outward_normal))
            },
            t_dot(v3(ray.direction), v3(r.normal)) <= 0,
            !r.front_face ==> t_dot(v3(ray.direction), v3(r.normal))
                == -t_dot(v3(ray.direction), v3(outward_normal)),
            t_in(v3(r.normal), VMAX as int),
    {
        let front_face = ray.direction.v_dot(outward_normal) < 0;
        let normal = if front_face {
            outward_normal
        } else {
            proof {
                lemma_t_dot_neg(v3(ray.direction), v3(outward_normal));
            }
            outward_normal.v_neg()
        };
        HitRecord { t, point, normal, material, front_face }
    }
}

} // verus!
