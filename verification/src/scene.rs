//! The scene aggregate: an ordered list of primitives that answers the
//! same intersection protocol with the globally closest hit.

use vstd::prelude::*;
use crate::vec3::{v3, t_in};
use crate::ray::{Ray, ray_wf, T_LIMIT};
use crate::hittable::{HitRecord, hr_wf, hr_matches};
use crate::materials::Material;
use crate::sphere::{
    Sphere, sphere_wf, sphere_t, sphere_outward, lemma_sphere_widen, lemma_sphere_narrow,
};
use crate::cube::{Cube, cube_wf, cube_t, cube_outward, lemma_cube_widen, lemma_cube_narrow};

verus! {

/// The closed set of geometry primitives.
#[derive(Clone, Copy, Debug, PartialEq, Eq, Structural)]
pub enum Shape {
    Sphere(Sphere),
    Cube(Cube),
}

pub open spec fn shape_wf(s: Shape) -> bool {
    match s {
        Shape::Sphere(sp) => sphere_wf(sp),
        Shape::Cube(c) => cube_wf(c),
    }
}

/// The parameter a primitive's intersection test reports.
pub open spec fn shape_t(s: Shape, r: Ray, tmin: int, tmax: int) -> Option<int> {
    match s {
        Shape::Sphere(sp) => sphere_t(sp, r, tmin, tmax),
        Shape::Cube(c) => cube_t(c, r, tmin, tmax),
    }
}

/// The outward normal a primitive reports at parameter `t`.
pub open spec fn shape_outward(s: Shape, r: Ray, t: int) -> (int, int, int) {
    match s {
        Shape::Sphere(sp) => sphere_outward(sp, r, t),
        Shape::Cube(c) => cube_outward(c, crate::ray::point_at(r, t)),
    }
}

pub open spec fn shape_material(s: Shape) -> Material {
    match s {
        Shape::Sphere(sp) => sp.material,
        Shape::Cube(c) => c.material,
    }
}

/// Widening the search interval keeps a hit and its parameter.
pub proof fn lemma_shape_widen(s: Shape, r: Ray, tmin: int, t1: int, t2: int)
    requires
        t1 <= t2,
        shape_t(s, r, tmin, t1) is Some,
    ensures
        shape_t(s, r, tmin, t2) == shape_t(s, r, tmin, t1),
{
    match s {
        Shape::Sphere(sp) => lemma_sphere_widen(sp, r, tmin, t1, t2),
        Shape::Cube(c) => lemma_cube_widen(c, r, tmin, t1, t2),
    }
}

/// Shrinking the search interval above a hit keeps the hit.
pub proof fn lemma_shape_narrow(s: Shape, r: Ray, tmin: int, t2: int, t1: int)
    requires
        t1 <= t2,
        match shape_t(s, r, tmin, t2) {
            Some(t) => t < t1,
            None => false,
        },
    ensures
        shape_t(s, r, tmin, t1) == shape_t(s, r, tmin, t2),
{
    match s {
        Shape::Sphere(sp) => lemma_sphere_narrow(sp, r, tmin, t2, t1),
        Shape::Cube(c) => lemma_cube_narrow(c, r, tmin, t2, t1),
    }
}

impl Shape {
    /// Nearest intersection with parameter in `[t_min, t_max]`, if any.
    pub fn hit(&self, ray: &Ray, t_min: i64, t_max: i64) -> (res: Option<HitRecord>)
        requires
            shape_wf(*self),
            ray_wf(*ray),
            0 <= t_min <= t_max <= T_LIMIT,
        ensures
            match res {
                Some(rec) => {
                    &&& shape_t(*self, *ray, t_min as int, t_max as int) == Some(rec.t as int)
                    &&& t_min <= rec.t <= t_max
                    &&& hr_matches(
                        rec,
                        *ray,
                        rec.t as int,
                        shape_outward(*self, *ray, rec.t as int),
                        shape_material(*self),
                    )
                    &&& hr_wf(rec)
                },
                None => shape_t(*self, *ray, t_min as int, t_max as int) is None,
            },
    {
        match self {
            Shape::Sphere(sp) => sp.hit(ray, t_min, t_max),
            Shape::Cube(c) => c.hit(ray, t_min, t_max),
        }
    }
}

/// Every member misses the ray over the whole search interval.
pub open spec fn scene_misses(sc: Scene, ray: Ray, t_min: int, t_max: int) -> bool {
    forall|j: int|
        0 <= j < sc.shapes@.len() ==> (#[trigger] shape_t(sc.shapes@[j], ray, t_min, t_max))
            is None
}

/// What a successful aggregate lookup reports: the record comes from some
/// member, no member hits strictly closer, and the record is well formed.
pub open spec fn scene_hit_post(sc: Scene, ray: Ray, t_min: int, t_max: int, rec: HitRecord)
    -> bool {
    &&& exists|i: int|
        0 <= i < sc.shapes@.len() && #[trigger] shape_t(sc.shapes@[i], ray, t_min, t_max) == Some(
            rec.t as int,
        ) && hr_matches(
            rec,
            ray,
            rec.t as int,
            shape_outward(sc.shapes@[i], ray, rec.t as int),
            shape_material(sc.shapes@[i]),
        )
    &&& forall|j: int|
        0 <= j < sc.shapes@.len() ==> match #[trigger] shape_t(sc.shapes@[j], ray, t_min, t_max) {
            Some(tj) => tj >= rec.t,
            None => true,
        }
    &&& t_min <= rec.t <= t_max
    &&& hr_wf(rec)
}

/// An ordered list of primitives, shared read-only during rendering.
pub struct Scene {
    pub shapes: Vec<Shape>,
}

pub open spec fn scene_wf(sc: Scene) -> bool {
    forall|i: int| 0 <= i < sc.shapes@.len() ==> shape_wf(#[trigger] sc.shapes@[i])
}

impl Scene {
    pub fn new() -> (r: Scene)
        ensures
            r.shapes@.len() == 0,
            scene_wf(r),
    {
        Scene { shapes: Vec::new() }
    }

    pub fn push(&mut self, s: Shape)
        requires
            shape_wf(s),
            old(self).shapes@.len() < 100000,
            scene_wf(*old(self)),
        ensures
            final(self).shapes@ == old(self).shapes@.push(s),
            scene_wf(*final(self)),
    {
        self.shapes.push(s);
        proof {
            assert forall|i: int| 0 <= i < self.shapes@.len() implies shape_wf(
                #[trigger] self.shapes@[i],
            ) by {
                if i < old(self).shapes@.len() {
                    assert(self.shapes@[i] == old(self).shapes@[i]);
                }
            }
        }
    }

    /// The globally closest hit among all members, if any member reports
    /// one.
    pub fn hit(&self, ray: &Ray, t_min: i64, t_max: i64) -> (res: Option<HitRecord>)
        requires
            scene_wf(*self),
            ray_wf(*ray),
            0 <= t_min <= t_max <= T_LIMIT,
        ensures
            match res {
                Some(rec) => scene_hit_post(*self, *ray, t_min as int, t_max as int, rec),
                None => scene_misses(*self, *ray, t_min as int, t_max as int),
            },
    {
        let mut closest: i64 = t_max;
        let mut best: Option<HitRecord> = None;
        let n: usize = self.shapes.len();
        let mut idx: usize = 0;
        while idx < n
            invariant
                n == self.shapes@.len(),
                0 <= idx <= n,
                scene_wf(*self),
                ray_wf(*ray),
                0 <= t_min <= t_max <= T_LIMIT,
                t_min <= closest <= t_max,
                match best {
                    Some(rec) => {
                        &&& closest == rec.t
                        &&& t_min <= rec.t <= t_max
                        &&& hr_wf(rec)
                        &&& exists|i: int|
                            0 <= i < idx && #[trigger] shape_t(
                                self.shapes@[i],
                                *ray,
                                t_min as int,
                                t_max as int,
                            ) == Some(rec.t as int) && hr_matches(
                                rec,
                                *ray,
                                rec.t as int,
                                shape_outward(self.shapes@[i], *ray, rec.t as int),
                                shape_material(self.shapes@[i]),
                            )
                        &&& forall|j: int|
                            0 <= j < idx ==> match #[trigger] shape_t(
                                self.shapes@[j],
                                *ray,
                                t_min as int,
                                t_max as int,
                            ) {
                                Some(tj) => tj >= rec.t,
                                None => true,
                            }
                    },
                    None => closest == t_max && forall|j: int|
                        0 <= j < idx ==> (#[trigger] shape_t(
                            self.shapes@[j],
                            *ray,
                            t_min as int,
                            t_max as int,
                        )) is None,
                },
            decreases n - idx,
        {
            let sh: Shape = self.shapes[idx];
            let found = sh.hit(ray, t_min, closest);
            match found {
                Some(rec2) => {
                    proof {
                        lemma_shape_widen(sh, *ray, t_min as int, closest as int, t_max as int);
                    }
                    closest = rec2.t;
                    best = Some(rec2);
                },
                None => {
                    proof {
                        match shape_t(sh, *ray, t_min as int, t_max as int) {
                            Some(tj) => {
                                if tj < closest {
                                    lemma_shape_narrow(
                                        sh,
                                        *ray,
                                        t_min as int,
                                        t_max as int,
                                        closest as int,
                                    );
                                    assert(false);
                                }
                            },
                            None => {},
                        }
                    }
                },
            }
            idx = idx + 1;
        }
        best
    }
}

} // verus!
