//! Rays: an origin and a direction, both fixed-point vectors.

use vstd::prelude::*;
use crate::fixed::{abs_i, fmul};
use crate::vec3::{Vec3, v3, t_in, t_add, t_scale, VMAX};

verus! {

/// Bound on the coordinates of scene geometry and of ray vectors.
pub const GEOM_MAX: i64 = 0x20_0000_0000;

/// Bound on the ray parameters an intersection search may use.
pub const T_LIMIT: i64 = 0x400_0000;

/// A ray whose vectors the intersection routines can handle.
pub open spec fn ray_wf(r: Ray) -> bool {
    t_in(v3(r.origin), GEOM_MAX as int) && t_in(v3(r.direction), GEOM_MAX as int)
}

/// A half-line `origin + t * direction`, `t >= 0`.
#[derive(Clone, Copy, Debug, PartialEq, Eq, Structural)]
pub struct Ray {
    pub origin: Vec3,
    pub direction: Vec3,
}

/// The point a ray reaches at parameter `t`, as a spec.
pub open spec fn point_at(r: Ray, t: int) -> (int, int, int) {
    t_add(v3(r.origin), t_scale(v3(r.direction), t))
}

impl Ray {
    /// Whether the intersection routines can handle this ray.
    pub fn in_range(&self) -> (b: bool)
        ensures
            b == ray_wf(*self),
    {
        -GEOM_MAX <= self.origin.x && self.origin.x <= GEOM_MAX && -GEOM_MAX <= self.origin.y
            && self.origin.y <= GEOM_MAX && -GEOM_MAX <= self.origin.z && self.origin.z <= GEOM_MAX
            && -GEOM_MAX <= self.direction.x && self.direction.x <= GEOM_MAX && -GEOM_MAX
            <= self.direction.y && self.direction.y <= GEOM_MAX && -GEOM_MAX <= self.direction.z
            && self.direction.z <= GEOM_MAX
    }

    pub fn new(origin: Vec3, direction: Vec3) -> (r: Ray)
        ensures
            r.origin == origin,
            r.direction == direction,
    {
        Ray { origin, direction }
    }

    /// The point this ray reaches at parameter `t`.
    pub fn point_at_parameter(&self, t: i64) -> (r: Vec3)
        requires
            t_in(v3(self.origin), 0x1000_0000_0000_0000),
            t_in(v3(self.direction), VMAX as int),
            abs_i(t as int) <= VMAX as int,
        ensures
            v3(r) == point_at(*self, t as int),
    {
        self.origin.v_add(self.direction.v_scale(t))
    }
}

} // verus!
