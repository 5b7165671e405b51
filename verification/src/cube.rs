//! Axis-aligned boxes, and their ray intersection by the slab test.

use vstd::prelude::*;
use crate::fixed::{SCALE, abs_i, sdiv, fmul, fdiv, lemma_sdiv_shrink, lemma_fmul_bound, fp_div};
use crate::vec3::{Vec3, v3, t_in, t_sub, t_neg, t_dot, VMAX};
use crate::ray::{Ray, point_at, ray_wf, GEOM_MAX, T_LIMIT};
use crate::hittable::{HitRecord, hr_wf, hr_matches};
use crate::materials::{Material, mat_wf};

verus! {

/// Tolerance, in fixed-point steps, when matching the hit point to a face.
pub const FACE_EPS: i64 = 8;

/// An axis-aligned box between two corners.
#[derive(Clone, Copy, Debug, PartialEq, Eq, Structural)]
pub struct Cube {
    pub min: Vec3,
    pub max: Vec3,
    pub material: Material,
}

/// Geometry the intersection routine can handle.
pub open spec fn cube_wf(c: Cube) -> bool {
    &&& t_in(v3(c.min), GEOM_MAX as int)
    &&& t_in(v3(c.max), GEOM_MAX as int)
    &&& mat_wf(c.material)
}

/// One slab of the box tightens the running parameter interval.  A ray
/// parallel to the slab (zero direction component) passes iff its origin
/// lies between the slab planes.  An empty interval means no hit.
pub open spec fn slab_update(o: int, d: int, lo: int, hi: int, tmin: int, tmax: int) -> Option<
    (int, int),
> {
    if d == 0 {
        if o < lo || o > hi {
            None
        } else if tmax <= tmin {
            None
        } else {
            Some((tmin, tmax))
        }
    } else {
        let ta = fdiv(lo - o, d);
        let tb = fdiv(hi - o, d);
        let t0 = if ta < tb {
            ta
        } else {
            tb
        };
        let t1 = if ta < tb {
            tb
        } else {
            ta
        };
        let na = if t0 > tmin {
            t0
        } else {
            tmin
        };
        let nb = if t1 < tmax {
            t1
        } else {
            tmax
        };
        if nb <= na {
            None
        } else {
            Some((na, nb))
        }
    }
}

/// The parameter interval left after all three slabs, if not empty.
pub open spec fn cube_interval(c: Cube, r: Ray, tmin: int, tmax: int) -> Option<(int, int)> {
    let o = v3(r.origin);
    let d = v3(r.direction);
    let lo = v3(c.min);
    let hi = v3(c.max);
    match slab_update(o.0, d.0, lo.0, hi.0, tmin, tmax) {
        None => None,
        Some((a0, b0)) => match slab_update(o.1, d.1, lo.1, hi.1, a0, b0) {
            None => None,
            Some((a1, b1)) => slab_update(o.2, d.2, lo.2, hi.2, a1, b1),
        },
    }
}

/// The parameter the intersection test reports: the entry point of the
/// surviving interval.
pub open spec fn cube_t(c: Cube, r: Ray, tmin: int, tmax: int) -> Option<int> {
    match cube_interval(c, r, tmin, tmax) {
        None => None,
        Some((a, b)) => Some(a),
    }
}

/// The outward normal, decided by the first face plane the hit point lies
/// within `FACE_EPS` of, in a fixed axis order; the zero vector when no
/// face matches.
pub open spec fn cube_outward(c: Cube, p: (int, int, int)) -> (int, int, int) {
    if abs_i(p.0 - c.min.x) < FACE_EPS {
        (-(SCALE as int), 0int, 0int)
    } else if abs_i(p.0 - c.max.x) < FACE_EPS {
        (SCALE as int, 0int, 0int)
    } else if abs_i(p.1 - c.min.y) < FACE_EPS {
        (0int, -(SCALE as int), 0int)
    } else if abs_i(p.1 - c.max.y) < FACE_EPS {
        (0int, SCALE as int, 0int)
    } else if abs_i(p.2 - c.min.z) < FACE_EPS {
        (0int, 0int, -(SCALE as int))
    } else if abs_i(p.2 - c.max.z) < FACE_EPS {
        (0int, 0int, SCALE as int)
    } else {
        (0int, 0int, 0int)
    }
}

/// Widening the search interval keeps a hit and its parameter.
pub proof fn lemma_cube_widen(c: Cube, r: Ray, tmin: int, t1: int, t2: int)
    requires
        t1 <= t2,
        cube_t(c, r, tmin, t1) is Some,
    ensures
        cube_t(c, r, tmin, t2) == cube_t(c, r, tmin, t1),
{
}

/// Shrinking the search interval above a hit keeps the hit.
pub proof fn lemma_cube_narrow(c: Cube, r: Ray, tmin: int, t2: int, t1: int)
    requires
        t1 <= t2,
        match cube_t(c, r, tmin, t2) {
            Some(t) => t < t1,
            None => false,
        },
    ensures
        cube_t(c, r, tmin, t1) == cube_t(c, r, tmin, t2),
{
}

/// A slab that rejects an interval rejects every contained interval.
proof fn lemma_slab_none_sub(o: int, d: int, lo: int, hi: int, tmin: int, tmax: int, a: int, b: int)
    requires
        slab_update(o, d, lo, hi, tmin, tmax) is None,
        tmin <= a,
        b <= tmax,
    ensures
        slab_update(o, d, lo, hi, a, b) is None,
{
}

/// The slab of the given axis rejects the whole search interval.
pub open spec fn cube_axis_miss(c: Cube, r: Ray, tmin: int, tmax: int, axis: int) -> bool {
    let o = v3(r.origin);
    let d = v3(r.direction);
    let lo = v3(c.min);
    let hi = v3(c.max);
    if axis == 0 {
        slab_update(o.0, d.0, lo.0, hi.0, tmin, tmax) is None
    } else if axis == 1 {
        slab_update(o.1, d.1, lo.1, hi.1, tmin, tmax) is None
    } else {
        slab_update(o.2, d.2, lo.2, hi.2, tmin, tmax) is None
    }
}

/// A ray that misses any one of the three slabs over the whole search
/// interval misses the box.
pub proof fn lemma_box_slab_miss(c: Cube, r: Ray, tmin: int, tmax: int, axis: int)
    requires
        0 <= axis < 3,
        cube_axis_miss(c, r, tmin, tmax, axis),
    ensures
        cube_t(c, r, tmin, tmax) is None,
{
    let o = v3(r.origin);
    let d = v3(r.direction);
    let lo = v3(c.min);
    let hi = v3(c.max);
    match slab_update(o.0, d.0, lo.0, hi.0, tmin, tmax) {
        None => {},
        Some((a0, b0)) => {
            if axis == 1 {
                lemma_slab_none_sub(o.1, d.1, lo.1, hi.1, tmin, tmax, a0, b0);
            } else {
                match slab_update(o.1, d.1, lo.1, hi.1, a0, b0) {
                    None => {},
                    Some((a1, b1)) => {
                        lemma_slab_none_sub(o.2, d.2, lo.2, hi.2, tmin, tmax, a1, b1);
                    },
                }
            }
        },
    }
}

/// A box hit's outward normal is the zero vector or exactly one axis unit
/// vector.
pub proof fn lemma_box_normal_axis(c: Cube, p: (int, int, int))
    ensures
        cube_outward(c, p) == (0int, 0int, 0int) || cube_outward(c, p) == (
            -(SCALE as int),
            0int,
            0int,
        ) || cube_outward(c, p) == (SCALE as int, 0int, 0int) || cube_outward(c, p) == (
            0int,
            -(SCALE as int),
            0int,
        ) || cube_outward(c, p) == (0int, SCALE as int, 0int) || cube_outward(c, p) == (
            0int,
            0int,
            -(SCALE as int),
        ) || cube_outward(c, p) == (0int, 0int, SCALE as int),
{
}

/// One slab step on machine integers.
fn slab(o: i64, d: i64, lo: i64, hi: i64, tmin: i64, tmax: i64) -> (res: Option<(i64, i64)>)
    requires
        abs_i(o as int) <= GEOM_MAX as int,
        abs_i(d as int) <= GEOM_MAX as int,
        abs_i(lo as int) <= GEOM_MAX as int,
        abs_i(hi as int) <= GEOM_MAX as int,
        0 <= tmin <= T_LIMIT,
        0 <= tmax <= T_LIMIT,
    ensures
        match res {
            Some((a, b)) => slab_update(
                o as int,
                d as int,
                lo as int,
                hi as int,
                tmin as int,
                tmax as int,
            ) == Some((a as int, b as int)) && tmin <= a < b <= tmax,
            None => slab_update(o as int, d as int, lo as int, hi as int, tmin as int, tmax as int)
                is None,
        },
{
    if d == 0 {
        if o < lo || o > hi {
            return None;
        }
        if tmax <= tmin {
            return None;
        }
        return Some((tmin, tmax));
    }
    proof {
        lemma_sdiv_shrink(((lo - o) as int) * (SCALE as int), d as int);
        lemma_sdiv_shrink(((hi - o) as int) * (SCALE as int), d as int);
        assert(abs_i(((lo - o) as int) * (SCALE as int)) <= 0x400_0000_0000_0000_0000)
            by (nonlinear_arith)
            requires
                abs_i((lo - o) as int) <= 0x40_0000_0000,
                SCALE == 65536i64,
        ;
        assert(abs_i(((hi - o) as int) * (SCALE as int)) <= 0x400_0000_0000_0000_0000)
            by (nonlinear_arith)
            requires
                abs_i((hi - o) as int) <= 0x40_0000_0000,
                SCALE == 65536i64,
        ;
    }
    let ta: i64 = fp_div(lo - o, d);
    let tb: i64 = fp_div(hi - o, d);
    let t0: i64 = if ta < tb {
        ta
    } else {
        tb
    };
    let t1: i64 = if ta < tb {
        tb
    } else {
        ta
    };
    let na: i64 = if t0 > tmin {
        t0
    } else {
        tmin
    };
    let nb: i64 = if t1 < tmax {
        t1
    } else {
        tmax
    };
    if nb <= na {
        None
    } else {
        Some((na, nb))
    }
}

impl Cube {
    pub fn new(min: Vec3, max: Vec3, material: Material) -> (r: Cube)
        requires
            t_in(v3(min), GEOM_MAX as int),
            t_in(v3(max), GEOM_MAX as int),
            mat_wf(material),
        ensures
            r.min == min,
            r.max == max,
            r.material == material,
            cube_wf(r),
    {
        Cube { min, max, material }
    }

    /// Nearest intersection with parameter in `[t_min, t_max]`, if any.
    pub fn hit(&self, ray: &Ray, t_min: i64, t_max: i64) -> (res: Option<HitRecord>)
        requires
            cube_wf(*self),
            ray_wf(*ray),
            0 <= t_min <= t_max <= T_LIMIT,
        ensures
            match res {
                Some(rec) => {
                    &&& cube_t(*self, *ray, t_min as int, t_max as int) == Some(rec.t as int)
                    &&& t_min <= rec.t <= t_max
                    &&& hr_matches(
                        rec,
                        *ray,
                        rec.t as int,
                        cube_outward(*self, point_at(*ray, rec.t as int)),
                        self.material,
                    )
                    &&& hr_wf(rec)
                },
                None => cube_t(*self, *ray, t_min as int, t_max as int) is None,
            },
    {
        let s0 = slab(ray.origin.x, ray.direction.x, self.min.x, self.max.x, t_min, t_max);
        let (a0, b0) = match s0 {
            None => { return None; },
            Some(p) => p,
        };
        let s1 = slab(ray.origin.y, ray.direction.y, self.min.y, self.max.y, a0, b0);
        let (a1, b1) = match s1 {
            None => { return None; },
            Some(p) => p,
        };
        let s2 = slab(ray.origin.z, ray.direction.z, self.min.z, self.max.z, a1, b1);
        let (a2, b2) = match s2 {
            None => { return None; },
            Some(p) => p,
        };
        let t: i64 = a2;
        proof {
            lemma_fmul_bound(ray.direction.x as int, t as int, 0x20_0000_0000, 0x400_0000);
            lemma_fmul_bound(ray.direction.y as int, t as int, 0x20_0000_0000, 0x400_0000);
            lemma_fmul_bound(ray.direction.z as int, t as int, 0x20_0000_0000, 0x400_0000);
        }
        let point = ray.point_at_parameter(t);
        let outward = self.face_normal(point);
        Some(HitRecord::new(t, point, outward, ray, self.material))
    }

    /// Pick the outward normal by the first face the point lies near.
    fn face_normal(&self, p: Vec3) -> (r: Vec3)
        requires
            cube_wf(*self),
            t_in(v3(p), 0x1_0000_0000_0000),
        ensures
            v3(r) == cube_outward(*self, v3(p)),
            t_in(v3(r), SCALE as int),
    {
        let mut nx: i64 = 0;
        let mut ny: i64 = 0;
        let mut nz: i64 = 0;
        if abs64(p.x - self.min.x) < FACE_EPS {
            nx = -SCALE;
        } else if abs64(p.x - self.max.x) < FACE_EPS {
            nx = SCALE;
        } else if abs64(p.y - self.min.y) < FACE_EPS {
            ny = -SCALE;
        } else if abs64(p.y - self.max.y) < FACE_EPS {
            ny = SCALE;
        } else if abs64(p.z - self.min.z) < FACE_EPS {
            nz = -SCALE;
        } else if abs64(p.z - self.max.z) < FACE_EPS {
            nz = SCALE;
        }
        Vec3 { x: nx, y: ny, z: nz }
    }
}

/// Magnitude of a machine integer.
fn abs64(x: i64) -> (r: i64)
    requires
        x > i64::MIN,
    ensures
        r == abs_i(x as int),
{
    if x < 0 {
        -x
    } else {
        x
    }
}

} // verus!
