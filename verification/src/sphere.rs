//! Spheres, and their ray intersection by the quadratic root test.

use vstd::prelude::*;
use crate::fixed::{
    SCALE, abs_i, sdiv, fmul, sqrt_fp_s, is_sqrt, lemma_sqrt_floor, lemma_sdiv_shrink,
    lemma_sdiv_mono, lemma_fmul_bound, lemma_fmul_nonneg, lemma_fmul_neg, sdiv128, isqrt_u128,
    fp_mul,
};
use crate::vec3::{Vec3, v3, t_in, t_add, t_sub, t_neg, t_scale, t_dot, t_unit, norm2_raw, VMAX};
use crate::ray::{Ray, point_at, ray_wf, GEOM_MAX, T_LIMIT};
use crate::hittable::{HitRecord, hr_wf, hr_matches};
use crate::materials::{Material, mat_wf};

verus! {

/// A sphere.  A negative radius keeps the same surface but flips the
/// outward normal, which makes hollow shells possible.
#[derive(Clone, Copy, Debug, PartialEq, Eq, Structural)]
pub struct Sphere {
    pub center: Vec3,
    pub radius: i64,
    pub material: Material,
}

/// Geometry the intersection routine can handle.
pub open spec fn sphere_wf(s: Sphere) -> bool {
    &&& t_in(v3(s.center), GEOM_MAX as int)
    &&& 1 <= abs_i(s.radius as int) <= GEOM_MAX as int
    &&& mat_wf(s.material)
}

/// Quadratic coefficient `a = dot(d, d)`.
pub open spec fn sph_a(s: Sphere, r: Ray) -> int {
    t_dot(v3(r.direction), v3(r.direction))
}

/// Vector from the center to the ray origin.
pub open spec fn sph_oc(s: Sphere, r: Ray) -> (int, int, int) {
    t_sub(v3(r.origin), v3(s.center))
}

/// Half the linear coefficient, `dot(oc, d)`.
pub open spec fn sph_half_b(s: Sphere, r: Ray) -> int {
    t_dot(sph_oc(s, r), v3(r.direction))
}

/// Constant coefficient `dot(oc, oc) - radius^2`.
pub open spec fn sph_c(s: Sphere, r: Ray) -> int {
    t_dot(sph_oc(s, r), sph_oc(s, r)) - fmul(s.radius as int, s.radius as int)
}

/// Discriminant of the quarter quadratic.
pub open spec fn sph_disc(s: Sphere, r: Ray) -> int {
    fmul(sph_half_b(s, r), sph_half_b(s, r)) - fmul(sph_a(s, r), sph_c(s, r))
}

/// Square root of the discriminant, as a fixed-point scalar.
pub open spec fn sph_sqrt_d(s: Sphere, r: Ray) -> int {
    sqrt_fp_s(sph_disc(s, r))
}

/// The smaller root of the quadratic.
pub open spec fn sph_root1(s: Sphere, r: Ray) -> int {
    sdiv((-sph_half_b(s, r) - sph_sqrt_d(s, r)) * (SCALE as int), sph_a(s, r))
}

/// The larger root of the quadratic.
pub open spec fn sph_root2(s: Sphere, r: Ray) -> int {
    sdiv((-sph_half_b(s, r) + sph_sqrt_d(s, r)) * (SCALE as int), sph_a(s, r))
}

/// The hit point at parameter `t` is distinct from the center, so the
/// outward normal is defined.
pub open spec fn sph_sep(s: Sphere, r: Ray, t: int) -> bool {
    norm2_raw(t_sub(point_at(r, t), v3(s.center))) >= 1
}

/// The parameter the intersection test reports: the smaller root first,
/// then the larger, whichever lies in `[t_min, t_max]` first.  A hit
/// landing exactly on the center (possible only by rounding) is rejected.
pub open spec fn sphere_t(s: Sphere, r: Ray, t_min: int, t_max: int) -> Option<int> {
    if sph_a(s, r) <= 0 || sph_disc(s, r) <= 0 {
        None
    } else if t_min <= sph_root1(s, r) <= t_max {
        if sph_sep(s, r, sph_root1(s, r)) {
            Some(sph_root1(s, r))
        } else {
            None
        }
    } else if t_min <= sph_root2(s, r) <= t_max {
        if sph_sep(s, r, sph_root2(s, r)) {
            Some(sph_root2(s, r))
        } else {
            None
        }
    } else {
        None
    }
}

/// The outward unit normal at parameter `t`; reversed for a negative
/// radius.
pub open spec fn sphere_outward(s: Sphere, r: Ray, t: int) -> (int, int, int) {
    let u = t_unit(t_sub(point_at(r, t), v3(s.center)));
    if s.radius < 0 {
        t_neg(u)
    } else {
        u
    }
}

/// With a positive leading coefficient the roots are ordered.
pub proof fn lemma_sph_roots(s: Sphere, r: Ray)
    requires
        sph_a(s, r) > 0,
        sph_disc(s, r) > 0,
    ensures
        0 <= sph_sqrt_d(s, r),
        sph_root1(s, r) <= sph_root2(s, r),
{
    lemma_sqrt_floor(sph_disc(s, r) * (SCALE as int));
    lemma_sdiv_mono(
        (-sph_half_b(s, r) - sph_sqrt_d(s, r)) * (SCALE as int),
        (-sph_half_b(s, r) + sph_sqrt_d(s, r)) * (SCALE as int),
        sph_a(s, r),
    );
}

/// Widening the search interval keeps a hit and its parameter.
pub proof fn lemma_sphere_widen(s: Sphere, r: Ray, tmin: int, t1: int, t2: int)
    requires
        t1 <= t2,
        sphere_t(s, r, tmin, t1) is Some,
    ensures
        sphere_t(s, r, tmin, t2) == sphere_t(s, r, tmin, t1),
{
    lemma_sph_roots(s, r);
}

/// Shrinking the search interval above a hit keeps the hit.
pub proof fn lemma_sphere_narrow(s: Sphere, r: Ray, tmin: int, t2: int, t1: int)
    requires
        t1 <= t2,
        match sphere_t(s, r, tmin, t2) {
            Some(t) => t < t1,
            None => false,
        },
    ensures
        sphere_t(s, r, tmin, t1) == sphere_t(s, r, tmin, t2),
{
    lemma_sph_roots(s, r);
}

/// A ray aimed from outside a sphere straight at its center hits it at a
/// strictly positive parameter, and the outward normal there points along
/// the radius, never against it.  The margin conditions rule out only the
/// configurations that fixed-point rounding collapses: a sphere of
/// diameter below the arithmetic's resolution, an origin less than one
/// unit from the center, or a hit landing exactly on the center.
pub proof fn lemma_aim_at_center(s: Sphere, r: Ray, t_max: int)
    requires
        v3(r.direction) == t_neg(sph_oc(s, r)),
        sph_a(s, r) >= SCALE,
        fmul(s.radius as int, s.radius as int) >= 1,
        (SCALE as int) * sph_c(s, r) >= 2 * sph_a(s, r) + 3 * (SCALE as int) * (SCALE as int),
        t_max >= sph_root1(s, r),
        sph_sep(s, r, sph_root1(s, r)),
    ensures
        sphere_t(s, r, 0, t_max) == Some(sph_root1(s, r)),
        sph_root1(s, r) >= 1,
        t_dot(
            t_sub(point_at(r, sph_root1(s, r)), v3(s.center)),
            t_unit(t_sub(point_at(r, sph_root1(s, r)), v3(s.center))),
        ) >= 0,
{
    let oc = sph_oc(s, r);
    let a = sph_a(s, r);
    let c = sph_c(s, r);
    let hb = sph_half_b(s, r);
    let rr = fmul(s.radius as int, s.radius as int);
    let sc: int = SCALE as int;
    // the direction is the negated offset, so the coefficients collapse
    lemma_fmul_neg(oc.0, oc.0);
    lemma_fmul_neg(-oc.0, oc.0);
    lemma_fmul_neg(oc.1, oc.1);
    lemma_fmul_neg(-oc.1, oc.1);
    lemma_fmul_neg(oc.2, oc.2);
    lemma_fmul_neg(-oc.2, oc.2);
    assert(a == t_dot(oc, oc));
    assert(hb == -a);
    lemma_fmul_neg(a, a);
    lemma_fmul_neg(-a, a);
    assert(c == a - rr);
    assert(c >= 1);
    let big = a * a;
    let small = a * c;
    assert(big >= 0 && small >= 0 && big >= small + sc && a * rr + sc > big - small)
        by (nonlinear_arith)
        requires
            a >= sc,
            c >= 1,
            rr >= 1,
            c == a - rr,
            sc == 65536,
            big == a * a,
            small == a * c,
    ;
    lemma_sdiv_shrink(big, sc);
    lemma_sdiv_shrink(small, sc);
    let disc = sph_disc(s, r);
    assert(disc == sdiv(big, sc) - sdiv(small, sc));
    assert(disc >= 1 && sc * disc <= a * rr + 2 * sc - 2 && sc * disc <= big) by (nonlinear_arith)
        requires
            disc == big / sc - small / sc,
            big == sc * (big / sc) + big % sc,
            small == sc * (small / sc) + small % sc,
            0 <= big % sc < sc,
            0 <= small % sc < sc,
            big >= small + sc,
            big >= 0,
            small >= 0,
            sc == 65536,
            a * rr + sc > big - small,
    ;
    // the root of the discriminant stays below `a` with a unit to spare
    let sq = sph_sqrt_d(s, r);
    lemma_sqrt_floor(disc * sc);
    let adiv = a / sc;
    assert(adiv >= 1 && sc * adiv <= a && a < sc * adiv + sc) by (nonlinear_arith)
        requires
            a >= sc,
            sc == 65536,
            adiv == a / sc,
    ;
    assert(sc * rr <= sc * a - 2 * a - 3 * sc * sc) by (nonlinear_arith)
        requires
            sc * c >= 2 * a + 3 * sc * sc,
            c == a - rr,
            sc == 65536,
    ;
    assert(rr <= a - 2 * adiv - 3 * sc) by (nonlinear_arith)
        requires
            sc * rr <= sc * a - 2 * a - 3 * sc * sc,
            sc * adiv <= a,
            sc == 65536,
    ;
    assert(disc * sc < (a - adiv) * (a - adiv)) by (nonlinear_arith)
        requires
            sc * disc <= a * rr + 2 * sc - 2,
            rr <= a - 2 * adiv - 3 * sc,
            a == sc * adiv + a % sc,
            0 <= a % sc < sc,
            a >= sc,
            sc == 65536,
            adiv >= 1,
    ;
    assert(sq <= a - adiv - 1) by (nonlinear_arith)
        requires
            is_sqrt(disc * sc, sq),
            disc * sc < (a - adiv) * (a - adiv),
            a - adiv >= 1,
    ;
    // hence the near root is at least one
    let num = (-hb - sq) * sc;
    assert(num >= a) by (nonlinear_arith)
        requires
            num == (a - sq) * sc,
            sq <= a - adiv - 1,
            a == sc * adiv + a % sc,
            0 <= a % sc < sc,
            sc == 65536,
    ;
    lemma_sdiv_shrink(num, a);
    assert(num / a >= 1) by (nonlinear_arith)
        requires
            num >= a,
            a >= 1,
    ;
    assert(sph_root1(s, r) >= 1);
    assert(sq <= a && 0 <= sq);
    lemma_sph_roots(s, r);
    assert(sphere_t(s, r, 0, t_max) == Some(sph_root1(s, r)));
    crate::vec3::lemma_unit_dot_nonneg(t_sub(point_at(r, sph_root1(s, r)), v3(s.center)));
}

/// A sphere of negated radius intersects at the same parameters with the
/// outward normal reversed: the hollow-shell construction.  The reversed
/// outward normal negates its angle with the ray, so the stored record's
/// orientation flag flips whenever that angle is not exactly square.
pub proof fn lemma_hollow_shell(s: Sphere, s2: Sphere, r: Ray, tmin: int, tmax: int, t: int)
    requires
        s2.center == s.center,
        s2.material == s.material,
        s2.radius as int == -(s.radius as int),
        s.radius != 0,
    ensures
        sphere_t(s2, r, tmin, tmax) == sphere_t(s, r, tmin, tmax),
        sphere_outward(s2, r, t) == t_neg(sphere_outward(s, r, t)),
        t_dot(v3(r.direction), sphere_outward(s2, r, t)) == -t_dot(
            v3(r.direction),
            sphere_outward(s, r, t),
        ),
{
    crate::hittable::lemma_t_dot_neg(v3(r.direction), sphere_outward(s, r, t));
    assert((s2.radius as int) * (s2.radius as int) == (s.radius as int) * (s.radius as int))
        by (nonlinear_arith)
        requires
            s2.radius as int == -(s.radius as int),
    ;
    assert(sph_c(s2, r) == sph_c(s, r));
    assert(sph_disc(s2, r) == sph_disc(s, r));
    let u = t_unit(t_sub(point_at(r, t), v3(s.center)));
    assert(t_neg(t_neg(u)) == u);
}

impl Sphere {
    pub fn new(center: Vec3, radius: i64, material: Material) -> (r: Sphere)
        requires
            t_in(v3(center), GEOM_MAX as int),
            1 <= abs_i(radius as int) <= GEOM_MAX as int,
            mat_wf(material),
        ensures
            r.center == center,
            r.radius == radius,
            r.material == material,
            sphere_wf(r),
    {
        Sphere { center, radius, material }
    }

    /// Nearest intersection with parameter in `[t_min, t_max]`, if any.
    pub fn hit(&self, ray: &Ray, t_min: i64, t_max: i64) -> (res: Option<HitRecord>)
        requires
            sphere_wf(*self),
            ray_wf(*ray),
            0 <= t_min <= t_max <= T_LIMIT,
        ensures
            match res {
                Some(rec) => {
                    &&& sphere_t(*self, *ray, t_min as int, t_max as int) == Some(rec.t as int)
                    &&& t_min <= rec.t <= t_max
                    &&& hr_matches(
                        rec,
                        *ray,
                        rec.t as int,
                        sphere_outward(*self, *ray, rec.t as int),
                        self.material,
                    )
                    &&& hr_wf(rec)
                },
                None => sphere_t(*self, *ray, t_min as int, t_max as int) is None,
            },
    {
        let oc = ray.origin.v_sub(self.center);
        let a: i64 = ray.direction.v_dot(ray.direction);
        proof {
            lemma_fmul_nonneg(ray.direction.x as int, ray.direction.x as int);
            lemma_fmul_nonneg(ray.direction.y as int, ray.direction.y as int);
            lemma_fmul_nonneg(ray.direction.z as int, ray.direction.z as int);
            lemma_fmul_bound(self.radius as int, self.radius as int, GEOM_MAX as int, GEOM_MAX as int);
            assert((GEOM_MAX as int) * (GEOM_MAX as int) == 0x400_0000_0000_0000_0000)
                by (nonlinear_arith)
                requires
                    GEOM_MAX == 0x20_0000_0000i64,
            ;
        }
        let half_b: i64 = oc.v_dot(ray.direction);
        let c: i64 = oc.v_dot(oc) - fp_mul(self.radius, self.radius);
        if a == 0 {
            return None;
        }
        proof {
            assert((half_b as i128) * (half_b as i128) == (half_b as int) * (half_b as int)
                && abs_i((half_b as int) * (half_b as int)) < 0x4000_0000_0000_0000_0000_0000_0000_0000)
                by (nonlinear_arith)
                requires
                    abs_i(half_b as int) <= 0x3000_0000_0000_0000,
            ;
            assert((a as i128) * (c as i128) == (a as int) * (c as int) && abs_i(
                (a as int) * (c as int),
            ) < 0x4000_0000_0000_0000_0000_0000_0000_0000) by (nonlinear_arith)
                requires
                    abs_i(a as int) <= 0x3000_0000_0000_0000,
                    abs_i(c as int) <= 0x4000_0000_0000_0000,
            ;
        }
        let hb2: i128 = sdiv128((half_b as i128) * (half_b as i128), 65536);
        let ac: i128 = sdiv128((a as i128) * (c as i128), 65536);
        proof {
            lemma_fmul_bound(
                half_b as int,
                half_b as int,
                0x3000_0000_0000_0000,
                0x3000_0000_0000_0000,
            );
            lemma_fmul_bound(a as int, c as int, 0x3000_0000_0000_0000, 0x4000_0000_0000_0000);
        }
        let disc: i128 = hb2 - ac;
        if disc <= 0 {
            return None;
        }
        proof {
            assert(disc as int == sph_disc(*self, *ray));
            assert(disc * 65536 < 0x1_0000_0000_0000_0000_0000_0000_0000_0000) by (nonlinear_arith)
                requires
                    0 < disc < 0x1_0000_0000_0000_0000_0000_0000_0000,
            ;
        }
        let sq: u64 = isqrt_u128((disc as u128) * 65536);
        proof {
            lemma_sqrt_floor(disc as int * (SCALE as int));
            assert((disc as u128) * 65536 == disc as int * (SCALE as int));
            assert(sq as int <= 0x1_0000_0000_0000_0000) by (nonlinear_arith)
                requires
                    is_sqrt(disc as int * (SCALE as int), sq as int),
                    disc as int * (SCALE as int) < 0x1_0000_0000_0000_0000_0000_0000_0000_0000,
            ;
            assert(sq as int == sph_sqrt_d(*self, *ray));
        }
        let sqrt_d: i128 = sq as i128;
        let num1: i128 = ((-half_b) as i128 - sqrt_d) * 65536;
        let root1: i128 = sdiv128(num1, a as i128);
        proof {
            assert(num1 == (-sph_half_b(*self, *ray) - sph_sqrt_d(*self, *ray)) * (SCALE as int));
            assert(root1 == sph_root1(*self, *ray));
        }
        if t_min as i128 <= root1 && root1 <= t_max as i128 {
            return self.finish(ray, root1 as i64, t_min, t_max);
        }
        let num2: i128 = ((-half_b) as i128 + sqrt_d) * 65536;
        let root2: i128 = sdiv128(num2, a as i128);
        proof {
            assert(root2 == sph_root2(*self, *ray));
        }
        if t_min as i128 <= root2 && root2 <= t_max as i128 {
            return self.finish(ray, root2 as i64, t_min, t_max);
        }
        None
    }

    /// Build the record for an in-range root.
    fn finish(&self, ray: &Ray, t: i64, t_min: i64, t_max: i64) -> (res: Option<HitRecord>)
        requires
            sphere_wf(*self),
            ray_wf(*ray),
            0 <= t_min <= t_max <= T_LIMIT,
            t_min <= t <= t_max,
            sphere_t(*self, *ray, t_min as int, t_max as int) == if sph_sep(
                *self,
                *ray,
                t as int,
            ) {
                Some(t as int)
            } else {
                None::<int>
            },
        ensures
            match res {
                Some(rec) => {
                    &&& sphere_t(*self, *ray, t_min as int, t_max as int) == Some(rec.t as int)
                    &&& t_min <= rec.t <= t_max
                    &&& hr_matches(
                        rec,
                        *ray,
                        rec.t as int,
                        sphere_outward(*self, *ray, rec.t as int),
                        self.material,
                    )
                    &&& hr_wf(rec)
                },
                None => sphere_t(*self, *ray, t_min as int, t_max as int) is None,
            },
    {
        proof {
            lemma_fmul_bound(ray.direction.x as int, t as int, 0x20_0000_0000, 0x400_0000);
            lemma_fmul_bound(ray.direction.y as int, t as int, 0x20_0000_0000, 0x400_0000);
            lemma_fmul_bound(ray.direction.z as int, t as int, 0x20_0000_0000, 0x400_0000);
        }
        let point = ray.point_at_parameter(t);
        let w = point.v_sub(self.center);
        let wx: bool = w.x == 0 && w.y == 0 && w.z == 0;
        proof {
            let wv = v3(w);
            assert(wv.0 * wv.0 + wv.1 * wv.1 + wv.2 * wv.2 >= 0 && ((wv.0 == 0 && wv.1 == 0
                && wv.2 == 0) <==> wv.0 * wv.0 + wv.1 * wv.1 + wv.2 * wv.2 == 0))
                by (nonlinear_arith);
            assert(wx <==> !sph_sep(*self, *ray, t as int));
        }
        if wx {
            return None;
        }
        let u = w.normalize();
        let outward = if self.radius < 0 {
            u.v_neg()
        } else {
            u
        };
        Some(HitRecord::new(t, point, outward, ray, self.material))
    }
}

} // verus!
