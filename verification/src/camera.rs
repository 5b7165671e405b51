//! The camera: maps normalized image-plane coordinates, plus a lens
//! jitter, to a world-space ray.  The vertical field of view enters as the
//! tangent of its half angle, a fixed-point scalar.

use vstd::prelude::*;
use crate::fixed::{SCALE, fmul, lemma_fmul_bound, lemma_fmul_unit, fp_mul, sdiv128};
use crate::vec3::{Vec3, v3, t_in, t_add, t_sub, t_neg, t_scale, t_cross, t_unit, norm2_raw, in_unit_ball, VMAX};
use crate::ray::{Ray, ray_wf, GEOM_MAX};
use crate::utils::random_in_unit_disk;

verus! {

/// Bound on the camera placement coordinates.
pub const CAM_MAX: i64 = 0x4000_0000;

/// Bound on the field-of-view tangent, the aspect ratio and the focus
/// distance.
pub const CAM_TAN_MAX: i64 = 0x8_0000;

/// Bound on the focus distance.
pub const CAM_FOCUS_MAX: i64 = 0x100_0000;

/// The forward basis vector, from the target toward the eye.
pub open spec fn cam_w(lookfrom: Vec3, lookat: Vec3) -> (int, int, int) {
    t_unit(t_sub(v3(lookfrom), v3(lookat)))
}

/// The rightward basis vector.
pub open spec fn cam_u(lookfrom: Vec3, lookat: Vec3, vup: Vec3) -> (int, int, int) {
    t_unit(t_cross(v3(vup), cam_w(lookfrom, lookat)))
}

/// The upward basis vector.
pub open spec fn cam_v(lookfrom: Vec3, lookat: Vec3, vup: Vec3) -> (int, int, int) {
    t_cross(cam_w(lookfrom, lookat), cam_u(lookfrom, lookat, vup))
}

/// Immutable camera configuration, derived once at construction.
#[derive(Clone, Copy, Debug, PartialEq, Eq, Structural)]
pub struct Camera {
    pub origin: Vec3,
    pub lower_left_corner: Vec3,
    pub horizontal: Vec3,
    pub vertical: Vec3,
    pub u: Vec3,
    pub v: Vec3,
    pub w: Vec3,
    pub lens_radius: i64,
}

/// Bounds that construction establishes and `get_ray` relies on.
pub open spec fn cam_wf(c: Camera) -> bool {
    &&& t_in(v3(c.origin), CAM_MAX as int)
    &&& t_in(v3(c.lower_left_corner), 0x4_0000_0000)
    &&& t_in(v3(c.horizontal), 0x2_0000_0000)
    &&& t_in(v3(c.vertical), 0x4_0000_0000)
    &&& t_in(v3(c.u), 0x1_0000)
    &&& t_in(v3(c.v), 0x2_0000)
    &&& t_in(v3(c.w), 0x1_0000)
    &&& 0 <= c.lens_radius <= 0x10_0000
}

/// The jittered ray origin for a lens sample `rd`.
pub open spec fn cam_ray_origin(c: Camera, rd: Vec3) -> (int, int, int) {
    let off = t_add(
        t_scale(v3(c.u), fmul(rd.x as int, c.lens_radius as int)),
        t_scale(v3(c.v), fmul(rd.y as int, c.lens_radius as int)),
    );
    t_add(v3(c.origin), off)
}

/// The ray direction through image-plane point `(s, t)` from the jittered
/// origin.
pub open spec fn cam_ray_dir(c: Camera, s: int, t: int, rd: Vec3) -> (int, int, int) {
    t_sub(
        t_add(
            t_add(v3(c.lower_left_corner), t_scale(v3(c.horizontal), s)),
            t_scale(v3(c.vertical), t),
        ),
        cam_ray_origin(c, rd),
    )
}

impl Camera {
    /// Derive the orthonormal basis and image-plane extents.
    /// `half_height` is the tangent of half the vertical field of view.
    #[verifier::rlimit(100)]
    #[verifier::spinoff_prover]
    pub fn new(
        lookfrom: Vec3,
        lookat: Vec3,
        vup: Vec3,
        half_height: i64,
        aspect: i64,
        aperture: i64,
        focus_dist: i64,
    ) -> (c: Camera)
        requires
            t_in(v3(lookfrom), CAM_MAX as int),
            t_in(v3(lookat), CAM_MAX as int),
            t_in(v3(vup), CAM_MAX as int),
            norm2_raw(t_sub(v3(lookfrom), v3(lookat))) >= 1,
            norm2_raw(t_cross(v3(vup), cam_w(lookfrom, lookat))) >= 1,
            0 <= half_height <= CAM_TAN_MAX,
            0 <= aspect <= CAM_TAN_MAX,
            0 <= aperture <= 0x20_0000,
            1 <= focus_dist <= CAM_FOCUS_MAX,
        ensures
            cam_wf(c),
            c.origin == lookfrom,
            v3(c.w) == cam_w(lookfrom, lookat),
            v3(c.u) == cam_u(lookfrom, lookat, vup),
            v3(c.v) == cam_v(lookfrom, lookat, vup),
            c.lens_radius == aperture / 2,
            v3(c.horizontal) == t_scale(
                cam_u(lookfrom, lookat, vup),
                2 * fmul(fmul(aspect as int, half_height as int), focus_dist as int),
            ),
            v3(c.vertical) == t_scale(
                cam_v(lookfrom, lookat, vup),
                2 * fmul(half_height as int, focus_dist as int),
            ),
            v3(c.lower_left_corner) == t_sub(
                t_sub(
                    t_sub(
                        v3(lookfrom),
                        t_scale(
                            cam_u(lookfrom, lookat, vup),
                            fmul(fmul(aspect as int, half_height as int), focus_dist as int),
                        ),
                    ),
                    t_scale(
                        cam_v(lookfrom, lookat, vup),
                        fmul(half_height as int, focus_dist as int),
                    ),
                ),
                t_scale(cam_w(lookfrom, lookat), focus_dist as int),
            ),
    {
        let w = lookfrom.v_sub(lookat).normalize();
        proof {
            lemma_fmul_bound(vup.x as int, w.y as int, 0x4000_0000, 0x1_0000);
            lemma_fmul_bound(vup.x as int, w.z as int, 0x4000_0000, 0x1_0000);
            lemma_fmul_bound(vup.y as int, w.x as int, 0x4000_0000, 0x1_0000);
            lemma_fmul_bound(vup.y as int, w.z as int, 0x4000_0000, 0x1_0000);
            lemma_fmul_bound(vup.z as int, w.x as int, 0x4000_0000, 0x1_0000);
            lemma_fmul_bound(vup.z as int, w.y as int, 0x4000_0000, 0x1_0000);
        }
        let u = vup.v_cross(w).normalize();
        let v = w.v_cross(u);
        proof {
            lemma_fmul_bound(w.y as int, u.z as int, 0x1_0000, 0x1_0000);
            lemma_fmul_bound(w.z as int, u.y as int, 0x1_0000, 0x1_0000);
            lemma_fmul_bound(w.z as int, u.x as int, 0x1_0000, 0x1_0000);
            lemma_fmul_bound(w.x as int, u.z as int, 0x1_0000, 0x1_0000);
            lemma_fmul_bound(w.x as int, u.y as int, 0x1_0000, 0x1_0000);
            lemma_fmul_bound(w.y as int, u.x as int, 0x1_0000, 0x1_0000);
        }
        proof {
            lemma_fmul_bound(aspect as int, half_height as int, 0x8_0000, 0x8_0000);
        }
        let half_width: i64 = fp_mul(aspect, half_height);
        proof {
            lemma_fmul_bound(half_width as int, focus_dist as int, 0x40_0000, 0x100_0000);
            lemma_fmul_bound(half_height as int, focus_dist as int, 0x8_0000, 0x100_0000);
        }
        let hwf: i64 = fp_mul(half_width, focus_dist);
        let hhf: i64 = fp_mul(half_height, focus_dist);
        proof {
            lemma_fmul_bound(u.x as int, hwf as int, 0x1_0000, 0x4000_0000);
            lemma_fmul_bound(u.y as int, hwf as int, 0x1_0000, 0x4000_0000);
            lemma_fmul_bound(u.z as int, hwf as int, 0x1_0000, 0x4000_0000);
            lemma_fmul_bound(v.x as int, hhf as int, 0x2_0000, 0x800_0000);
            lemma_fmul_bound(v.y as int, hhf as int, 0x2_0000, 0x800_0000);
            lemma_fmul_bound(v.z as int, hhf as int, 0x2_0000, 0x800_0000);
            lemma_fmul_bound(w.x as int, focus_dist as int, 0x1_0000, 0x100_0000);
            lemma_fmul_bound(w.y as int, focus_dist as int, 0x1_0000, 0x100_0000);
            lemma_fmul_bound(w.z as int, focus_dist as int, 0x1_0000, 0x100_0000);
            lemma_fmul_bound(u.x as int, (2 * hwf) as int, 0x1_0000, 0x8000_0000);
            lemma_fmul_bound(u.y as int, (2 * hwf) as int, 0x1_0000, 0x8000_0000);
            lemma_fmul_bound(u.z as int, (2 * hwf) as int, 0x1_0000, 0x8000_0000);
            lemma_fmul_bound(v.x as int, (2 * hhf) as int, 0x2_0000, 0x1000_0000);
            lemma_fmul_bound(v.y as int, (2 * hhf) as int, 0x2_0000, 0x1000_0000);
            lemma_fmul_bound(v.z as int, (2 * hhf) as int, 0x2_0000, 0x1000_0000);
        }
        let lens_radius: i64 = sdiv128(aperture as i128, 2) as i64;
        proof {
            crate::fixed::lemma_sdiv_shrink(aperture as int, 2);
        }
        let lower_left_corner = lookfrom.v_sub(u.v_scale(hwf)).v_sub(v.v_scale(hhf)).v_sub(
            w.v_scale(focus_dist),
        );
        let horizontal = u.v_scale(2 * hwf);
        let vertical = v.v_scale(2 * hhf);
        Camera {
            origin: lookfrom,
            lower_left_corner,
            horizontal,
            vertical,
            u,
            v,
            w,
            lens_radius,
        }
    }

    /// The jittered ray origin for the lens sample `rd`.
    fn jittered_origin(&self, rd: Vec3) -> (o: Vec3)
        requires
            cam_wf(*self),
            t_in(v3(rd), SCALE as int),
        ensures
            v3(o) == cam_ray_origin(*self, rd),
            t_in(v3(o), 0x4100_0000),
            self.lens_radius == 0 ==> v3(o) == v3(self.origin),
    {
        proof {
            lemma_fmul_bound(rd.x as int, self.lens_radius as int, 0x1_0000, 0x10_0000);
            lemma_fmul_bound(rd.y as int, self.lens_radius as int, 0x1_0000, 0x10_0000);
        }
        let rdx: i64 = fp_mul(rd.x, self.lens_radius);
        let rdy: i64 = fp_mul(rd.y, self.lens_radius);
        proof {
            lemma_fmul_bound(self.u.x as int, rdx as int, 0x1_0000, 0x10_0000);
            lemma_fmul_bound(self.u.y as int, rdx as int, 0x1_0000, 0x10_0000);
            lemma_fmul_bound(self.u.z as int, rdx as int, 0x1_0000, 0x10_0000);
            lemma_fmul_bound(self.v.x as int, rdy as int, 0x2_0000, 0x10_0000);
            lemma_fmul_bound(self.v.y as int, rdy as int, 0x2_0000, 0x10_0000);
            lemma_fmul_bound(self.v.z as int, rdy as int, 0x2_0000, 0x10_0000);
            if self.lens_radius == 0 {
                lemma_fmul_unit(rd.x as int);
                lemma_fmul_unit(rd.y as int);
                lemma_fmul_unit(self.lens_radius as int);
                lemma_fmul_unit(self.u.x as int);
                lemma_fmul_unit(self.u.y as int);
                lemma_fmul_unit(self.u.z as int);
                lemma_fmul_unit(self.v.x as int);
                lemma_fmul_unit(self.v.y as int);
                lemma_fmul_unit(self.v.z as int);
            }
        }
        let offset = self.u.v_scale(rdx).v_add(self.v.v_scale(rdy));
        self.origin.v_add(offset)
    }

    /// The world-space ray through normalized image-plane point `(s, t)`,
    /// jittered across the lens aperture.  A zero aperture is an exact
    /// pinhole: no jitter at all.
    #[verifier::rlimit(100)]
    pub fn get_ray(&self, s: i64, t: i64) -> (r: Ray)
        requires
            cam_wf(*self),
            0 <= s <= SCALE,
            0 <= t <= SCALE,
        ensures
            ray_wf(r),
            exists|rd: Vec3|
                #![trigger v3(rd)]
                (in_unit_ball(rd) && rd.z == 0 && v3(r.origin) == cam_ray_origin(*self, rd) && v3(
                    r.direction,
                ) == cam_ray_dir(*self, s as int, t as int, rd)),
            self.lens_radius == 0 ==> v3(r.origin) == v3(self.origin) && v3(r.direction)
                == cam_ray_dir(*self, s as int, t as int, Vec3 { x: 0, y: 0, z: 0 }),
    {
        let rd = random_in_unit_disk();
        let origin2 = self.jittered_origin(rd);
        proof {
            lemma_fmul_bound(self.horizontal.x as int, s as int, 0x2_0000_0000, 0x1_0000);
            lemma_fmul_bound(self.horizontal.y as int, s as int, 0x2_0000_0000, 0x1_0000);
            lemma_fmul_bound(self.horizontal.z as int, s as int, 0x2_0000_0000, 0x1_0000);
            lemma_fmul_bound(self.vertical.x as int, t as int, 0x4_0000_0000, 0x1_0000);
            lemma_fmul_bound(self.vertical.y as int, t as int, 0x4_0000_0000, 0x1_0000);
            lemma_fmul_bound(self.vertical.z as int, t as int, 0x4_0000_0000, 0x1_0000);
            if self.lens_radius == 0 {
                let z = Vec3 { x: 0, y: 0, z: 0 };
                lemma_fmul_bound(z.x as int, self.lens_radius as int, 0x1_0000, 0x10_0000);
                lemma_fmul_unit(self.lens_radius as int);
                lemma_fmul_unit(self.u.x as int);
                lemma_fmul_unit(self.u.y as int);
                lemma_fmul_unit(self.u.z as int);
                lemma_fmul_unit(self.v.x as int);
                lemma_fmul_unit(self.v.y as int);
                lemma_fmul_unit(self.v.z as int);
                assert(cam_ray_origin(*self, z) == v3(self.origin));
            }
        }
        let dir = self.lower_left_corner.v_add(self.horizontal.v_scale(s)).v_add(
            self.vertical.v_scale(t),
        ).v_sub(origin2);
        Ray::new(origin2, dir)
    }
}

} // verus!
