//! The renderer: the recursive light-transport integrator, the per-pixel
//! sampling loop, and the tone mapping to 8-bit channels.  The sampling
//! draws random jitter, so the pixel contracts quantify over the drawn
//! samples: every outcome is some sequence of per-sample colors, each from
//! a camera ray through the pixel's own footprint and each obeying the
//! integrator's contract, averaged and gamma-encoded exactly.

use vstd::prelude::*;
use crate::fixed::{
    SCALE, sdiv, fmul, clamp_s, sqrt_fp_s, lemma_sqrt_floor, lemma_sdiv_shrink, lemma_sdiv_mono,
    lemma_fmul_bound, lemma_fmul_nonneg, fp_mul, sqrt_fp, sdiv128,
};
use crate::vec3::{Vec3, v3, t_in, t_unit, norm2_raw, in_unit_ball, VMAX};
use crate::ray::{Ray, ray_wf, GEOM_MAX, T_LIMIT};
use crate::hittable::{HitRecord, hr_wf};
use crate::materials::{albedo_wf, scatter_post};
use crate::scene::{Scene, scene_wf, scene_misses, scene_hit_post};
use crate::camera::{Camera, cam_wf, cam_ray_origin, cam_ray_dir};
use crate::utils::{rand_fp_unit, clamp};

verus! {

/// Recursion cap of the light-transport integrator.
pub const MAX_DEPTH: u32 = 50;

/// Shadow-acne epsilon: the least ray parameter a scattered ray may
/// re-intersect at, about a thousandth of a unit.
pub const T_EPS: i64 = 66;

/// Sky gradient endpoint: half intensity red.
pub const SKY_R: i64 = 32768;

/// Sky gradient endpoint: seven tenths intensity green.
pub const SKY_G: i64 = 45875;

/// Every channel of the color lies in `[0, 1]`.
pub open spec fn color_wf(c: Vec3) -> bool {
    0 <= c.x <= SCALE && 0 <= c.y <= SCALE && 0 <= c.z <= SCALE
}

/// The background: a vertical blend from white to sky blue, driven by the
/// normalized direction's height.
pub open spec fn sky_s(d: (int, int, int)) -> (int, int, int) {
    let tt = sdiv(t_unit(d).1 + SCALE, 2);
    (
        SCALE - tt + fmul(tt, SKY_R as int),
        SCALE - tt + fmul(tt, SKY_G as int),
        SCALE - tt + fmul(tt, SCALE as int),
    )
}

/// Gamma-2 encoding then quantization to an 8-bit channel, as the
/// reference pipeline floors `256 * clamp(value, 0, 0.999)`.
pub open spec fn quantize_s(c: int) -> int {
    sdiv(256 * clamp_s(c, 0, 65469), SCALE as int)
}

/// `res` is `att` attenuating `c`, channel by channel.
pub open spec fn attenuated(res: Vec3, att: Vec3, c: Vec3) -> bool {
    v3(res) == (fmul(att.x as int, c.x as int), fmul(att.y as int, c.y as int), fmul(
        att.z as int,
        c.z as int,
    ))
}

/// The integrator met a hit: the result is the scene's closest record's
/// scattered attenuation applied to some further color, as the light
/// transport recursion computes it.
pub open spec fn ray_color_hit(scene: Scene, ray: Ray, res: Vec3) -> bool {
    exists|rec: HitRecord, s: Ray, att: Vec3, c: Vec3|
        #![trigger scatter_post(rec.material, ray, rec, Some((s, att))), attenuated(res, att, c)]
        (scene_hit_post(scene, ray, T_EPS as int, T_LIMIT as int, rec) && scatter_post(
            rec.material,
            ray,
            rec,
            Some((s, att)),
        ) && color_wf(c) && attenuated(res, att, c))
}

/// What the integrator promises of a ray's color, whatever was drawn: a
/// degenerate direction is absorbed; a ray every member misses takes
/// exactly the sky gradient; a ray that hits yields black (absorption or
/// an out-of-range scattered ray) or an attenuated recursive color.
pub open spec fn ray_color_post(scene: Scene, ray: Ray, res: Vec3) -> bool {
    &&& color_wf(res)
    &&& (norm2_raw(v3(ray.direction)) == 0 ==> v3(res) == (0int, 0int, 0int))
    &&& (norm2_raw(v3(ray.direction)) >= 1 && scene_misses(scene, ray, T_EPS as int, T_LIMIT as int)
        ==> v3(res) == sky_s(v3(ray.direction)))
    &&& (norm2_raw(v3(ray.direction)) >= 1 && !scene_misses(
        scene,
        ray,
        T_EPS as int,
        T_LIMIT as int,
    ) ==> (v3(res) == (0int, 0int, 0int) || ray_color_hit(scene, ray, res)))
}

/// The sky color of a (nondegenerate) direction.
pub fn sky_color(d: Vec3) -> (r: Vec3)
    requires
        t_in(v3(d), 0x400_0000_0000),
        norm2_raw(v3(d)) >= 1,
    ensures
        v3(r) == sky_s(v3(d)),
        color_wf(r),
{
    let u = d.normalize();
    let tt: i64 = sdiv128((u.y + SCALE) as i128, 2) as i64;
    proof {
        lemma_sdiv_shrink((u.y + SCALE) as int, 2);
        assert(0 <= tt <= SCALE);
        lemma_fmul_bound(tt as int, 32768, 0x1_0000, 0x1_0000);
        lemma_fmul_bound(tt as int, 45875, 0x1_0000, 0x1_0000);
        lemma_fmul_bound(tt as int, 65536, 0x1_0000, 0x1_0000);
        lemma_fmul_nonneg(tt as int, 32768);
        lemma_fmul_nonneg(tt as int, 45875);
        lemma_fmul_nonneg(tt as int, 65536);
        assert(fmul(tt as int, 32768) <= tt && fmul(tt as int, 45875) <= tt && fmul(
            tt as int,
            65536,
        ) <= tt) by (nonlinear_arith)
            requires
                0 <= tt <= 65536,
                fmul(tt as int, 32768) == sdiv(tt as int * 32768, 65536int),
                fmul(tt as int, 45875) == sdiv(tt as int * 45875, 65536int),
                fmul(tt as int, 65536) == sdiv(tt as int * 65536, 65536int),
                forall|a: int| 0 <= a ==> #[trigger] sdiv(a, 65536int) == a / 65536int,
        ;
    }
    Vec3 {
        x: (SCALE - tt) + fp_mul(tt, SKY_R),
        y: (SCALE - tt) + fp_mul(tt, SKY_G),
        z: (SCALE - tt) + fp_mul(tt, SCALE),
    }
}

/// Componentwise color attenuation.
fn mul_color(a: Vec3, b: Vec3) -> (r: Vec3)
    requires
        color_wf(a),
        color_wf(b),
    ensures
        attenuated(r, a, b),
        color_wf(r),
{
    proof {
        lemma_fmul_bound(a.x as int, b.x as int, 0x1_0000, 0x1_0000);
        lemma_fmul_bound(a.y as int, b.y as int, 0x1_0000, 0x1_0000);
        lemma_fmul_bound(a.z as int, b.z as int, 0x1_0000, 0x1_0000);
        lemma_fmul_nonneg(a.x as int, b.x as int);
        lemma_fmul_nonneg(a.y as int, b.y as int);
        lemma_fmul_nonneg(a.z as int, b.z as int);
        assert(fmul(a.x as int, b.x as int) <= 65536 && fmul(a.y as int, b.y as int) <= 65536
            && fmul(a.z as int, b.z as int) <= 65536) by (nonlinear_arith)
            requires
                0 <= a.x <= 65536 && 0 <= b.x <= 65536,
                0 <= a.y <= 65536 && 0 <= b.y <= 65536,
                0 <= a.z <= 65536 && 0 <= b.z <= 65536,
                fmul(a.x as int, b.x as int) == sdiv(a.x as int * b.x as int, 65536int),
                fmul(a.y as int, b.y as int) == sdiv(a.y as int * b.y as int, 65536int),
                fmul(a.z as int, b.z as int) == sdiv(a.z as int * b.z as int, 65536int),
                forall|p: int| 0 <= p ==> #[trigger] sdiv(p, 65536int) == p / 65536int,
        ;
    }
    Vec3 { x: fp_mul(a.x, b.x), y: fp_mul(a.y, b.y), z: fp_mul(a.z, b.z) }
}

/// One channel to 8 bits.
fn quantize(c: i64) -> (r: u8)
    ensures
        r as int == quantize_s(c as int),
{
    let cc: i64 = clamp(c, 0, 65469);
    let q: i128 = sdiv128((256 * cc) as i128, 65536);
    proof {
        lemma_sdiv_shrink((256 * cc) as int, 65536);
        assert((256 * cc as int) / 65536int <= 255) by (nonlinear_arith)
            requires
                0 <= cc <= 65469,
        ;
    }
    q as u8
}

/// Averaging identical sample values gives the value back, whatever the
/// sample count: a pixel with nothing stochastic in it does not depend on
/// how often it is sampled.
pub proof fn lemma_average_constant(v: int, n: int)
    requires
        n >= 1,
        0 <= v,
    ensures
        sdiv(n * v, n) == v,
{
    assert(n * v >= 0 && (n * v) / n == v) by (nonlinear_arith)
        requires
            n >= 1,
            0 <= v,
    ;
}

/// `u` lies within image cell `idx` of `n`: between the coordinates of
/// the cell's two edges.
pub open spec fn pixel_coord(u: int, idx: int, n: int) -> bool {
    sdiv(idx * (SCALE as int), n) <= u <= sdiv(idx * (SCALE as int) + (SCALE as int) - 1, n)
}

/// One sample of a pixel: a camera ray whose image-plane coordinates lie
/// in the pixel's own footprint (column from the left, row from the top,
/// the vertical axis flipped for the camera), whose color obeys the
/// integrator's contract.
pub open spec fn pixel_sample(
    rend: Renderer,
    scene: Scene,
    cam: Camera,
    col: int,
    row: int,
    c: Vec3,
) -> bool {
    exists|u: int, v: int, rd: Vec3, ray: Ray|
        #![trigger cam_ray_dir(cam, u, v, rd), ray_color_post(scene, ray, c)]
        (pixel_coord(u, col, rend.width as int) && pixel_coord(
            v,
            rend.height - 1 - row,
            rend.height as int,
        ) && in_unit_ball(rd) && rd.z == 0 && v3(ray.origin) == cam_ray_origin(cam, rd) && v3(
            ray.direction,
        ) == cam_ray_dir(cam, u, v, rd) && ray_color_post(scene, ray, c))
}

/// Per-channel sums of a sequence of sample colors.
pub open spec fn sum_x(cs: Seq<Vec3>) -> int
    decreases cs.len(),
{
    if cs.len() == 0 {
        0int
    } else {
        sum_x(cs.drop_last()) + cs.last().x
    }
}

pub open spec fn sum_y(cs: Seq<Vec3>) -> int
    decreases cs.len(),
{
    if cs.len() == 0 {
        0int
    } else {
        sum_y(cs.drop_last()) + cs.last().y
    }
}

pub open spec fn sum_z(cs: Seq<Vec3>) -> int
    decreases cs.len(),
{
    if cs.len() == 0 {
        0int
    } else {
        sum_z(cs.drop_last()) + cs.last().z
    }
}

/// What one output pixel holds: some sequence of per-sample colors, one
/// per configured sample, each a `pixel_sample` of this pixel, whose
/// channel averages are square-rooted (gamma 2) and quantized.
pub open spec fn pixel_post(
    rend: Renderer,
    scene: Scene,
    cam: Camera,
    col: int,
    row: int,
    px: (u8, u8, u8),
) -> bool {
    exists|cs: Seq<Vec3>|
        #![trigger sum_x(cs)]
        (cs.len() == rend.samples_per_pixel && (forall|k: int|
            0 <= k < cs.len() ==> pixel_sample(rend, scene, cam, col, row, #[trigger] cs[k]))
            && px.0 as int == quantize_s(
            sqrt_fp_s(sdiv(sum_x(cs), rend.samples_per_pixel as int)),
        ) && px.1 as int == quantize_s(sqrt_fp_s(sdiv(sum_y(cs), rend.samples_per_pixel as int)))
            && px.2 as int == quantize_s(
            sqrt_fp_s(sdiv(sum_z(cs), rend.samples_per_pixel as int)),
        ))
}

/// Drives the sampling loop over the pixel grid.
pub struct Renderer {
    pub width: usize,
    pub height: usize,
    pub samples_per_pixel: usize,
}

pub open spec fn renderer_wf(r: Renderer) -> bool {
    1 <= r.width <= 10000 && 1 <= r.height <= 10000 && 1 <= r.samples_per_pixel <= 100000
}

impl Renderer {
    pub fn new(width: usize, height: usize, samples_per_pixel: usize) -> (r: Renderer)
        requires
            1 <= width <= 10000,
            1 <= height <= 10000,
            1 <= samples_per_pixel <= 100000,
        ensures
            r.width == width,
            r.height == height,
            r.samples_per_pixel == samples_per_pixel,
            renderer_wf(r),
    {
        Renderer { width, height, samples_per_pixel }
    }

    /// The color a single ray gathers: black past the recursion cap, the
    /// attenuated color of the scattered ray at a hit, the sky otherwise.
    /// A degenerate (zero) direction, or a scattered ray leaving the
    /// representable region, is treated as absorbed.
    pub fn ray_color(&self, ray: &Ray, scene: &Scene, depth: u32) -> (res: Vec3)
        requires
            scene_wf(*scene),
            ray_wf(*ray),
            depth <= MAX_DEPTH,
        ensures
            color_wf(res),
            depth >= MAX_DEPTH ==> v3(res) == (0int, 0int, 0int),
            depth < MAX_DEPTH ==> ray_color_post(*scene, *ray, res),
        decreases MAX_DEPTH - depth,
    {
        if depth >= MAX_DEPTH {
            return Vec3::zero();
        }
        let d = ray.direction;
        if d.x == 0 && d.y == 0 && d.z == 0 {
            proof {
                assert(norm2_raw(v3(d)) == 0);
            }
            return Vec3::zero();
        }
        proof {
            let dv = v3(d);
            assert(dv.0 * dv.0 + dv.1 * dv.1 + dv.2 * dv.2 >= 1) by (nonlinear_arith)
                requires
                    !(dv.0 == 0 && dv.1 == 0 && dv.2 == 0),
            ;
        }
        match scene.hit(ray, T_EPS, T_LIMIT) {
            Some(rec) => {
                proof {
                    let i = choose|i: int|
                        0 <= i < scene.shapes@.len() && #[trigger] crate::scene::shape_t(
                            scene.shapes@[i],
                            *ray,
                            T_EPS as int,
                            T_LIMIT as int,
                        ) == Some(rec.t as int) && crate::hittable::hr_matches(
                            rec,
                            *ray,
                            rec.t as int,
                            crate::scene::shape_outward(scene.shapes@[i], *ray, rec.t as int),
                            crate::scene::shape_material(scene.shapes@[i]),
                        );
                    assert(!scene_misses(*scene, *ray, T_EPS as int, T_LIMIT as int));
                }
                match rec.material.scatter(ray, &rec) {
                    Some((scattered, attenuation)) => {
                        if scattered.in_range() {
                            let c = self.ray_color(&scattered, scene, depth + 1);
                            let res = mul_color(attenuation, c);
                            proof {
                                assert(scatter_post(
                                    rec.material,
                                    *ray,
                                    rec,
                                    Some((scattered, attenuation)),
                                ) && attenuated(res, attenuation, c));
                                assert(ray_color_hit(*scene, *ray, res));
                            }
                            res
                        } else {
                            Vec3::zero()
                        }
                    },
                    None => Vec3::zero(),
                }
            },
            None => sky_color(d),
        }
    }

    /// One pixel: jittered samples through the camera, averaged, then
    /// gamma-2 encoded.  `row` counts from the top of the image.
    pub fn render_pixel(&self, scene: &Scene, camera: &Camera, col: usize, row: usize) -> (px: (
        u8,
        u8,
        u8,
    ))
        requires
            renderer_wf(*self),
            scene_wf(*scene),
            cam_wf(*camera),
            col < self.width,
            row < self.height,
        ensures
            pixel_post(*self, *scene, *camera, col as int, row as int, px),
    {
        let mut sum_r: i64 = 0;
        let mut sum_g: i64 = 0;
        let mut sum_b: i64 = 0;
        let ghost mut cs: Seq<Vec3> = Seq::empty();
        let spp: usize = self.samples_per_pixel;
        let mut s_i: usize = 0;
        while s_i < spp
            invariant
                renderer_wf(*self),
                scene_wf(*scene),
                cam_wf(*camera),
                col < self.width,
                row < self.height,
                spp == self.samples_per_pixel,
                0 <= s_i <= spp,
                0 <= sum_r <= s_i * 65536,
                0 <= sum_g <= s_i * 65536,
                0 <= sum_b <= s_i * 65536,
                cs.len() == s_i,
                sum_r == sum_x(cs),
                sum_g == sum_y(cs),
                sum_b == sum_z(cs),
                forall|k: int|
                    0 <= k < cs.len() ==> pixel_sample(
                        *self,
                        *scene,
                        *camera,
                        col as int,
                        row as int,
                        #[trigger] cs[k],
                    ),
            decreases spp - s_i,
        {
            let u_num: i64 = (col as i64) * SCALE + rand_fp_unit();
            let u: i64 = sdiv128(u_num as i128, self.width as i128) as i64;
            let j: usize = self.height - 1 - row;
            let v_num: i64 = (j as i64) * SCALE + rand_fp_unit();
            let v: i64 = sdiv128(v_num as i128, self.height as i128) as i64;
            proof {
                lemma_sdiv_shrink(u_num as int, self.width as int);
                lemma_sdiv_shrink(v_num as int, self.height as int);
                assert(u_num as int / (self.width as int) <= 65536 && v_num as int / (
                self.height as int) <= 65536) by (nonlinear_arith)
                    requires
                        0 <= u_num < (self.width as int) * 65536 + 65536,
                        0 <= v_num < (self.height as int) * 65536 + 65536,
                        u_num <= (self.width as int - 1) * 65536 + 65535,
                        v_num <= (self.height as int - 1) * 65536 + 65535,
                        1 <= self.width as int,
                        1 <= self.height as int,
                ;
                lemma_sdiv_mono(
                    (col as int) * (SCALE as int),
                    u_num as int,
                    self.width as int,
                );
                lemma_sdiv_mono(
                    u_num as int,
                    (col as int) * (SCALE as int) + (SCALE as int) - 1,
                    self.width as int,
                );
                lemma_sdiv_mono((j as int) * (SCALE as int), v_num as int, self.height as int);
                lemma_sdiv_mono(
                    v_num as int,
                    (j as int) * (SCALE as int) + (SCALE as int) - 1,
                    self.height as int,
                );
            }
            let ray = camera.get_ray(u, v);
            let c = self.ray_color(&ray, scene, 0);
            proof {
                assert((s_i + 1) * 65536 == s_i * 65536 + 65536) by (nonlinear_arith);
                let rd = choose|rd: Vec3|
                    #![trigger v3(rd)]
                    (in_unit_ball(rd) && rd.z == 0 && v3(ray.origin) == cam_ray_origin(*camera, rd)
                        && v3(ray.direction) == cam_ray_dir(*camera, u as int, v as int, rd));
                assert(pixel_coord(u as int, col as int, self.width as int));
                assert(pixel_coord(v as int, self.height - 1 - (row as int), self.height as int));
                assert(ray_color_post(*scene, ray, c));
                assert(pixel_sample(*self, *scene, *camera, col as int, row as int, c));
                let prev = cs;
                cs = cs.push(c);
                assert(cs.drop_last() =~= prev);
                assert(cs.last() == c);
                assert forall|k: int| 0 <= k < cs.len() implies pixel_sample(
                    *self,
                    *scene,
                    *camera,
                    col as int,
                    row as int,
                    #[trigger] cs[k],
                ) by {
                    if k < prev.len() {
                        assert(cs[k] == prev[k]);
                    } else {
                        assert(cs[k] == c);
                    }
                }
            }
            sum_r = sum_r + c.x;
            sum_g = sum_g + c.y;
            sum_b = sum_b + c.z;
            s_i = s_i + 1;
        }
        proof {
            lemma_sdiv_shrink(sum_r as int, spp as int);
            lemma_sdiv_shrink(sum_g as int, spp as int);
            lemma_sdiv_shrink(sum_b as int, spp as int);
            assert(sum_r as int / (spp as int) <= 65536 && sum_g as int / (spp as int) <= 65536
                && sum_b as int / (spp as int) <= 65536) by (nonlinear_arith)
                requires
                    0 <= sum_r <= (spp as int) * 65536,
                    0 <= sum_g <= (spp as int) * 65536,
                    0 <= sum_b <= (spp as int) * 65536,
                    1 <= spp as int,
            ;
        }
        let avg_r: i64 = sdiv128(sum_r as i128, spp as i128) as i64;
        let avg_g: i64 = sdiv128(sum_g as i128, spp as i128) as i64;
        let avg_b: i64 = sdiv128(sum_b as i128, spp as i128) as i64;
        let g_r: i64 = sqrt_fp(avg_r);
        let g_g: i64 = sqrt_fp(avg_g);
        let g_b: i64 = sqrt_fp(avg_b);
        let px = (quantize(g_r), quantize(g_g), quantize(g_b));
        proof {
            assert(cs.len() == self.samples_per_pixel && px.0 as int == quantize_s(
                sqrt_fp_s(sdiv(sum_x(cs), self.samples_per_pixel as int)),
            ) && px.1 as int == quantize_s(
                sqrt_fp_s(sdiv(sum_y(cs), self.samples_per_pixel as int)),
            ) && px.2 as int == quantize_s(
                sqrt_fp_s(sdiv(sum_z(cs), self.samples_per_pixel as int)),
            ));
            assert(pixel_post(*self, *scene, *camera, col as int, row as int, px));
        }
        px
    }

    /// The full pixel grid, row-major from the top-left: entry `k` is the
    /// pixel of column `k % width` and row `k / width`.
    pub fn render(&self, scene: &Scene, camera: &Camera) -> (pixels: Vec<(u8, u8, u8)>)
        requires
            renderer_wf(*self),
            scene_wf(*scene),
            cam_wf(*camera),
        ensures
            pixels@.len() == self.width * self.height,
            forall|k: int|
                0 <= k < pixels@.len() ==> pixel_post(
                    *self,
                    *scene,
                    *camera,
                    k % (self.width as int),
                    k / (self.width as int),
                    #[trigger] pixels@[k],
                ),
    {
        let mut pixels: Vec<(u8, u8, u8)> = Vec::new();
        let mut row: usize = 0;
        while row < self.height
            invariant
                renderer_wf(*self),
                scene_wf(*scene),
                cam_wf(*camera),
                0 <= row <= self.height,
                pixels@.len() == row * self.width,
                forall|k: int|
                    0 <= k < pixels@.len() ==> pixel_post(
                        *self,
                        *scene,
                        *camera,
                        k % (self.width as int),
                        k / (self.width as int),
                        #[trigger] pixels@[k],
                    ),
            decreases self.height - row,
        {
            let mut col: usize = 0;
            while col < self.width
                invariant
                    renderer_wf(*self),
                    scene_wf(*scene),
                    cam_wf(*camera),
                    row < self.height,
                    0 <= col <= self.width,
                    pixels@.len() == row * self.width + col,
                    forall|k: int|
                        0 <= k < pixels@.len() ==> pixel_post(
                            *self,
                            *scene,
                            *camera,
                            k % (self.width as int),
                            k / (self.width as int),
                            #[trigger] pixels@[k],
                        ),
                decreases self.width - col,
            {
                let px = self.render_pixel(scene, camera, col, row);
                proof {
                    assert(row * self.width + self.width <= 10000 * 10000) by (nonlinear_arith)
                        requires
                            row < self.height <= 10000,
                            self.width <= 10000,
                    ;
                    assert(((row as int) * (self.width as int) + (col as int)) % (
                    self.width as int) == col as int && ((row as int) * (self.width as int) + (
                    col as int)) / (self.width as int) == row as int) by (nonlinear_arith)
                        requires
                            0 <= col < self.width as int,
                            0 <= row as int,
                            1 <= self.width as int,
                    ;
                }
                let ghost prev = pixels@;
                pixels.push(px);
                proof {
                    assert forall|k: int| 0 <= k < pixels@.len() implies pixel_post(
                        *self,
                        *scene,
                        *camera,
                        k % (self.width as int),
                        k / (self.width as int),
                        #[trigger] pixels@[k],
                    ) by {
                        if k < prev.len() {
                            assert(pixels@[k] == prev[k]);
                        } else {
                            assert(pixels@[k] == px);
                        }
                    }
                }
                col = col + 1;
            }
            proof {
                assert((row + 1) * self.width == row * self.width + self.width)
                    by (nonlinear_arith);
            }
            row = row + 1;
        }
        proof {
            assert(self.height * self.width == self.width * self.height) by (nonlinear_arith);
        }
        pixels
    }
}

} // verus!
