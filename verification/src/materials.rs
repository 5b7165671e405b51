//! The material model: diffuse, reflective-with-fuzz and dielectric
//! scattering.  Scattering draws random offsets; each contract states what
//! holds of the result whatever was drawn, and pins the result exactly
//! where the draw does not matter (zero fuzz, total internal reflection).

use vstd::prelude::*;
use crate::fixed::{
    SCALE, abs_i, sdiv, fmul, fdiv, clamp_s, sqrt_fp_s, is_sqrt, sqrt_floor, lemma_sqrt_floor,
    lemma_sqrt_mono, lemma_sqrt_square, lemma_sdiv_shrink, lemma_fmul_bound, lemma_fmul_unit,
    lemma_fmul_nonneg, fp_mul, fp_div, sqrt_fp,
};
use crate::vec3::{
    Vec3, v3, t_in, t_add, t_sub, t_neg, t_scale, t_dot, t_unit, norm2_raw, in_unit_ball, VMAX,
};
use crate::ray::Ray;
use crate::hittable::HitRecord;
use crate::utils::{random_in_unit_sphere, random_unit_vector, rand_fp_unit, clamp};

verus! {

/// Diffuse (Lambertian) surface.
#[derive(Clone, Copy, Debug, PartialEq, Eq, Structural)]
pub struct Lambertian {
    pub albedo: Vec3,
}

/// Reflective surface with a roughness in `[0, 1]`.
#[derive(Clone, Copy, Debug, PartialEq, Eq, Structural)]
pub struct Metal {
    pub albedo: Vec3,
    pub fuzz: i64,
}

/// Clear refractive surface.
#[derive(Clone, Copy, Debug, PartialEq, Eq, Structural)]
pub struct Dielectric {
    pub ref_idx: i64,
}

/// The closed set of material behaviours, dispatched by matching.
#[derive(Clone, Copy, Debug, PartialEq, Eq, Structural)]
pub enum Material {
    Lambertian(Lambertian),
    Metal(Metal),
    Dielectric(Dielectric),
}

/// Each channel of an albedo is a fraction of light in `[0, 1]`.
pub open spec fn albedo_wf(a: Vec3) -> bool {
    0 <= a.x <= SCALE && 0 <= a.y <= SCALE && 0 <= a.z <= SCALE
}

/// Well-formed material parameters.
pub open spec fn mat_wf(m: Material) -> bool {
    match m {
        Material::Lambertian(l) => albedo_wf(l.albedo),
        Material::Metal(mm) => albedo_wf(mm.albedo) && 0 <= mm.fuzz <= SCALE,
        Material::Dielectric(d) => 1 <= d.ref_idx <= 0x1_0000_0000,
    }
}

impl Lambertian {
    pub fn new(albedo: Vec3) -> (r: Lambertian)
        requires
            albedo_wf(albedo),
        ensures
            r.albedo == albedo,
            mat_wf(Material::Lambertian(r)),
    {
        Lambertian { albedo }
    }
}

impl Metal {
    /// The roughness is capped at one, as given.
    pub fn new(albedo: Vec3, fuzz: i64) -> (r: Metal)
        requires
            albedo_wf(albedo),
            fuzz >= 0,
        ensures
            r.albedo == albedo,
            r.fuzz == if fuzz < SCALE { fuzz as int } else { SCALE as int },
            mat_wf(Material::Metal(r)),
    {
        Metal { albedo, fuzz: if fuzz < SCALE { fuzz } else { SCALE } }
    }
}

impl Dielectric {
    pub fn new(ref_idx: i64) -> (r: Dielectric)
        requires
            1 <= ref_idx <= 0x1_0000_0000,
        ensures
            r.ref_idx == ref_idx,
            mat_wf(Material::Dielectric(r)),
    {
        Dielectric { ref_idx }
    }
}

/// Mirror reflection of `a` about `b`.
pub open spec fn t_reflect(a: (int, int, int), b: (int, int, int)) -> (int, int, int) {
    t_sub(a, t_scale(b, 2 * t_dot(a, b)))
}

/// Cosine between `-a` and `b`, clamped to `[-1, 1]`; near-unit inputs
/// never reach the lower clamp.
pub open spec fn refract_cos(a: (int, int, int), b: (int, int, int)) -> int {
    clamp_s(t_dot(t_neg(a), b), -(SCALE as int), SCALE as int)
}

/// Sine derived from the clamped cosine.
pub open spec fn sin_from_cos(c: int) -> int {
    sqrt_fp_s(SCALE - fmul(c, c))
}

/// Vector refraction of `a` at a surface with normal `b` and index ratio
/// `ratio`.
pub open spec fn t_refract(a: (int, int, int), b: (int, int, int), ratio: int) -> (int, int, int) {
    let cos = refract_cos(a, b);
    let perp = t_scale(t_add(a, t_scale(b, cos)), ratio);
    let inner = SCALE - sdiv(norm2_raw(perp), SCALE as int);
    t_add(perp, t_scale(b, -sqrt_fp_s(abs_i(inner))))
}

/// Schlick's reflectance approximation.
pub open spec fn schlick_s(cos: int, ratio: int) -> int {
    let q = fdiv(SCALE - ratio, SCALE + ratio);
    let r0 = fmul(q, q);
    let p = SCALE - cos;
    r0 + fmul(SCALE - r0, fmul(fmul(fmul(fmul(p, p), p), p), p))
}

/// The effective refraction ratio: inverted when entering the surface.
pub open spec fn dielectric_ratio(d: Dielectric, front_face: bool) -> int {
    if front_face {
        fdiv(SCALE as int, d.ref_idx as int)
    } else {
        d.ref_idx as int
    }
}

/// Total internal reflection: the refraction ratio times the sine exceeds
/// one.
pub open spec fn is_tir(a: (int, int, int), b: (int, int, int), ratio: int) -> bool {
    fmul(ratio, sin_from_cos(refract_cos(a, b))) > SCALE
}

/// What scattering promises, for each material kind.
pub open spec fn scatter_post(m: Material, ray_in: Ray, rec: HitRecord, res: Option<(Ray, Vec3)>)
    -> bool {
    match m {
        Material::Lambertian(l) => match res {
            Some((s, att)) => s.origin == rec.point && att == l.albedo && exists|p: Vec3|
                #![trigger v3(p)]
                (in_unit_ball(p) && norm2_raw(v3(p)) >= 1 && v3(s.direction) == t_add(
                    v3(rec.normal),
                    t_unit(v3(p)),
                )),
            None => false,
        },
        Material::Metal(mm) => {
            let refl = t_reflect(t_unit(v3(ray_in.direction)), v3(rec.normal));
            &&& match res {
                Some((s, att)) => {
                    &&& att == mm.albedo
                    &&& s.origin == rec.point
                    &&& t_dot(v3(s.direction), v3(rec.normal)) > 0
                    &&& exists|p: Vec3|
                        #![trigger v3(p)]
                        (in_unit_ball(p) && v3(s.direction) == t_add(
                            refl,
                            t_scale(v3(p), mm.fuzz as int),
                        ))
                    &&& mm.fuzz == 0 ==> v3(s.direction) == refl
                },
                None => exists|p: Vec3|
                    #![trigger v3(p)]
                    (in_unit_ball(p) && t_dot(
                        t_add(refl, t_scale(v3(p), mm.fuzz as int)),
                        v3(rec.normal),
                    ) <= 0),
            }
            &&& (mm.fuzz == 0 ==> ((res is Some) <==> t_dot(refl, v3(rec.normal)) > 0))
        },
        Material::Dielectric(d) => {
            let u = t_unit(v3(ray_in.direction));
            let n = v3(rec.normal);
            let ratio = dielectric_ratio(d, rec.front_face);
            match res {
                Some((s, att)) => {
                    &&& v3(att) == (SCALE as int, SCALE as int, SCALE as int)
                    &&& s.origin == rec.point
                    &&& (v3(s.direction) == t_reflect(u, n) || v3(s.direction) == t_refract(
                        u,
                        n,
                        ratio,
                    ))
                    &&& (is_tir(u, n, ratio) ==> v3(s.direction) == t_reflect(u, n))
                },
                None => false,
            }
        },
    }
}

/// A glass of refractive index one bends nothing: the refraction ratio is
/// one whether the ray enters or leaves the surface.
pub proof fn lemma_unit_index_ratio(d: Dielectric)
    requires
        d.ref_idx == SCALE,
    ensures
        dielectric_ratio(d, true) == SCALE as int,
        dielectric_ratio(d, false) == SCALE as int,
{
    assert((65536int * 65536int) / 65536int == 65536int) by (nonlinear_arith);
}

/// Mirror reflection: `a - 2 * dot(a, b) * b`.
fn reflect(v: Vec3, n: Vec3) -> (r: Vec3)
    requires
        t_in(v3(v), 0x4_0000),
        t_in(v3(n), 0x2_0000),
    ensures
        v3(r) == t_reflect(v3(v), v3(n)),
        t_in(v3(r), 0x80_0000),
{
    proof {
        lemma_fmul_bound(v.x as int, n.x as int, 0x4_0000, 0x2_0000);
        lemma_fmul_bound(v.y as int, n.y as int, 0x4_0000, 0x2_0000);
        lemma_fmul_bound(v.z as int, n.z as int, 0x4_0000, 0x2_0000);
    }
    let d: i64 = v.v_dot(n);
    proof {
        assert(abs_i(d as int) <= 0x18_0000);
    }
    let two_d: i64 = 2 * d;
    proof {
        assert(abs_i(two_d as int) <= 0x30_0000);
        lemma_fmul_bound(n.x as int, two_d as int, 0x2_0000, 0x30_0000);
        lemma_fmul_bound(n.y as int, two_d as int, 0x2_0000, 0x30_0000);
        lemma_fmul_bound(n.z as int, two_d as int, 0x2_0000, 0x30_0000);
    }
    v.v_sub(n.v_scale(two_d))
}

/// Vector refraction with the given index ratio.
fn refract(uv: Vec3, n: Vec3, etai_over_etat: i64) -> (r: Vec3)
    requires
        t_in(v3(uv), 0x2_0000),
        t_in(v3(n), 0x2_0000),
        0 <= etai_over_etat <= 0x1_0000_0000,
    ensures
        v3(r) == t_refract(v3(uv), v3(n), etai_over_etat as int),
        t_in(v3(r), 0x200_0000_0000),
{
    proof {
        lemma_fmul_bound(uv.x as int, n.x as int, 0x2_0000, 0x2_0000);
        lemma_fmul_bound(uv.y as int, n.y as int, 0x2_0000, 0x2_0000);
        lemma_fmul_bound(uv.z as int, n.z as int, 0x2_0000, 0x2_0000);
    }
    let cos: i64 = clamp(uv.v_neg().v_dot(n), -SCALE, SCALE);
    proof {
        lemma_fmul_bound(n.x as int, cos as int, 0x2_0000, 0x1_0000);
        lemma_fmul_bound(n.y as int, cos as int, 0x2_0000, 0x1_0000);
        lemma_fmul_bound(n.z as int, cos as int, 0x2_0000, 0x1_0000);
    }
    let mid = uv.v_add(n.v_scale(cos));
    proof {
        lemma_fmul_bound(mid.x as int, etai_over_etat as int, 0x4_0000, 0x1_0000_0000);
        lemma_fmul_bound(mid.y as int, etai_over_etat as int, 0x4_0000, 0x1_0000_0000);
        lemma_fmul_bound(mid.z as int, etai_over_etat as int, 0x4_0000, 0x1_0000_0000);
    }
    let perp = mid.v_scale(etai_over_etat);
    proof {
        assert(t_in(v3(perp), 0x4_0000_0000));
        assert(norm2_raw(v3(perp)) >= 0 && norm2_raw(v3(perp)) <= 0x40_0000_0000_0000_0000)
            by (nonlinear_arith)
            requires
                t_in(v3(perp), 0x4_0000_0000),
        ;
    }
    let lsq: i64 = perp.length_squared();
    proof {
        lemma_sdiv_shrink(norm2_raw(v3(perp)), SCALE as int);
        assert(sdiv(norm2_raw(v3(perp)), SCALE as int) <= 0x40_0000_0000_0000) by (nonlinear_arith)
            requires
                0 <= norm2_raw(v3(perp)) <= 0x40_0000_0000_0000_0000,
                SCALE == 65536i64,
        ;
    }
    let inner: i64 = SCALE - lsq;
    let inner_abs: i64 = if inner < 0 {
        -inner
    } else {
        inner
    };
    let par_len: i64 = sqrt_fp(inner_abs);
    proof {
        let xs = (inner_abs as int) * (SCALE as int);
        lemma_sqrt_floor(xs);
        assert(par_len as int <= 0x40_0000_0000) by (nonlinear_arith)
            requires
                is_sqrt(xs, par_len as int),
                xs <= 0x1000_0000_0000_0000_0000,
        ;
        lemma_fmul_bound(n.x as int, -(par_len as int), 0x2_0000, 0x40_0000_0000);
        lemma_fmul_bound(n.y as int, -(par_len as int), 0x2_0000, 0x40_0000_0000);
        lemma_fmul_bound(n.z as int, -(par_len as int), 0x2_0000, 0x40_0000_0000);
    }
    perp.v_add(n.v_scale(-par_len))
}

/// Schlick's reflectance approximation.
fn schlick(cosine: i64, ratio: i64) -> (r: i64)
    requires
        -0x4_0000 <= cosine as int <= 0x4_0000,
        0 <= ratio <= 0x1_0000_0000,
    ensures
        r == schlick_s(cosine as int, ratio as int),
{
    proof {
        let a = (SCALE - ratio) as int;
        let b = (SCALE + ratio) as int;
        assert(abs_i(sdiv(a * (SCALE as int), b)) <= abs_i(a)) by (nonlinear_arith)
            requires
                b >= SCALE as int,
                SCALE == 65536i64,
                abs_i(a) >= 0,
        ;
    }
    let q: i64 = fp_div(SCALE - ratio, SCALE + ratio);
    proof {
        assert(abs_i(q as int) <= 0x1_0000_0000);
        lemma_fmul_bound(q as int, q as int, 0x1_0000_0000, 0x1_0000_0000);
        lemma_fmul_nonneg(q as int, q as int);
    }
    let r0: i64 = fp_mul(q, q);
    let p: i64 = SCALE - cosine;
    proof {
        lemma_fmul_bound(p as int, p as int, 0x5_0000, 0x5_0000);
        lemma_fmul_bound(fmul(p as int, p as int), p as int, 0x19_0000, 0x5_0000);
        lemma_fmul_bound(
            fmul(fmul(p as int, p as int), p as int),
            p as int,
            0x7d_0000,
            0x5_0000,
        );
        lemma_fmul_bound(
            fmul(fmul(fmul(p as int, p as int), p as int), p as int),
            p as int,
            0x271_0000,
            0x5_0000,
        );
        lemma_fmul_bound(
            (SCALE - r0) as int,
            fmul(fmul(fmul(fmul(p as int, p as int), p as int), p as int), p as int),
            0x1_0000_0001_0000,
            0xc35_0000,
        );
    }
    let p5: i64 = fp_mul(fp_mul(fp_mul(fp_mul(p, p), p), p), p);
    r0 + fp_mul(SCALE - r0, p5)
}

impl Material {
    /// Scatter an incoming ray at a hit.  `None` means the ray was
    /// absorbed.
    pub fn scatter(&self, ray_in: &Ray, rec: &HitRecord) -> (res: Option<(Ray, Vec3)>)
        requires
            mat_wf(*self),
            t_in(v3(ray_in.direction), VMAX as int),
            norm2_raw(v3(ray_in.direction)) >= 1,
            t_in(v3(rec.normal), SCALE as int),
        ensures
            scatter_post(*self, *ray_in, *rec, res),
            res matches Some((s, _)) ==> s.origin == rec.point && t_in(
                v3(s.direction),
                0x400_0000_0000,
            ),
            res matches Some((_, att)) ==> albedo_wf(att),
    {
        match self {
            Material::Lambertian(l) => {
                let u = random_unit_vector();
                let dir = rec.normal.v_add(u);
                Some((Ray::new(rec.point, dir), l.albedo))
            },
            Material::Metal(m) => {
                let unit = ray_in.direction.normalize();
                let reflected = reflect(unit, rec.normal);
                let p = random_in_unit_sphere();
                proof {
                    lemma_fmul_bound(p.x as int, m.fuzz as int, 0x1_0000, 0x1_0000);
                    lemma_fmul_bound(p.y as int, m.fuzz as int, 0x1_0000, 0x1_0000);
                    lemma_fmul_bound(p.z as int, m.fuzz as int, 0x1_0000, 0x1_0000);
                }
                let dir = reflected.v_add(p.v_scale(m.fuzz));
                proof {
                    if m.fuzz == 0 {
                        lemma_fmul_unit(p.x as int);
                        lemma_fmul_unit(p.y as int);
                        lemma_fmul_unit(p.z as int);
                    }
                }
                let scattered = Ray::new(rec.point, dir);
                if dir.v_dot(rec.normal) > 0 {
                    Some((scattered, m.albedo))
                } else {
                    None
                }
            },
            Material::Dielectric(d) => {
                let ratio: i64 = if rec.front_face {
                    proof {
                        assert((SCALE as int) * (SCALE as int) == 0x1_0000_0000) by (nonlinear_arith)
                            requires SCALE == 65536i64,
                        ;
                        lemma_sdiv_shrink((SCALE as int) * (SCALE as int), d.ref_idx as int);
                    }
                    fp_div(SCALE, d.ref_idx)
                } else {
                    d.ref_idx
                };
                proof {
                    assert((SCALE as int) * (SCALE as int) == 0x1_0000_0000) by (nonlinear_arith)
                        requires SCALE == 65536i64,
                    ;
                    lemma_sdiv_shrink((SCALE as int) * (SCALE as int), d.ref_idx as int);
                }
                let unit_direction = ray_in.direction.normalize();
                let cos_theta: i64 = clamp(unit_direction.v_neg().v_dot(rec.normal), -SCALE, SCALE);
                proof {
                    lemma_fmul_bound(cos_theta as int, cos_theta as int, 0x1_0000, 0x1_0000);
                    lemma_fmul_nonneg(cos_theta as int, cos_theta as int);
                }
                let sin_theta: i64 = sqrt_fp(SCALE - fp_mul(cos_theta, cos_theta));
                proof {
                    let xs = ((SCALE - fmul(cos_theta as int, cos_theta as int)) as int) * (
                    SCALE as int);
                    lemma_sqrt_floor(xs);
                    assert(xs <= 0x1_0000_0000);
                    assert(sin_theta as int <= 0x1_0000) by (nonlinear_arith)
                        requires
                            is_sqrt(xs, sin_theta as int),
                            xs <= 0x1_0000_0000,
                    ;
                    lemma_fmul_bound(ratio as int, sin_theta as int, 0x1_0000_0000, 0x1_0000);
                }
                let reflect_now: bool = fp_mul(ratio, sin_theta) > SCALE;
                let reflect_prob: i64 = schlick(cos_theta, ratio);
                let rnd: i64 = rand_fp_unit();
                let direction: Vec3 = if reflect_now || rnd < reflect_prob {
                    reflect(unit_direction, rec.normal)
                } else {
                    refract(unit_direction, rec.normal, ratio)
                };
                Some((Ray::new(rec.point, direction), Vec3::new(SCALE, SCALE, SCALE)))
            },
        }
    }
}

} // verus!
