use pathtracer::vec3::Vec3;
use pathtracer::ray::Ray;
use pathtracer::hittable::HitRecord;
use pathtracer::materials::{Dielectric, Lambertian, Material, Metal};
use pathtracer::scene::Scene;
use pathtracer::camera::Camera;
use pathtracer::renderer::Renderer;
use pathtracer::utils;

const S: i64 = 65536;

fn head_on_hit(material: Material) -> (Ray, HitRecord) {
    let ray = Ray::new(Vec3::new(0, 0, 0), Vec3::new(0, 0, -S));
    let rec = HitRecord::new(S, Vec3::new(0, 0, -S), Vec3::new(0, 0, S), &ray, material);
    (ray, rec)
}

#[test]
fn diffuse_scatter_keeps_albedo_and_origin() {
    let albedo = Vec3::new(52428, 13107, 6553);
    let material = Material::Lambertian(Lambertian::new(albedo));
    let (ray, rec) = head_on_hit(material);
    let (scattered, attenuation) = material.scatter(&ray, &rec).expect("diffuse always scatters");
    assert_eq!(attenuation, albedo);
    assert_eq!(scattered.origin, rec.point);
}

#[test]
fn polished_metal_reflects_exactly() {
    let albedo = Vec3::new(52428, 39321, 13107);
    let material = Material::Metal(Metal::new(albedo, 0));
    let (ray, rec) = head_on_hit(material);
    let (scattered, attenuation) = material.scatter(&ray, &rec).expect("facing mirror scatters");
    assert_eq!(attenuation, albedo);
    assert_eq!(scattered.origin, rec.point);
    assert_eq!(scattered.direction, Vec3::new(0, 0, S));
}

#[test]
fn metal_new_caps_roughness() {
    let m = Metal::new(Vec3::new(S, S, S), 3 * S);
    assert_eq!(m.fuzz, S);
    let m2 = Metal::new(Vec3::new(S, S, S), 100);
    assert_eq!(m2.fuzz, 100);
}

#[test]
fn unit_index_glass_does_not_bend() {
    let material = Material::Dielectric(Dielectric::new(S));
    let (ray, rec) = head_on_hit(material);
    let (scattered, attenuation) = material.scatter(&ray, &rec).expect("glass always scatters");
    assert_eq!(attenuation, Vec3::new(S, S, S));
    assert_eq!(scattered.origin, rec.point);
    // with a refraction ratio of one the head-on ray passes straight through
    assert_eq!(scattered.direction, Vec3::new(0, 0, -S));
}

#[test]
fn total_internal_reflection_mirrors() {
    // a ray leaving dense glass at 45 degrees exceeds the critical angle
    let material = Material::Dielectric(Dielectric::new(98304));
    let ray = Ray::new(Vec3::new(0, 0, 0), Vec3::new(S, 0, -S));
    let rec = HitRecord::new(S, Vec3::new(S, 0, -S), Vec3::new(0, 0, -S), &ray, material);
    assert!(!rec.front_face);
    let (scattered, attenuation) = material.scatter(&ray, &rec).expect("glass always scatters");
    assert_eq!(attenuation, Vec3::new(S, S, S));
    // the unit incoming direction is (46341, 0, -46341); its mirror image
    // about the normal flips the z component
    assert_eq!(scattered.direction, Vec3::new(46341, 0, 46341));
}

#[test]
fn sky_gradient_at_poles() {
    let renderer = Renderer::new(4, 4, 1);
    let scene = Scene::new();
    let up = Ray::new(Vec3::new(0, 0, 0), Vec3::new(0, S, 0));
    assert_eq!(renderer.ray_color(&up, &scene, 0), Vec3::new(32768, 45875, 65536));
    let down = Ray::new(Vec3::new(0, 0, 0), Vec3::new(0, -S, 0));
    assert_eq!(renderer.ray_color(&down, &scene, 0), Vec3::new(S, S, S));
}

#[test]
fn sky_is_depth_independent() {
    let renderer = Renderer::new(4, 4, 1);
    let scene = Scene::new();
    let r = Ray::new(Vec3::new(0, 0, 0), Vec3::new(S, S, 0));
    let a = renderer.ray_color(&r, &scene, 0);
    let b = renderer.ray_color(&r, &scene, 17);
    assert_eq!(a, b);
}

#[test]
fn recursion_cap_returns_black() {
    let renderer = Renderer::new(4, 4, 1);
    let scene = Scene::new();
    let r = Ray::new(Vec3::new(0, 0, 0), Vec3::new(0, S, 0));
    assert_eq!(renderer.ray_color(&r, &scene, 50), Vec3::new(0, 0, 0));
}

#[test]
fn pinhole_camera_center_ray() {
    let cam = Camera::new(
        Vec3::new(0, 0, 0),
        Vec3::new(0, 0, -S),
        Vec3::new(0, S, 0),
        S,
        S,
        0,
        S,
    );
    let r = cam.get_ray(32768, 32768);
    assert_eq!(r.origin, Vec3::new(0, 0, 0));
    assert_eq!(r.direction, Vec3::new(0, 0, -S));
}

#[test]
fn render_fills_the_grid() {
    let renderer = Renderer::new(3, 2, 2);
    let scene = Scene::new();
    let cam = Camera::new(
        Vec3::new(0, 0, 0),
        Vec3::new(0, 0, -S),
        Vec3::new(0, S, 0),
        S,
        S,
        0,
        S,
    );
    let pixels = renderer.render(&scene, &cam);
    assert_eq!(pixels.len(), 6);
    // a sky-only image: the blue channel of the gradient is always full,
    // so after gamma and quantization every pixel's blue is exactly 255
    for (r, _g, b) in pixels.iter() {
        assert_eq!(*b, 255);
        assert!(*r >= 181);
    }
}

#[test]
fn unit_ball_samples_stay_inside() {
    for _ in 0..32 {
        let p = utils::random_in_unit_sphere();
        assert!(p.length_squared() < S);
        assert!(p.length_squared() >= S / 16);
        let d = utils::random_in_unit_disk();
        assert!(d.length_squared() < S);
        assert!(d.length_squared() >= S / 16);
        assert_eq!(d.z, 0);
        let u = utils::random_unit_vector();
        let len = u.length();
        assert!(32768 <= len && len <= 65540);
        let r = utils::rand_fp_unit();
        assert!(0 <= r && r < S);
    }
}

#[test]
fn clamp_pins_to_interval() {
    assert_eq!(utils::clamp(5, 0, 3), 3);
    assert_eq!(utils::clamp(-5, 0, 3), 0);
    assert_eq!(utils::clamp(2, 0, 3), 2);
}
