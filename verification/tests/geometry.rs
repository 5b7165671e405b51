use pathtracer::vec3::Vec3;
use pathtracer::ray::Ray;
use pathtracer::hittable::HitRecord;
use pathtracer::materials::{Lambertian, Material};
use pathtracer::sphere::Sphere;
use pathtracer::cube::Cube;
use pathtracer::scene::{Scene, Shape};

const S: i64 = 65536;

fn gray() -> Material {
    Material::Lambertian(Lambertian::new(Vec3::new(32768, 32768, 32768)))
}

#[test]
fn vector_dot_and_cross() {
    let a = Vec3::new(S, 2 * S, 3 * S);
    let b = Vec3::new(4 * S, 5 * S, 6 * S);
    assert_eq!(a.v_dot(b), 32 * S);
    let c = a.v_cross(b);
    assert_eq!(c, Vec3::new(-3 * S, 6 * S, -3 * S));
    assert_eq!(a.v_add(b), Vec3::new(5 * S, 7 * S, 9 * S));
    assert_eq!(b.v_sub(a), Vec3::new(3 * S, 3 * S, 3 * S));
    assert_eq!(a.v_scale(2 * S), Vec3::new(2 * S, 4 * S, 6 * S));
}

#[test]
fn vector_length_and_normalize() {
    let v = Vec3::new(3 * S, 4 * S, 0);
    assert_eq!(v.length(), 5 * S);
    assert_eq!(v.length_squared(), 25 * S);
    let u = v.normalize();
    assert_eq!(u, Vec3::new(39321, 52428, 0));
}

#[test]
fn ray_point_at() {
    let r = Ray::new(Vec3::new(S, 0, 0), Vec3::new(S, 0, 0));
    assert_eq!(r.point_at_parameter(2 * S), Vec3::new(3 * S, 0, 0));
}

#[test]
fn hit_record_orients_normal_against_ray() {
    let down = Ray::new(Vec3::new(0, 0, 0), Vec3::new(0, 0, -S));
    let rec = HitRecord::new(S, Vec3::new(0, 0, -S), Vec3::new(0, 0, S), &down, gray());
    assert!(rec.front_face);
    assert_eq!(rec.normal, Vec3::new(0, 0, S));

    let up = Ray::new(Vec3::new(0, 0, 0), Vec3::new(0, 0, S));
    let rec2 = HitRecord::new(S, Vec3::new(0, 0, S), Vec3::new(0, 0, S), &up, gray());
    assert!(!rec2.front_face);
    assert_eq!(rec2.normal, Vec3::new(0, 0, -S));
}

#[test]
fn sphere_hit_head_on() {
    let sp = Sphere::new(Vec3::new(0, 0, -2 * S), S, gray());
    let r = Ray::new(Vec3::new(0, 0, 0), Vec3::new(0, 0, -S));
    let rec = sp.hit(&r, 0, 100 * S).expect("must hit");
    assert_eq!(rec.t, S);
    assert_eq!(rec.point, Vec3::new(0, 0, -S));
    assert_eq!(rec.normal, Vec3::new(0, 0, S));
    assert!(rec.front_face);
}

#[test]
fn sphere_missed_behind() {
    let sp = Sphere::new(Vec3::new(0, 0, -2 * S), S, gray());
    let r = Ray::new(Vec3::new(0, 0, 0), Vec3::new(0, 0, S));
    assert!(sp.hit(&r, 0, 100 * S).is_none());
}

#[test]
fn negative_radius_same_t_reversed_outward() {
    let outer = Sphere::new(Vec3::new(0, 0, -2 * S), S, gray());
    let inner = Sphere::new(Vec3::new(0, 0, -2 * S), -S, gray());
    let r = Ray::new(Vec3::new(0, 0, 0), Vec3::new(0, 0, -S));
    let a = outer.hit(&r, 0, 100 * S).expect("must hit");
    let b = inner.hit(&r, 0, 100 * S).expect("must hit");
    assert_eq!(a.t, b.t);
    // the outward normal is reversed, so the record flips its orientation flag
    assert!(a.front_face);
    assert!(!b.front_face);
    assert_eq!(a.normal, b.normal);
}

#[test]
fn cube_hit_front_face() {
    let c = Cube::new(Vec3::new(-S, -S, -3 * S), Vec3::new(S, S, -2 * S), gray());
    let r = Ray::new(Vec3::new(0, 0, 0), Vec3::new(0, 0, -S));
    let rec = c.hit(&r, 0, 100 * S).expect("must hit");
    assert_eq!(rec.t, 2 * S);
    assert_eq!(rec.point, Vec3::new(0, 0, -2 * S));
    assert_eq!(rec.normal, Vec3::new(0, 0, S));
    assert!(rec.front_face);
}

#[test]
fn cube_missed_outside_slab() {
    let c = Cube::new(Vec3::new(-S, -S, -3 * S), Vec3::new(S, S, -2 * S), gray());
    let r = Ray::new(Vec3::new(3 * S, 0, 0), Vec3::new(0, 0, -S));
    assert!(c.hit(&r, 0, 100 * S).is_none());
}

#[test]
fn cube_interior_hit_parameter_in_range() {
    let c = Cube::new(Vec3::new(-S, -S, -3 * S), Vec3::new(S, S, -2 * S), gray());
    let r = Ray::new(Vec3::new(0, 0, 0), Vec3::new(0, 0, -S));
    let rec = c.hit(&r, 0, 100 * S).expect("must hit");
    assert!(0 <= rec.t && rec.t <= 100 * S);
    // the normal is one axis unit vector
    let n = rec.normal;
    let mag = n.x.abs() + n.y.abs() + n.z.abs();
    assert_eq!(mag, S);
}

#[test]
fn three_records() {
    let near_mat = Material::Lambertian(Lambertian::new(Vec3::new(S, 0, 0)));
    let mid_mat = Material::Lambertian(Lambertian::new(Vec3::new(0, S, 0)));
    let far_mat = Material::Lambertian(Lambertian::new(Vec3::new(0, 0, S)));
    let near = Shape::Sphere(Sphere::new(Vec3::new(0, 0, -2 * S), S, near_mat));
    let mid = Shape::Sphere(Sphere::new(Vec3::new(0, 0, -4 * S), S, mid_mat));
    let far = Shape::Sphere(Sphere::new(Vec3::new(0, 0, -6 * S), S, far_mat));
    let mut scene = Scene::new();
    scene.push(far);
    scene.push(near);
    scene.push(mid);
    let r = Ray::new(Vec3::new(0, 0, 0), Vec3::new(0, 0, -S));
    let rec = scene.hit(&r, 0, 100 * S).expect("must hit");
    assert_eq!(rec.t, S);
    assert_eq!(rec.point, Vec3::new(0, 0, -S));
    assert_eq!(rec.material, near_mat);
}

#[test]
fn empty_scene_reports_nothing() {
    let scene = Scene::new();
    let r = Ray::new(Vec3::new(0, 0, 0), Vec3::new(0, 0, -S));
    assert!(scene.hit(&r, 0, 100 * S).is_none());
}
