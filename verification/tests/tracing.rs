use ray_tracer::vec::Vec3;
use ray_tracer::ray::Ray;
use ray_tracer::sphere::Sphere;
use ray_tracer::hittable::Scene;
use ray_tracer::material::{Material, Lambertian, Metal, Dielectric};
use ray_tracer::hittable::HitRecord;
use ray_tracer::camera::Camera;
use ray_tracer::render::{ray_color, render_pixel, color_to_byte};
use ray_tracer::rng::random_unit;

const S: i64 = 65536;
const TMAX: i64 = 0x2_0000_0000;
const TMIN: i64 = 66;

fn gray_scene(albedo: Vec3) -> Scene {
    let mut scene = Scene::new();
    let id = scene.add_material(Material::Lambertian(Lambertian::new(albedo)));
    scene.add_sphere(Vec3::new(0, 0, -3 * S), S, id);
    scene
}

#[test]
fn sphere_outside_hit_front_face() {
    let sphere = Sphere::new(Vec3::new(0, 0, -3 * S), S, 0);
    let ray = Ray::new(Vec3::new(0, 0, 0), Vec3::new(0, 0, -S));
    let rec = sphere.hit(&ray, TMIN, TMAX).unwrap();
    assert_eq!(rec.t, 2 * S);
    assert!(rec.front_face);
    // The hit point sits on the surface: its offset from the center has the
    // radius as its length, exactly for this axis-aligned configuration.
    let pc = rec.point.sub(sphere.center);
    assert_eq!(pc.len(), S);
    assert_eq!(rec.normal, Vec3::new(0, 0, S));
}

#[test]
fn sphere_inside_hit_back_face() {
    let center = Vec3::new(0, 0, -3 * S);
    let sphere = Sphere::new(center, S, 0);
    let ray = Ray::new(center, Vec3::new(0, 0, -S));
    let rec = sphere.hit(&ray, TMIN, TMAX).unwrap();
    assert_eq!(rec.t, S);
    assert!(!rec.front_face);
    let outward = rec.point.sub(center).norm();
    assert_eq!(rec.normal, outward.neg());
}

#[test]
fn sphere_miss_reports_none() {
    let sphere = Sphere::new(Vec3::new(10 * S, 0, -3 * S), S, 0);
    let ray = Ray::new(Vec3::new(0, 0, 0), Vec3::new(0, 0, -S));
    assert!(sphere.hit(&ray, TMIN, TMAX).is_none());
}

#[test]
fn reflect_involution_axis_exact() {
    let v = Vec3::new(12345, -678, 9999);
    let n = Vec3::new(0, S, 0);
    let r = v.reflect(n);
    assert_eq!(r, Vec3::new(12345, 678, 9999));
    assert_eq!(r.reflect(n), v);
    assert_eq!(r.dot(n), -v.dot(n));
    assert_eq!(r.dot(r), v.dot(v));
}

#[test]
fn reflect_energy_general_approx() {
    let v = Vec3::new(3 * S, 4 * S, 0);
    let n = Vec3::new(46341, 46341, 0).norm();
    let r = v.reflect(n);
    let tol: i64 = 1200;
    assert!((r.len() - v.len()).abs() <= tol);
    assert!((r.dot(n) + v.dot(n)).abs() <= tol);
    let back = r.reflect(n);
    assert!((back.x - v.x).abs() <= tol);
    assert!((back.y - v.y).abs() <= tol);
    assert!((back.z - v.z).abs() <= tol);
}

fn front_hit() -> HitRecord {
    HitRecord {
        point: Vec3::new(0, 0, -2 * S),
        normal: Vec3::new(0, 0, S),
        mat: 0,
        t: 2 * S,
        front_face: true,
    }
}

#[test]
fn lambertian_always_scatters_with_albedo() {
    let albedo = Vec3::new(13107, 26214, 52428);
    let mat = Lambertian::new(albedo);
    let ray = Ray::new(Vec3::new(0, 0, 0), Vec3::new(0, 0, -S));
    for _ in 0..32 {
        let (att, sc) = mat.scatter(&ray, &front_hit()).unwrap();
        assert_eq!(att, albedo);
        assert_eq!(sc.origin, Vec3::new(0, 0, -2 * S));
    }
}

#[test]
fn metal_zero_fuzz_is_exact_mirror() {
    let albedo = Vec3::new(45875, 39321, 32768);
    let mat = Metal::new(albedo, 0);
    let dir = Vec3::new(S, 0, -S);
    let ray = Ray::new(Vec3::new(-S, 0, 0), dir);
    let (att, sc) = mat.scatter(&ray, &front_hit()).unwrap();
    assert_eq!(att, albedo);
    let expected = dir.norm().reflect(Vec3::new(0, 0, S));
    assert_eq!(sc.dir, expected);
}

#[test]
fn metal_absorbs_below_surface() {
    let mat = Metal::new(Vec3::new(S, S, S), 0);
    // Incoming along the normal: the mirror reflection points below the
    // surface, so the ray is absorbed.
    let ray = Ray::new(Vec3::new(0, 0, -4 * S), Vec3::new(0, 0, S));
    let rec = HitRecord {
        point: Vec3::new(0, 0, -2 * S),
        normal: Vec3::new(0, 0, S),
        mat: 0,
        t: 2 * S,
        front_face: false,
    };
    assert!(mat.scatter(&ray, &rec).is_none());
}

#[test]
fn dielectric_always_scatters_white() {
    let mat = Dielectric::new(3 * S / 2);
    let ray = Ray::new(Vec3::new(0, 0, 0), Vec3::new(0, S / 2, -S));
    let (att, sc) = mat.scatter(&ray, &front_hit()).unwrap();
    assert_eq!(att, Vec3::new(S, S, S));
    assert_eq!(sc.origin, Vec3::new(0, 0, -2 * S));
}

#[test]
fn dielectric_unit_index_head_on_undeviated() {
    let mat = Dielectric::new(S);
    let ray = Ray::new(Vec3::new(0, 0, 0), Vec3::new(0, 0, -S));
    // Head-on the Schlick reflectance is exactly zero and the ratio is one,
    // so the ray passes through exactly undeviated.
    let (_, sc) = mat.scatter(&ray, &front_hit()).unwrap();
    assert_eq!(sc.dir, Vec3::new(0, 0, -S));
}

#[test]
fn dielectric_unit_index_angled_mostly_undeviated() {
    let mat = Dielectric::new(S);
    let dir = Vec3::new(S, 0, -S);
    let ray = Ray::new(Vec3::new(-S, 0, 0), dir);
    let unit = dir.norm();
    let mut close: u32 = 0;
    for _ in 0..50 {
        let (_, sc) = mat.scatter(&ray, &front_hit()).unwrap();
        let dx = (sc.dir.x - unit.x).abs();
        let dy = (sc.dir.y - unit.y).abs();
        let dz = (sc.dir.z - unit.z).abs();
        if dx <= 4000 && dy <= 4000 && dz <= 4000 {
            close += 1;
        }
    }
    // With a ratio of one there is no total internal reflection; only the
    // tiny Schlick term can pick the mirror branch.
    assert!(close >= 40);
}

#[test]
fn integrator_depth_zero_is_black() {
    let scene = gray_scene(Vec3::new(S / 2, S / 2, S / 2));
    let ray = Ray::new(Vec3::new(0, 0, 0), Vec3::new(0, 0, -S));
    assert_eq!(ray_color(&ray, &scene, 0), Vec3::new(0, 0, 0));
    let empty = Scene::new();
    assert_eq!(ray_color(&ray, &empty, 0), Vec3::new(0, 0, 0));
}

#[test]
fn background_straight_up_is_white() {
    let empty = Scene::new();
    let ray = Ray::new(Vec3::new(0, 0, 0), Vec3::new(0, S, 0));
    assert_eq!(ray_color(&ray, &empty, 5), Vec3::new(S, S, S));
}

#[test]
fn background_straight_down_is_horizon() {
    let empty = Scene::new();
    let ray = Ray::new(Vec3::new(0, 0, 0), Vec3::new(0, -S, 0));
    assert_eq!(ray_color(&ray, &empty, 5), Vec3::new(64256, 49408, 39680));
}

#[test]
fn scene_nearest_hit_wins() {
    let mut scene = Scene::new();
    let a = scene.add_material(Material::Lambertian(Lambertian::new(Vec3::new(S, 0, 0))));
    let b = scene.add_material(Material::Lambertian(Lambertian::new(Vec3::new(0, S, 0))));
    scene.add_sphere(Vec3::new(0, 0, -5 * S), S, b);
    scene.add_sphere(Vec3::new(0, 0, -3 * S), S, a);
    let ray = Ray::new(Vec3::new(0, 0, 0), Vec3::new(0, 0, -S));
    let rec = scene.hit(&ray, TMIN, TMAX).unwrap();
    assert_eq!(rec.t, 2 * S);
    assert_eq!(rec.mat, a);
}

#[test]
fn scene_equal_distance_first_wins() {
    let mut scene = Scene::new();
    let a = scene.add_material(Material::Lambertian(Lambertian::new(Vec3::new(S, 0, 0))));
    let b = scene.add_material(Material::Lambertian(Lambertian::new(Vec3::new(0, S, 0))));
    scene.add_sphere(Vec3::new(0, 0, -3 * S), S, a);
    scene.add_sphere(Vec3::new(0, 0, -3 * S), S, b);
    let ray = Ray::new(Vec3::new(0, 0, 0), Vec3::new(0, 0, -S));
    let rec = scene.hit(&ray, TMIN, TMAX).unwrap();
    assert_eq!(rec.mat, a);
}

#[test]
fn gamma_byte_exact_values() {
    // An average of one quarter has square root one half: byte 128.
    assert_eq!(color_to_byte(S, 4), 128);
    assert_eq!(color_to_byte(0, 7), 0);
    // A full-white average clamps just below one: byte 255.
    assert_eq!(color_to_byte(S, 1), 255);
}

#[test]
fn random_unit_draws_in_range_and_vary() {
    let mut seen_different = false;
    let first: i64 = random_unit();
    for _ in 0..64 {
        let d: i64 = random_unit();
        assert!(0 <= d && d < S);
        if d != first {
            seen_different = true;
        }
    }
    assert!(seen_different);
}

#[test]
fn random_vectors_in_bounds() {
    for _ in 0..32 {
        let v = Vec3::get_random(-S, S);
        assert!(-S <= v.x && v.x < S);
        assert!(-S <= v.y && v.y < S);
        assert!(-S <= v.z && v.z < S);
        let p = Vec3::get_random_in_unit_sphere();
        assert!(p.dot(p) < S);
        let d = Vec3::get_random_in_unit_disk();
        assert_eq!(d.z, 0);
        assert!(d.dot(d) < S);
    }
}

#[test]
fn camera_zero_aperture_ray_is_deterministic() {
    let look_from = Vec3::new(0, 0, 0);
    let look_at = Vec3::new(0, 0, -S);
    let vup = Vec3::new(0, S, 0);
    let cam = Camera::new(look_from, look_at, vup, S / 2, 3 * S / 2, 0, 10 * S);
    let r = cam.get_ray(S / 2, S / 2);
    assert_eq!(r.origin, look_from);
    let r2 = cam.get_ray(S / 2, S / 2);
    assert_eq!(r.dir, r2.dir);
    // The primary ray looks toward the scene.
    assert!(r.dir.z < 0);
}

#[test]
fn black_sphere_pixel_is_exactly_black() {
    // A perfectly absorbing matte sphere: whatever the random bounce does,
    // the attenuation product is zero.
    let scene = gray_scene(Vec3::new(0, 0, 0));
    let ray = Ray::new(Vec3::new(0, 0, 0), Vec3::new(0, 0, -S));
    for _ in 0..16 {
        assert_eq!(ray_color(&ray, &scene, 5), Vec3::new(0, 0, 0));
    }
}

#[test]
fn matte_sphere_pixel_near_expected() {
    // A half-gray matte sphere lit by the background alone: the radiance is
    // about half the mean sky color, so the gamma-corrected byte lands in a
    // broad central band.
    let scene = gray_scene(Vec3::new(S / 2, S / 2, S / 2));
    let look_from = Vec3::new(0, 0, 0);
    let look_at = Vec3::new(0, 0, -3 * S);
    let cam = Camera::new(look_from, look_at, Vec3::new(0, S, 0), S / 2, S, 0, 3 * S);
    let (r, g, b) = render_pixel(&scene, &cam, 50, 50, 101, 101, 300, 8);
    assert!(r >= 100 && r <= 220, "r = {}", r);
    assert!(g >= 100 && g <= 220, "g = {}", g);
    assert!(b >= 100 && b <= 220, "b = {}", b);
}

#[test]
fn doubling_samples_keeps_pixel_mean() {
    let scene = gray_scene(Vec3::new(S / 2, S / 2, S / 2));
    let look_from = Vec3::new(0, 0, 0);
    let look_at = Vec3::new(0, 0, -3 * S);
    let cam = Camera::new(look_from, look_at, Vec3::new(0, S, 0), S / 2, S, 0, 3 * S);
    let trials: u32 = 10;
    let mut sum_small: i64 = 0;
    let mut sum_big: i64 = 0;
    for _ in 0..trials {
        let (r1, _, _) = render_pixel(&scene, &cam, 50, 50, 101, 101, 60, 6);
        let (r2, _, _) = render_pixel(&scene, &cam, 50, 50, 101, 101, 120, 6);
        sum_small += r1 as i64;
        sum_big += r2 as i64;
    }
    let mean_small = sum_small / trials as i64;
    let mean_big = sum_big / trials as i64;
    assert!((mean_small - mean_big).abs() <= 16, "{} vs {}", mean_small, mean_big);
}

#[test]
fn sphere_behind_ray_not_hit() {
    let sphere = Sphere::new(Vec3::new(0, 0, 3 * S), S, 0);
    let ray = Ray::new(Vec3::new(0, 0, 0), Vec3::new(0, 0, -S));
    assert!(sphere.hit(&ray, TMIN, TMAX).is_none());
}

#[test]
fn ray_at_evaluates_exactly() {
    let ray = Ray::new(Vec3::new(S, 2 * S, 3 * S), Vec3::new(0, 0, -S));
    assert_eq!(ray.at(2 * S), Vec3::new(S, 2 * S, S));
}

#[test]
fn vector_algebra_exact_cases() {
    let a = Vec3::new(S, 2 * S, 3 * S);
    let b = Vec3::new(4 * S, 5 * S, 6 * S);
    assert_eq!(a.add(b), Vec3::new(5 * S, 7 * S, 9 * S));
    assert_eq!(b.sub(a), Vec3::new(3 * S, 3 * S, 3 * S));
    assert_eq!(a.dot(b), 32 * S);
    assert_eq!(a.cross(b), Vec3::new(-3 * S, 6 * S, -3 * S));
    assert_eq!(a.mul(2 * S), Vec3::new(2 * S, 4 * S, 6 * S));
    assert_eq!(b.div(2 * S), Vec3::new(2 * S, 5 * S / 2, 3 * S));
    assert_eq!(Vec3::new(3 * S, 4 * S, 0).len(), 5 * S);
    assert_eq!(Vec3::new(0, -7 * S, 0).norm(), Vec3::new(0, -S, 0));
    assert!(Vec3::new(1, -1, 0).near_zero());
    assert!(!Vec3::new(1000, 0, 0).near_zero());
}

#[test]
fn material_dispatch_keeps_variant_contract() {
    let albedo = Vec3::new(S / 2, 13107, 6553);
    let m = Material::Lambertian(Lambertian::new(albedo));
    let ray = Ray::new(Vec3::new(0, 0, 0), Vec3::new(0, 0, -S));
    let (att, sc) = m.scatter(&ray, &front_hit()).unwrap();
    assert_eq!(att, albedo);
    assert_eq!(sc.origin, Vec3::new(0, 0, -2 * S));
    let d = Material::Dielectric(Dielectric::new(3 * S / 2));
    let (att2, _) = d.scatter(&ray, &front_hit()).unwrap();
    assert_eq!(att2, Vec3::new(S, S, S));
}

#[test]
fn first_hit_albedo_caps_every_bounce() {
    // A pure-red matte sphere: the attenuation cap proves the green and
    // blue channels are exactly zero whatever the random bounces do.
    let scene = gray_scene(Vec3::new(S / 2, 0, 0));
    let ray = Ray::new(Vec3::new(0, 0, 0), Vec3::new(0, 0, -S));
    for _ in 0..16 {
        let c = ray_color(&ray, &scene, 6);
        assert_eq!(c.y, 0);
        assert_eq!(c.z, 0);
        assert!(c.x <= S / 2);
    }
}
