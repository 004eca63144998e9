use rtcore::camera::Camera;
use rtcore::ray::Ray;
use rtcore::vec::{cross, dot, unit_vector, Vec3};

const SCALE: f64 = 4294967296.0;

fn fx(x: f64) -> i128 {
    (x * SCALE) as i128
}

fn to_f64(x: i128) -> f64 {
    (x as f64) / SCALE
}

fn v(x: f64, y: f64, z: f64) -> Vec3 {
    Vec3::new(fx(x), fx(y), fx(z))
}

#[test]
fn camera_basis_is_orthonormal() {
    let from = v(13.0, 2.0, 3.0);
    let lookat = v(0.0, 0.0, 0.0);
    let vup = v(0.0, 1.0, 0.0);
    let cam = Camera::new(from, lookat, vup, fx(20.0), fx(16.0 / 9.0), fx(0.1), fx(10.0));
    let w = unit_vector(from.minus(lookat));
    assert!(to_f64(dot(cam.u, cam.v)).abs() < 1e-4);
    assert!(to_f64(dot(cam.u, w)).abs() < 1e-4);
    assert!(to_f64(dot(cam.v, w)).abs() < 1e-4);
    assert!((to_f64(cam.u.length()) - 1.0).abs() < 1e-4);
    assert!((to_f64(cam.v.length()) - 1.0).abs() < 1e-4);
    assert!((to_f64(w.length()) - 1.0).abs() < 1e-4);
    assert_eq!(cross(w, cam.u), cam.v);
}

#[test]
fn pinhole_camera_emits_the_same_ray_every_time() {
    let cam = Camera::new(
        v(0.0, 0.0, 0.0),
        v(0.0, 0.0, -1.0),
        v(0.0, 1.0, 0.0),
        fx(90.0),
        fx(1.0),
        0,
        fx(1.0),
    );
    let first = cam.get_ray(fx(0.3), fx(0.7));
    for _ in 0..1_000 {
        let r = cam.get_ray(fx(0.3), fx(0.7));
        assert_eq!(r, first);
    }
}

#[test]
fn center_ray_points_down_the_view_axis() {
    let cam = Camera::new(
        v(0.0, 0.0, 0.0),
        v(0.0, 0.0, -1.0),
        v(0.0, 1.0, 0.0),
        fx(90.0),
        fx(1.0),
        0,
        fx(1.0),
    );
    let r = cam.get_ray(fx(0.5), fx(0.5));
    assert_eq!(r.origin(), v(0.0, 0.0, 0.0));
    assert_eq!(r.direction().x(), 0);
    assert_eq!(r.direction().y(), 0);
    assert!(r.direction().z() < 0);
}

#[test]
fn lens_offsets_stay_within_the_aperture() {
    let cam = Camera::new(
        v(0.0, 0.0, 0.0),
        v(0.0, 0.0, -1.0),
        v(0.0, 1.0, 0.0),
        fx(90.0),
        fx(1.0),
        fx(0.5),
        fx(1.0),
    );
    for _ in 0..1_000 {
        let r = cam.get_ray(fx(0.5), fx(0.5));
        let off = r.origin();
        assert!(to_f64(off.length()) <= 0.25 + 1e-6);
    }
}

#[test]
fn ray_reports_its_parts_and_evaluates() {
    let r = Ray::new(v(1.0, 2.0, 3.0), v(0.0, -1.0, 0.5));
    assert_eq!(r.origin(), v(1.0, 2.0, 3.0));
    assert_eq!(r.direction(), v(0.0, -1.0, 0.5));
    assert_eq!(r.at(fx(2.0)), v(1.0, 0.0, 4.0));
    assert_eq!(r.at(fx(-2.0)), v(1.0, 4.0, 2.0));
}
