use rtcore::fix::ONE;
use rtcore::util::{clamp, degrees_to_radians, random_double, random_double_range, tan_fixed, HALF_TURN_FX, PI_FX};
use rtcore::vec::{
    cross, dot, random_in_unit_disk, random_in_unit_sphere, random_unit_vector, reflect, refract,
    unit_vector, Vec3,
};

const SCALE: f64 = 4294967296.0;

fn fx(x: f64) -> i128 {
    (x * SCALE) as i128
}

fn to_f64(x: i128) -> f64 {
    (x as f64) / SCALE
}

fn v(x: f64, y: f64, z: f64) -> Vec3 {
    Vec3::new(fx(x), fx(y), fx(z))
}

#[test]
fn dot_commutes_on_samples() {
    let a = v(1.5, -2.25, 3.0);
    let b = v(-0.5, 4.0, 2.5);
    assert_eq!(dot(a, b), dot(b, a));
    let c = v(0.0, 7.125, -1.0);
    assert_eq!(dot(a, c), dot(c, a));
}

#[test]
fn cross_antisymmetric_on_samples() {
    let a = v(1.5, -2.25, 3.0);
    let b = v(-0.5, 4.0, 2.5);
    assert_eq!(cross(a, b), cross(b, a).neg());
}

#[test]
fn length_squared_is_self_dot() {
    let a = v(1.5, -2.25, 3.0);
    assert_eq!(a.length_squared(), dot(a, a));
}

#[test]
fn cross_of_axes() {
    let x = v(1.0, 0.0, 0.0);
    let y = v(0.0, 1.0, 0.0);
    let z = v(0.0, 0.0, 1.0);
    assert_eq!(cross(x, y), z);
    assert_eq!(cross(y, z), x);
}

#[test]
fn length_of_one_two_two_is_three() {
    let a = v(1.0, 2.0, 2.0);
    assert_eq!(a.length(), fx(3.0));
}

#[test]
fn unit_vector_has_length_near_one() {
    let samples = [
        v(1.0, 2.0, 2.0),
        v(-3.5, 0.25, 9.0),
        v(0.01, 0.0, 0.0),
        v(100.0, -250.0, 40.0),
        v(0.0, 0.0, -5.0),
    ];
    for s in samples.iter() {
        let u = unit_vector(*s);
        let len = to_f64(u.length());
        assert!((len - 1.0).abs() < 1e-5, "length {} off unity", len);
    }
}

#[test]
fn reflect_mirrors_vertical_component() {
    let r = reflect(v(1.0, -1.0, 0.0), v(0.0, 1.0, 0.0));
    assert_eq!(r, v(1.0, 1.0, 0.0));
}

#[test]
fn near_zero_thresholds() {
    assert!(Vec3::new(fx(1e-9), fx(-1e-9), 0).near_zero());
    assert!(!Vec3::new(fx(1e-7), 0, 0).near_zero());
    assert!(Vec3::new(0, 0, 0).near_zero());
}

#[test]
fn unit_sphere_samples_stay_inside_and_average_right() {
    let mut sum_len = 0.0f64;
    let n = 10_000;
    for _ in 0..n {
        let p = random_in_unit_sphere();
        let lsq = p.length_squared();
        assert!(lsq < ONE);
        assert!(lsq > 0);
        sum_len += to_f64(p.length());
    }
    let mean = sum_len / (n as f64);
    assert!((mean - 0.75).abs() < 0.02, "mean ball radius {}", mean);
}

#[test]
fn unit_disk_samples_stay_inside_the_disk() {
    for _ in 0..10_000 {
        let p = random_in_unit_disk();
        assert!(p.length_squared() < ONE);
        assert_eq!(p.z(), 0);
    }
}

#[test]
fn random_unit_vector_has_length_near_one() {
    for _ in 0..1_000 {
        let u = random_unit_vector();
        let len = to_f64(u.length());
        assert!((len - 1.0).abs() < 1e-4, "length {} off unity", len);
    }
}

#[test]
fn refract_normal_incidence_keeps_direction() {
    let r = refract(v(0.0, -1.0, 0.0), v(0.0, 1.0, 0.0), ONE);
    assert_eq!(r, v(0.0, -1.0, 0.0));
}

#[test]
fn refract_bends_toward_surface_entering_denser_medium() {
    let uv = unit_vector(v(1.0, -1.0, 0.0));
    let n = v(0.0, 1.0, 0.0);
    let r = refract(uv, n, fx(2.0 / 3.0));
    let sin_in = to_f64(uv.x());
    let sin_out = to_f64(r.x()) / to_f64(r.length());
    assert!((sin_out - sin_in * (2.0 / 3.0)).abs() < 1e-4);
}

#[test]
fn random_double_stays_in_unit_interval() {
    for _ in 0..10_000 {
        let u = random_double();
        assert!(0 <= u && u < ONE);
    }
}

#[test]
fn random_double_range_stays_in_range() {
    for _ in 0..10_000 {
        let u = random_double_range(fx(-1.0), fx(1.0));
        assert!(fx(-1.0) <= u && u < fx(1.0));
    }
}

#[test]
fn clamp_picks_the_nearest_bound() {
    assert_eq!(clamp(fx(2.0), 0, fx(0.999)), fx(0.999));
    assert_eq!(clamp(fx(-2.0), 0, fx(0.999)), 0);
    assert_eq!(clamp(fx(0.5), 0, fx(0.999)), fx(0.5));
}

#[test]
fn degrees_to_radians_exact_on_half_turn() {
    assert_eq!(degrees_to_radians(HALF_TURN_FX), PI_FX);
    assert_eq!(degrees_to_radians(HALF_TURN_FX / 2), PI_FX / 2);
}

#[test]
fn tan_of_quarter_turn_is_near_one() {
    let eighth = degrees_to_radians(fx(45.0));
    let t = tan_fixed(eighth);
    assert!((to_f64(t) - 1.0).abs() < 1e-3, "tan {}", to_f64(t));
}

#[test]
fn component_arithmetic_is_exact() {
    let a = v(1.5, -2.0, 0.25);
    let b = v(0.5, 3.0, -1.25);
    assert_eq!(a.plus(b), v(2.0, 1.0, -1.0));
    assert_eq!(a.minus(b), v(1.0, -5.0, 1.5));
    assert_eq!(a.mul_comp(b), v(0.75, -6.0, -0.3125));
    assert_eq!(a.scale(fx(2.0)), v(3.0, -4.0, 0.5));
    assert_eq!(a.div_scalar(fx(2.0)), v(0.75, -1.0, 0.125));
    assert_eq!(a.neg(), v(-1.5, 2.0, -0.25));
}

#[test]
fn in_place_arithmetic_is_exact() {
    let mut a = v(1.0, 2.0, 3.0);
    a.add_assign(v(0.5, -1.0, 1.0));
    assert_eq!(a, v(1.5, 1.0, 4.0));
    a.mul_assign(fx(2.0));
    assert_eq!(a, v(3.0, 2.0, 8.0));
}

#[test]
fn accessors_return_components() {
    let a = v(1.0, -2.0, 3.0);
    assert_eq!(a.x(), fx(1.0));
    assert_eq!(a.y(), fx(-2.0));
    assert_eq!(a.z(), fx(3.0));
}

#[test]
fn random_vectors_stay_in_their_ranges() {
    for _ in 0..1_000 {
        let a = Vec3::random();
        assert!(0 <= a.x() && a.x() < ONE);
        assert!(0 <= a.y() && a.y() < ONE);
        assert!(0 <= a.z() && a.z() < ONE);
        let b = Vec3::random_range(fx(-1.0), fx(1.0));
        assert!(fx(-1.0) <= b.x() && b.x() < fx(1.0));
        assert!(fx(-1.0) <= b.y() && b.y() < fx(1.0));
        assert!(fx(-1.0) <= b.z() && b.z() < fx(1.0));
    }
}
