use rtcore::color::write_color;
use rtcore::vec::Vec3;

const SCALE: f64 = 4294967296.0;

fn fx(x: f64) -> i128 {
    (x * SCALE) as i128
}

#[test]
fn midtone_quantizes_to_128() {
    let c = Vec3::new(fx(0.5), fx(0.5), fx(0.5));
    assert_eq!(write_color(c, 1), (128, 128, 128));
}

#[test]
fn out_of_range_channels_clamp() {
    let c = Vec3::new(fx(2.0), fx(-1.0), 0);
    assert_eq!(write_color(c, 1), (255, 0, 0));
}

#[test]
fn samples_divide_the_accumulated_color() {
    let c = Vec3::new(fx(2.0), fx(1.0), fx(4.0));
    assert_eq!(write_color(c, 4), (128, 64, 255));
}

#[test]
fn pure_channels_reach_their_extremes() {
    let c = Vec3::new(fx(1.0), 0, fx(0.999));
    let (r, g, b) = write_color(c, 1);
    assert_eq!(r, 255);
    assert_eq!(g, 0);
    assert_eq!(b, 255);
}
