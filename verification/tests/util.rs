use tracer::scalar::Scalar;
use tracer::shape::cube_interval;
use tracer::shape::cube_normal_axis;
use tracer::shape::Axis;
use tracer::util::clamp_f32;
use tracer::util::max_f32;
use tracer::util::min_f32;
use tracer::util::near_zero;
use tracer::util::THRESHOLD_BITS;
use tracer::geometry::Vec4;

fn s(x: f32) -> Scalar {
    Scalar::from_bits(x.to_bits())
}

fn list(values: &[f32]) -> Vec<Scalar> {
    values.iter().map(|x| s(*x)).collect()
}

fn back(x: Option<Scalar>) -> Option<f32> {
    x.map(|v| f32::from_bits(v.to_bits()))
}

fn pair(a: f32, b: f32) -> (Scalar, Scalar) {
    (s(a), s(b))
}

#[test]
fn threshold_is_a_hundred_thousandth() {
    assert_eq!(f32::from_bits(THRESHOLD_BITS), 0.00001);
}

#[test]
fn near_zero_is_within_the_threshold() {
    for x in [0.0f32, -0.0, 0.000001, -0.000001, 0.0000099, 0.00001, -0.00001, 1.0, -1.0, f32::NAN, f32::INFINITY] {
        assert_eq!(near_zero(&s(x)), x.abs() < 0.00001, "{}", x);
    }
}

#[test]
fn clamp_holds_between_the_bounds() {
    assert_eq!(clamp_f32(s(0.5), s(0.0), s(1.0)), s(0.5));
    assert_eq!(clamp_f32(s(-0.5), s(0.0), s(1.0)), s(0.0));
    assert_eq!(clamp_f32(s(1.5), s(0.0), s(1.0)), s(1.0));
    assert_eq!(clamp_f32(s(0.0), s(0.0), s(1.0)), s(0.0));
    assert_eq!(clamp_f32(s(1.0), s(0.0), s(1.0)), s(1.0));
    assert!(clamp_f32(s(f32::NAN), s(0.0), s(1.0)).is_nan());
}

#[test]
fn max_and_min_of_nothing() {
    assert_eq!(max_f32(&Vec::new()), None);
    assert_eq!(min_f32(&Vec::new()), None);
}

#[test]
fn max_and_min_of_a_list() {
    let v = list(&[3.0, -7.5, 12.25, 0.0, 12.0]);
    assert_eq!(back(max_f32(&v)), Some(12.25));
    assert_eq!(back(min_f32(&v)), Some(-7.5));
    let v = list(&[-2.0]);
    assert_eq!(back(max_f32(&v)), Some(-2.0));
    assert_eq!(back(min_f32(&v)), Some(-2.0));
    let v = list(&[f32::NEG_INFINITY, 1.0, f32::INFINITY]);
    assert_eq!(back(max_f32(&v)), Some(f32::INFINITY));
    assert_eq!(back(min_f32(&v)), Some(f32::NEG_INFINITY));
}

#[test]
fn max_keeps_the_first_of_equals() {
    let v = list(&[-0.0, 0.0]);
    assert_eq!(max_f32(&v), Some(s(-0.0)));
    assert_eq!(min_f32(&v), Some(s(-0.0)));
}

#[test]
fn cube_interval_of_a_ray_through_the_cube() {
    let inf = f32::INFINITY;
    let got = cube_interval(pair(4.0, 6.0), pair(-inf, inf), pair(-inf, inf));
    assert_eq!(got, Some(pair(4.0, 6.0)));
    let got = cube_interval(pair(-1.0, 1.0), pair(-3.0, 0.5), pair(-0.25, 7.0));
    assert_eq!(got, Some(pair(-0.25, 0.5)));
    let got = cube_interval(pair(1.0, 1.0), pair(1.0, 1.0), pair(1.0, 1.0));
    assert_eq!(got, Some(pair(1.0, 1.0)));
}

#[test]
fn cube_interval_of_a_ray_that_misses() {
    let got = cube_interval(pair(1.0, 3.0), pair(4.0, 6.0), pair(0.0, 9.0));
    assert_eq!(got, None);
    let got = cube_interval(pair(3.0, 5.0), pair(-1.0, 1.0), pair(-1.0, 1.0));
    assert_eq!(got, None);
}

#[test]
fn cube_normal_points_across_the_nearest_face() {
    let at = |x: f32, y: f32, z: f32| cube_normal_axis(&Vec4::point(s(x), s(y), s(z)));
    assert_eq!(at(1.0, 0.5, -0.8), Axis::X);
    assert_eq!(at(-1.0, -0.2, 0.9), Axis::X);
    assert_eq!(at(-0.4, 1.0, -0.1), Axis::Y);
    assert_eq!(at(0.3, -1.0, -0.7), Axis::Y);
    assert_eq!(at(-0.6, 0.3, 1.0), Axis::Z);
    assert_eq!(at(0.4, 0.4, -1.0), Axis::Z);
    assert_eq!(at(1.0, 1.0, 1.0), Axis::X);
    assert_eq!(at(-1.0, -1.0, -1.0), Axis::X);
    assert_eq!(at(0.5, -1.0, 1.0), Axis::Y);
}
