use raytrace_core::fixed::SCALE;
use raytrace_core::rng::RandomSource;
use raytrace_core::vector3::{random_in_unit_sphere, Vector};

#[test]
fn new_stores_components() {
    let v = Vector::new(1, -2, 3);
    assert_eq!(v.x(), 1);
    assert_eq!(v.y(), -2);
    assert_eq!(v.z(), 3);
}

#[test]
fn unit_is_one_in_each_component() {
    assert_eq!(Vector::unit(), Vector::new(SCALE, SCALE, SCALE));
}

#[test]
fn plus_and_minus_are_componentwise() {
    let a = Vector::new(SCALE, 2 * SCALE, -SCALE);
    let b = Vector::new(3, -5, 7);
    assert_eq!(a.plus(b), Vector::new(SCALE + 3, 2 * SCALE - 5, -SCALE + 7));
    assert_eq!(a.minus(b), Vector::new(SCALE - 3, 2 * SCALE + 5, -SCALE - 7));
}

#[test]
fn scale_by_half_halves() {
    let v = Vector::new(SCALE, 2 * SCALE, -SCALE);
    assert_eq!(v.scale(SCALE / 2), Vector::new(32768, 65536, -32768));
}

#[test]
fn scale_assign_matches_scale() {
    let mut v = Vector::new(SCALE, 2 * SCALE, -SCALE);
    v.scale_assign(SCALE / 2);
    assert_eq!(v, Vector::new(SCALE, 2 * SCALE, -SCALE).scale(SCALE / 2));
}

#[test]
fn dot_of_known_vectors() {
    let a = Vector::new(SCALE, 2 * SCALE, 3 * SCALE);
    let b = Vector::new(2 * SCALE, SCALE, SCALE);
    assert_eq!(Vector::dot(a, b), 7 * SCALE);
}

#[test]
fn dot_is_commutative() {
    let a = Vector::new(12345, -678, 9012);
    let b = Vector::new(-345, 67890, 1234);
    assert_eq!(Vector::dot(a, b), Vector::dot(b, a));
    assert_eq!(Vector::dot_unscaled(a, b), Vector::dot_unscaled(b, a));
}

#[test]
fn cross_of_axes_is_right_handed() {
    let x_axis = Vector::new(SCALE, 0, 0);
    let y_axis = Vector::new(0, SCALE, 0);
    assert_eq!(Vector::cross(x_axis, y_axis), Vector::new(0, 0, SCALE));
}

#[test]
fn cross_with_itself_is_zero() {
    let v = Vector::new(123456, -789, 4096);
    assert_eq!(Vector::cross(v, v), Vector::new(0, 0, 0));
}

#[test]
fn normalize_three_four_zero() {
    let v = Vector::new(3 * SCALE, 4 * SCALE, 0);
    assert_eq!(v.normalize(), Vector::new(39321, 52428, 0));
}

#[test]
fn normalize_magnitude_within_one_percent() {
    let n = Vector::new(3 * SCALE, 4 * SCALE, 0).normalize();
    let mag2 = Vector::dot_unscaled(n, n);
    let one = SCALE * SCALE;
    assert!(one - one / 100 <= mag2 && mag2 <= one + one / 100);
    let along = Vector::dot_unscaled(n, Vector::new(3 * SCALE, 4 * SCALE, 0));
    assert!(along > 0);
}

#[test]
fn normalize_zero_vector_is_unchanged() {
    let v = Vector::new(0, 0, 0);
    assert_eq!(v.normalize(), v);
}

#[test]
fn rand_components_are_unit_fractions() {
    let mut rng = RandomSource::from_seed(42);
    for _ in 0..32 {
        let v = Vector::rand(&mut rng);
        assert!(0 <= v.x() && v.x() < SCALE);
        assert!(0 <= v.y() && v.y() < SCALE);
        assert!(0 <= v.z() && v.z() < SCALE);
    }
}

#[test]
fn rand_draws_vary_with_the_stream() {
    let mut rng = RandomSource::from_seed(7);
    let a = Vector::rand(&mut rng);
    let b = Vector::rand(&mut rng);
    let c = Vector::rand(&mut rng);
    assert!(a != b || b != c);
}

#[test]
fn unit_sphere_points_are_strictly_inside() {
    let mut rng = RandomSource::from_seed(1234);
    for _ in 0..64 {
        let p = random_in_unit_sphere(&mut rng);
        assert!(Vector::dot_unscaled(p, p) < SCALE * SCALE);
    }
}

#[test]
fn normalize_at_the_size_limit() {
    let c = 0x4000_0000;
    let v = Vector::new(c, c, c);
    assert_eq!(v.normalize(), Vector::new(37837, 37837, 37837));
}
