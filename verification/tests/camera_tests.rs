use raytrace_core::camera::{Camera, CameraError};
use raytrace_core::fixed::SCALE;
use raytrace_core::vector3::Vector;

#[test]
fn square_view_is_rejected() {
    assert_eq!(Camera::new(SCALE, SCALE), Err(CameraError::InvalidConfiguration));
}

#[test]
fn portrait_view_is_rejected() {
    assert_eq!(Camera::new(SCALE, 2 * SCALE), Err(CameraError::InvalidConfiguration));
}

#[test]
fn sixteen_by_nine_view_rectangle() {
    let cam = Camera::new(16 * SCALE, 9 * SCALE).unwrap();
    // aspect = 16/9 ~ 1.7778, at the working scale 116508.
    assert_eq!(cam.horizontal, Vector::new(233016, 0, 0));
    assert_eq!(cam.vertical, Vector::new(0, 2 * SCALE, 0));
    assert_eq!(cam.lower_left_corner, Vector::new(-116508, -SCALE, -SCALE));
    assert_eq!(cam.origin, Vector::new(0, 0, 0));
}

#[test]
fn corner_rays_span_the_view_rectangle() {
    let cam = Camera::new(2 * SCALE, SCALE).unwrap();
    assert_eq!(cam.lower_left_corner, Vector::new(-2 * SCALE, -SCALE, -SCALE));
    assert_eq!(cam.horizontal, Vector::new(4 * SCALE, 0, 0));
    assert_eq!(cam.vertical, Vector::new(0, 2 * SCALE, 0));

    let low = cam.get_ray(0, 0);
    assert_eq!(low.origin(), Vector::new(0, 0, 0));
    assert_eq!(low.dir(), cam.lower_left_corner.minus(cam.origin));

    let high = cam.get_ray(SCALE, SCALE);
    assert_eq!(
        high.dir(),
        cam.lower_left_corner
            .plus(cam.horizontal)
            .plus(cam.vertical)
            .minus(cam.origin)
    );
    assert_eq!(high.dir(), Vector::new(2 * SCALE, SCALE, -SCALE));
}

#[test]
fn center_ray_looks_down_negative_z() {
    let cam = Camera::new(2 * SCALE, SCALE).unwrap();
    let r = cam.get_ray(SCALE / 2, SCALE / 2);
    assert_eq!(r.dir(), Vector::new(0, 0, -SCALE));
}
