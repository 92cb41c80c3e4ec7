use vstd::prelude::*;
use vstd::arithmetic::div_mod::{lemma_div_is_ordered, lemma_div_multiples_vanish};
use crate::fixed::{div_floor, fx_mul, SCALE};
use crate::ray::Ray;
use crate::vector3::{v3, v3_add, v3_scale, v3_sub, Vector, V3, COMP_BOUND};

verus! {

/// Largest accepted ratio of width to height.
pub const ASPECT_LIMIT: i64 = 8192;

/// The one way constructing a camera can fail.
#[derive(Clone, Copy, Debug, PartialEq, Eq, Structural)]
pub enum CameraError {
    /// The requested view is not wider than it is tall.
    InvalidConfiguration,
}

/// The width-to-height ratio of the view, as a fixed-point quantity.
pub open spec fn aspect_of(width: int, height: int) -> int {
    (width * (SCALE as int)) / height
}

/// An eye point together with an axis-aligned view rectangle one unit
/// in front of it: rays leave `origin` through
/// `lower_left_corner + u * horizontal + v * vertical`.
#[derive(Clone, Copy, Debug, PartialEq, Eq, Structural)]
pub struct Camera {
    pub lower_left_corner: Vector,
    pub horizontal: Vector,
    pub vertical: Vector,
    pub origin: Vector,
}

/// The direction of the ray that leaves the camera through the plane
/// point addressed by `(u, v)`.
pub open spec fn spec_get_ray_dir(cam: Camera, u: int, v: int) -> V3 {
    v3_sub(
        v3_add(
            v3_add(cam.lower_left_corner@, v3_scale(cam.horizontal@, u)),
            v3_scale(cam.vertical@, v),
        ),
        cam.origin@,
    )
}

impl Camera {
    /// Every coordinate of the camera's four vectors is small enough
    /// for the ray computation to stay inside the machine range.
    pub open spec fn wf(self) -> bool {
        &&& -COMP_BOUND <= self.lower_left_corner@.x <= COMP_BOUND
        &&& -COMP_BOUND <= self.lower_left_corner@.y <= COMP_BOUND
        &&& -COMP_BOUND <= self.lower_left_corner@.z <= COMP_BOUND
        &&& -COMP_BOUND <= self.horizontal@.x <= COMP_BOUND
        &&& -COMP_BOUND <= self.horizontal@.y <= COMP_BOUND
        &&& -COMP_BOUND <= self.horizontal@.z <= COMP_BOUND
        &&& -COMP_BOUND <= self.vertical@.x <= COMP_BOUND
        &&& -COMP_BOUND <= self.vertical@.y <= COMP_BOUND
        &&& -COMP_BOUND <= self.vertical@.z <= COMP_BOUND
        &&& -COMP_BOUND <= self.origin@.x <= COMP_BOUND
        &&& -COMP_BOUND <= self.origin@.y <= COMP_BOUND
        &&& -COMP_BOUND <= self.origin@.z <= COMP_BOUND
    }

    /// Places the eye at the world origin looking down the negative z
    /// axis, with the view plane at z = -1, vertical half-height one
    /// and horizontal half-width equal to the aspect ratio. A view
    /// that is not wider than tall is rejected.
    pub fn new(width: i64, height: i64) -> (r: Result<Camera, CameraError>)
        requires
            0 < height <= COMP_BOUND,
            0 < width <= ASPECT_LIMIT * height,
        ensures
            r is Ok <==> width > height,
            r matches Err(e) ==> e == CameraError::InvalidConfiguration,
            r matches Ok(cam) ==> {
                let aspect = aspect_of(width as int, height as int);
                &&& cam.lower_left_corner@ == v3(-aspect, -(SCALE as int), -(SCALE as int))
                &&& cam.horizontal@ == v3(2 * aspect, 0, 0)
                &&& cam.vertical@ == v3(0, 2 * (SCALE as int), 0)
                &&& cam.origin@ == v3(0, 0, 0)
                &&& cam.wf()
            },
    {
        if width <= height {
            Err(CameraError::InvalidConfiguration)
        } else {
            proof {
                lemma_aspect_bounds(width as int, height as int);
            }
            let aspect = div_floor(width * SCALE, height);
            Ok(Camera {
                lower_left_corner: Vector::new(-aspect, -SCALE, -SCALE),
                horizontal: Vector::new(2 * aspect, 0, 0),
                vertical: Vector::new(0, 2 * SCALE, 0),
                origin: Vector::new(0, 0, 0),
            })
        }
    }

    /// The ray from the eye through the plane point addressed by the
    /// normalized coordinates `(u, v)`; values outside [0, 1]
    /// extrapolate linearly beyond the view rectangle. The direction
    /// is intentionally left un-normalized.
    pub fn get_ray(&self, u: i64, v: i64) -> (r: Ray)
        requires
            self.wf(),
            -COMP_BOUND <= u <= COMP_BOUND,
            -COMP_BOUND <= v <= COMP_BOUND,
        ensures
            r.origin == self.origin,
            r.direction@ == spec_get_ray_dir(*self, u as int, v as int),
    {
        let hu = self.horizontal.scale(u);
        let vv = self.vertical.scale(v);
        let d = self.lower_left_corner.plus(hu).plus(vv).minus(self.origin);
        Ray::new(self.origin, d)
    }
}

/// The aspect ratio of an accepted view lies between zero and the
/// aspect limit at the working scale.
proof fn lemma_aspect_bounds(width: int, height: int)
    requires
        0 < height <= COMP_BOUND,
        0 < width <= ASPECT_LIMIT * height,
    ensures
        0 <= aspect_of(width, height) <= ASPECT_LIMIT * (SCALE as int),
        0 <= width * (SCALE as int) <= 0x4000_0000_0000_0000,
{
    let s = SCALE as int;
    let lim = ASPECT_LIMIT * s;
    assert(width * s <= height * lim) by (nonlinear_arith)
        requires 0 < height, width <= ASPECT_LIMIT * height, s == 65536, lim == ASPECT_LIMIT * s;
    assert(height * lim <= 0x4000_0000_0000_0000) by (nonlinear_arith)
        requires 0 < height <= COMP_BOUND as int, lim == 0x2000_0000;
    lemma_div_is_ordered(width * s, height * lim, height);
    lemma_div_multiples_vanish(lim, height);
    lemma_div_is_ordered(0, width * s, height);
    assert(0int / height == 0);
}

/// The rays through the corners of the view rectangle: at `(0, 0)` the
/// direction is exactly `lower_left_corner - origin`, and at `(1, 1)`
/// it is exactly `lower_left_corner + horizontal + vertical - origin`.
pub proof fn lemma_corner_rays(cam: Camera)
    ensures
        spec_get_ray_dir(cam, 0, 0) == v3_sub(cam.lower_left_corner@, cam.origin@),
        spec_get_ray_dir(cam, SCALE as int, SCALE as int) == v3_sub(
            v3_add(v3_add(cam.lower_left_corner@, cam.horizontal@), cam.vertical@),
            cam.origin@,
        ),
{
    let s = SCALE as int;
    lemma_scale_by_zero(cam.horizontal@);
    lemma_scale_by_zero(cam.vertical@);
    lemma_scale_by_one(cam.horizontal@);
    lemma_scale_by_one(cam.vertical@);
    assert(v3_add(cam.lower_left_corner@, v3(0, 0, 0)) == cam.lower_left_corner@);
    assert(v3_add(v3_add(cam.lower_left_corner@, v3(0, 0, 0)), v3(0, 0, 0))
        == cam.lower_left_corner@);
}

/// Scaling by zero yields the zero vector.
proof fn lemma_scale_by_zero(a: V3)
    ensures
        v3_scale(a, 0) == v3(0, 0, 0),
{
    assert(a.x * 0 == 0);
    assert(a.y * 0 == 0);
    assert(a.z * 0 == 0);
    assert(0int / (SCALE as int) == 0);
}

/// Scaling by one whole unit of the fixed-point scale leaves the
/// vector unchanged.
proof fn lemma_scale_by_one(a: V3)
    ensures
        v3_scale(a, SCALE as int) == a,
{
    let s = SCALE as int;
    lemma_div_multiples_vanish(a.x, s);
    lemma_div_multiples_vanish(a.y, s);
    lemma_div_multiples_vanish(a.z, s);
    assert(a.x * s == s * a.x);
    assert(a.y * s == s * a.y);
    assert(a.z * s == s * a.z);
}

} // verus!
