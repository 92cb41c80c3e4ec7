use vstd::prelude::*;
use crate::vector3::Vector;

verus! {

/// A half-line through the scene: the points `origin + t * direction`
/// for `t >= 0`. The direction is stored verbatim and is not assumed
/// to be unit length.
#[derive(Clone, Copy, Debug, PartialEq, Eq, Structural)]
pub struct Ray {
    pub origin: Vector,
    pub direction: Vector,
}

impl Ray {
    /// A ray with exactly the given origin and direction; neither is
    /// normalized or validated.
    pub fn new(origin: Vector, direction: Vector) -> (r: Ray)
        ensures
            r.origin == origin,
            r.direction == direction,
    {
        Ray { origin, direction }
    }

    /// The direction of the ray, by copy.
    pub fn dir(&self) -> (d: Vector)
        ensures
            d == self.direction,
    {
        self.direction
    }

    /// The origin of the ray, by copy.
    pub fn origin(&self) -> (o: Vector)
        ensures
            o == self.origin,
    {
        self.origin
    }
}

/// How and where a ray struck a surface: the intersection point, the
/// surface normal there (unit length, oriented against the incoming
/// ray, by the intersection routine's convention), and the parametric
/// distance along the ray.
#[derive(Clone, Copy, Debug, PartialEq, Eq, Structural)]
pub struct HitRecord {
    pub p: Vector,
    pub normal: Vector,
    pub t: i64,
}

impl HitRecord {
    /// A record with exactly the given fields.
    pub fn new(p: Vector, normal: Vector, t: i64) -> (h: HitRecord)
        ensures
            h.p == p,
            h.normal == normal,
            h.t == t,
    {
        HitRecord { p, normal, t }
    }
}

} // verus!
