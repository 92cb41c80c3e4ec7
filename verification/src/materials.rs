//! Materials: how a surface scatters an incoming ray into an outgoing
//! one, with a color attenuation.

pub mod metal;

use vstd::prelude::*;
use crate::fixed::SCALE;
use crate::ray::{HitRecord, Ray};
use crate::rng::RandomSource;
use crate::vector3::{v3_add, v3_dot_raw, v3_normalize, v3_scale, Vector, V3, COMP_BOUND};
use crate::materials::metal::{v3_reflect, Metal};

verus! {

/// The material capability: a closed sum over the known material
/// variants, each deciding how light scatters at a hit.
#[derive(Clone, Copy, Debug, PartialEq, Eq, Structural)]
pub enum Material {
    Metal(Metal),
}

impl Material {
    /// The parameters of the variant lie in the ranges its scattering
    /// arithmetic needs.
    pub open spec fn wf(self) -> bool {
        match self {
            Material::Metal(m) => m.wf(),
        }
    }

    /// The reflectance color of the variant.
    pub open spec fn spec_albedo(self) -> Vector {
        match self {
            Material::Metal(m) => m.albedo,
        }
    }

    /// Scatters an incoming ray at a hit, dispatching on the variant:
    /// the attenuation is always the variant's reflectance color, and
    /// the ray counts as scattered exactly when the outgoing direction
    /// leaves the surface.
    pub fn scatter(&self, r_in: Ray, hit_record: HitRecord, rng: &mut RandomSource) -> (result: (
        bool,
        Vector,
        Ray,
    ))
        requires
            self.wf(),
            -COMP_BOUND <= r_in.direction@.x <= COMP_BOUND,
            -COMP_BOUND <= r_in.direction@.y <= COMP_BOUND,
            -COMP_BOUND <= r_in.direction@.z <= COMP_BOUND,
            -SCALE <= hit_record.normal@.x <= SCALE,
            -SCALE <= hit_record.normal@.y <= SCALE,
            -SCALE <= hit_record.normal@.z <= SCALE,
        ensures
            result.1 == self.spec_albedo(),
            result.2.origin == hit_record.p,
            result.0 <==> v3_dot_raw(result.2.direction@, hit_record.normal@) > 0,
            self matches Material::Metal(m) && m.fuzz == 0 ==> result.2.direction@ == v3_reflect(
                v3_normalize(r_in.direction@),
                hit_record.normal@,
            ),
            self matches Material::Metal(m) ==> exists|p: V3|
                {
                    &&& #[trigger] v3_dot_raw(p, p) < (SCALE as int) * (SCALE as int)
                    &&& result.2.direction@ == v3_add(
                        v3_reflect(v3_normalize(r_in.direction@), hit_record.normal@),
                        v3_scale(p, m.fuzz as int),
                    )
                },
    {
        match self {
            Material::Metal(m) => m.scatter(r_in, hit_record, rng),
        }
    }
}

} // verus!
