use vstd::prelude::*;
use crate::fixed::{fx_mul, lemma_fx_div_bound, SCALE};
use crate::ray::{HitRecord, Ray};
use crate::rng::RandomSource;
use crate::vector3::{
    random_in_unit_sphere, v3, v3_add, v3_dot, v3_dot_raw, v3_normalize, v3_scale, v3_sub, Vector,
    V3, COMP_BOUND,
};

verus! {

/// Largest coordinate magnitude accepted by the reflection formula.
pub const REFLECT_BOUND: i64 = 0x10_0000;

/// The incident vector mirrored about the surface normal at the
/// working scale: `v - 2 * dot(v, n) * n`.
pub open spec fn v3_reflect(v: V3, n: V3) -> V3 {
    v3_sub(v, v3_scale(n, 2 * v3_dot(v, n)))
}

/// The mirrored incident vector at exact arithmetic, with no
/// fixed-point rounding: every term of `dot(n, n) * v - 2 * dot(v, n) * n`
/// is an exact integer, at the cost of the result being `dot(n, n)`
/// times larger than the incident vector.
pub open spec fn v3_reflect_exact(v: V3, n: V3) -> V3 {
    V3 {
        x: v3_dot_raw(n, n) * v.x - 2 * v3_dot_raw(v, n) * n.x,
        y: v3_dot_raw(n, n) * v.y - 2 * v3_dot_raw(v, n) * n.y,
        z: v3_dot_raw(n, n) * v.z - 2 * v3_dot_raw(v, n) * n.z,
    }
}

/// The mirror law at exact arithmetic: reflection flips the component
/// of the incident vector along the normal, so the angle of incidence
/// equals the angle of reflection. Both sides carry the factor
/// `dot(n, n)` that `v3_reflect_exact` introduces; for a normal that is
/// exactly unit at the working scale, that factor is `SCALE * SCALE`.
pub proof fn lemma_reflection_mirror(v: V3, n: V3)
    ensures
        v3_dot_raw(v3_reflect_exact(v, n), n) == -(v3_dot_raw(n, n) * v3_dot_raw(v, n)),
{
    let nn = v3_dot_raw(n, n);
    let vn = v3_dot_raw(v, n);
    assert((nn * v.x - 2 * vn * n.x) * n.x == nn * (v.x * n.x) - 2 * (vn * (n.x * n.x)))
        by (nonlinear_arith);
    assert((nn * v.y - 2 * vn * n.y) * n.y == nn * (v.y * n.y) - 2 * (vn * (n.y * n.y)))
        by (nonlinear_arith);
    assert((nn * v.z - 2 * vn * n.z) * n.z == nn * (v.z * n.z) - 2 * (vn * (n.z * n.z)))
        by (nonlinear_arith);
    assert(nn * (v.x * n.x) + nn * (v.y * n.y) + nn * (v.z * n.z) == nn * vn)
        by (nonlinear_arith)
        requires vn == v.x * n.x + v.y * n.y + v.z * n.z;
    assert(vn * (n.x * n.x) + vn * (n.y * n.y) + vn * (n.z * n.z) == vn * nn)
        by (nonlinear_arith)
        requires nn == n.x * n.x + n.y * n.y + n.z * n.z;
    assert(vn * nn == nn * vn) by (nonlinear_arith);
}

/// Mirrors the incident vector `v` about the surface normal `n`.
pub fn reflect(v: Vector, n: Vector) -> (r: Vector)
    requires
        -REFLECT_BOUND <= v@.x <= REFLECT_BOUND,
        -REFLECT_BOUND <= v@.y <= REFLECT_BOUND,
        -REFLECT_BOUND <= v@.z <= REFLECT_BOUND,
        -REFLECT_BOUND <= n@.x <= REFLECT_BOUND,
        -REFLECT_BOUND <= n@.y <= REFLECT_BOUND,
        -REFLECT_BOUND <= n@.z <= REFLECT_BOUND,
    ensures
        r@ == v3_reflect(v@, n@),
        -0x7000_0000 <= r@.x <= 0x7000_0000,
        -0x7000_0000 <= r@.y <= 0x7000_0000,
        -0x7000_0000 <= r@.z <= 0x7000_0000,
{
    proof {
        lemma_reflect_dot_bound(v@, n@);
    }
    let d = Vector::dot(v, n);
    let scaled = n.scale(2 * d);
    proof {
        lemma_reflect_term_bound(v@, n@, d as int);
    }
    v.minus(scaled)
}

/// The scaled dot product of two vectors within the reflection bound
/// stays well inside the scalar range the scaling step accepts.
proof fn lemma_reflect_dot_bound(v: V3, n: V3)
    requires
        -REFLECT_BOUND <= v.x <= REFLECT_BOUND,
        -REFLECT_BOUND <= v.y <= REFLECT_BOUND,
        -REFLECT_BOUND <= v.z <= REFLECT_BOUND,
        -REFLECT_BOUND <= n.x <= REFLECT_BOUND,
        -REFLECT_BOUND <= n.y <= REFLECT_BOUND,
        -REFLECT_BOUND <= n.z <= REFLECT_BOUND,
    ensures
        -0x300_0000 <= v3_dot(v, n) <= 0x300_0000,
{
    assert(-0x100_0000_0000 <= v.x * n.x <= 0x100_0000_0000) by (nonlinear_arith)
        requires -0x10_0000 <= v.x <= 0x10_0000, -0x10_0000 <= n.x <= 0x10_0000;
    assert(-0x100_0000_0000 <= v.y * n.y <= 0x100_0000_0000) by (nonlinear_arith)
        requires -0x10_0000 <= v.y <= 0x10_0000, -0x10_0000 <= n.y <= 0x10_0000;
    assert(-0x100_0000_0000 <= v.z * n.z <= 0x100_0000_0000) by (nonlinear_arith)
        requires -0x10_0000 <= v.z <= 0x10_0000, -0x10_0000 <= n.z <= 0x10_0000;
    lemma_fx_div_bound(v3_dot_raw(v, n), 0x300_0000);
}

/// Each coordinate of the scaled normal term of the reflection formula
/// is bounded, so the final difference stays inside the machine range.
proof fn lemma_reflect_term_bound(v: V3, n: V3, d: int)
    requires
        -REFLECT_BOUND <= n.x <= REFLECT_BOUND,
        -REFLECT_BOUND <= n.y <= REFLECT_BOUND,
        -REFLECT_BOUND <= n.z <= REFLECT_BOUND,
        -0x300_0000 <= d <= 0x300_0000,
    ensures
        -0x6000_0000 <= fx_mul(n.x, 2 * d) <= 0x6000_0000,
        -0x6000_0000 <= fx_mul(n.y, 2 * d) <= 0x6000_0000,
        -0x6000_0000 <= fx_mul(n.z, 2 * d) <= 0x6000_0000,
{
    assert(-0x6000_0000_0000 <= n.x * (2 * d) <= 0x6000_0000_0000) by (nonlinear_arith)
        requires -0x10_0000 <= n.x <= 0x10_0000, -0x300_0000 <= d <= 0x300_0000;
    assert(-0x6000_0000_0000 <= n.y * (2 * d) <= 0x6000_0000_0000) by (nonlinear_arith)
        requires -0x10_0000 <= n.y <= 0x10_0000, -0x300_0000 <= d <= 0x300_0000;
    assert(-0x6000_0000_0000 <= n.z * (2 * d) <= 0x6000_0000_0000) by (nonlinear_arith)
        requires -0x10_0000 <= n.z <= 0x10_0000, -0x300_0000 <= d <= 0x300_0000;
    lemma_fx_div_bound(n.x * (2 * d), 0x6000_0000);
    lemma_fx_div_bound(n.y * (2 * d), 0x6000_0000);
    lemma_fx_div_bound(n.z * (2 * d), 0x6000_0000);
}

/// A metallic material: reflects the incoming ray about the surface
/// normal, blurred by a roughness parameter, and tints it by the
/// material's reflectance color.
#[derive(Clone, Copy, Debug, PartialEq, Eq, Structural)]
pub struct Metal {
    pub albedo: Vector,
    pub fuzz: i64,
}

impl Metal {
    /// The roughness parameter is nonnegative and small enough for the
    /// perturbation arithmetic to stay inside the machine range; zero
    /// is a perfect mirror, one whole unit of the scale a heavy blur.
    pub open spec fn wf(self) -> bool {
        0 <= self.fuzz <= COMP_BOUND
    }

    /// A metal with reflectance color `(r, g, b)` and roughness `fuzz`.
    pub fn new(r: i64, g: i64, b: i64, fuzz: i64) -> (m: Metal)
        requires
            0 <= fuzz <= COMP_BOUND,
        ensures
            m.albedo@ == v3(r as int, g as int, b as int),
            m.fuzz == fuzz,
            m.wf(),
    {
        Metal { albedo: Vector::new(r, g, b), fuzz }
    }

    /// Scatters an incoming ray at a hit: the normalized incoming
    /// direction is mirrored about the surface normal, perturbed by
    /// `fuzz` times a random point in the unit ball, and re-emitted
    /// from the hit point. The attenuation is the albedo whatever
    /// happens; the ray counts as scattered exactly when the outgoing
    /// direction leaves the surface, that is, when its real dot
    /// product with the normal is strictly positive.
    pub fn scatter(&self, r_in: Ray, hit_record: HitRecord, rng: &mut RandomSource) -> (result: (
        bool,
        Vector,
        Ray,
    ))
        requires
            self.wf(),
            -COMP_BOUND <= r_in.direction@.x <= COMP_BOUND,
            -COMP_BOUND <= r_in.direction@.y <= COMP_BOUND,
            -COMP_BOUND <= r_in.direction@.z <= COMP_BOUND,
            -SCALE <= hit_record.normal@.x <= SCALE,
            -SCALE <= hit_record.normal@.y <= SCALE,
            -SCALE <= hit_record.normal@.z <= SCALE,
        ensures
            result.1 == self.albedo,
            result.2.origin == hit_record.p,
            result.0 <==> v3_dot_raw(result.2.direction@, hit_record.normal@) > 0,
            self.fuzz == 0 ==> result.2.direction@ == v3_reflect(
                v3_normalize(r_in.direction@),
                hit_record.normal@,
            ),
            exists|p: V3|
                {
                    &&& #[trigger] v3_dot_raw(p, p) < (SCALE as int) * (SCALE as int)
                    &&& result.2.direction@ == v3_add(
                        v3_reflect(v3_normalize(r_in.direction@), hit_record.normal@),
                        v3_scale(p, self.fuzz as int),
                    )
                },
    {
        let nd = r_in.dir().normalize();
        let reflected = reflect(nd, hit_record.normal);
        let p = random_in_unit_sphere(rng);
        proof {
            lemma_fuzz_offset_bound(p@, self.fuzz as int);
        }
        let offset = p.scale(self.fuzz);
        let dir = reflected.plus(offset);
        let scattered = Ray::new(hit_record.p, dir);
        proof {
            lemma_decision_products(dir@, hit_record.normal@);
            if self.fuzz == 0 {
                assert(offset@ == v3(0, 0, 0)) by {
                    assert(p@.x * 0 == 0);
                    assert(p@.y * 0 == 0);
                    assert(p@.z * 0 == 0);
                    assert(0int / (SCALE as int) == 0);
                }
            }
        }
        let raw = Vector::dot_unscaled(dir, hit_record.normal);
        proof {
            assert(v3_dot_raw(p@, p@) < (SCALE as int) * (SCALE as int) && dir@ == v3_add(
                v3_reflect(v3_normalize(r_in.direction@), hit_record.normal@),
                v3_scale(p@, self.fuzz as int),
            ));
        }
        (raw > 0, self.albedo, scattered)
    }
}

/// The fuzz perturbation keeps each coordinate within the roughness
/// parameter itself, since the random point lies inside the unit ball.
proof fn lemma_fuzz_offset_bound(p: V3, fuzz: int)
    requires
        -(SCALE as int) <= p.x <= SCALE as int,
        -(SCALE as int) <= p.y <= SCALE as int,
        -(SCALE as int) <= p.z <= SCALE as int,
        0 <= fuzz <= COMP_BOUND as int,
    ensures
        -(COMP_BOUND as int) <= fx_mul(p.x, fuzz) <= COMP_BOUND as int,
        -(COMP_BOUND as int) <= fx_mul(p.y, fuzz) <= COMP_BOUND as int,
        -(COMP_BOUND as int) <= fx_mul(p.z, fuzz) <= COMP_BOUND as int,
{
    assert(-0x4000_0000_0000 <= p.x * fuzz <= 0x4000_0000_0000) by (nonlinear_arith)
        requires -0x1_0000 <= p.x <= 0x1_0000, 0 <= fuzz <= 0x4000_0000;
    assert(-0x4000_0000_0000 <= p.y * fuzz <= 0x4000_0000_0000) by (nonlinear_arith)
        requires -0x1_0000 <= p.y <= 0x1_0000, 0 <= fuzz <= 0x4000_0000;
    assert(-0x4000_0000_0000 <= p.z * fuzz <= 0x4000_0000_0000) by (nonlinear_arith)
        requires -0x1_0000 <= p.z <= 0x1_0000, 0 <= fuzz <= 0x4000_0000;
    lemma_fx_div_bound(p.x * fuzz, COMP_BOUND as int);
    lemma_fx_div_bound(p.y * fuzz, COMP_BOUND as int);
    lemma_fx_div_bound(p.z * fuzz, COMP_BOUND as int);
}

/// The products that decide whether the scattered ray leaves the
/// surface stay inside the machine range.
proof fn lemma_decision_products(dir: V3, n: V3)
    requires
        -0xB000_0000 <= dir.x <= 0xB000_0000,
        -0xB000_0000 <= dir.y <= 0xB000_0000,
        -0xB000_0000 <= dir.z <= 0xB000_0000,
        -(SCALE as int) <= n.x <= SCALE as int,
        -(SCALE as int) <= n.y <= SCALE as int,
        -(SCALE as int) <= n.z <= SCALE as int,
    ensures
        -0x1000_0000_0000_0000 <= dir.x * n.x <= 0x1000_0000_0000_0000,
        -0x1000_0000_0000_0000 <= dir.y * n.y <= 0x1000_0000_0000_0000,
        -0x1000_0000_0000_0000 <= dir.z * n.z <= 0x1000_0000_0000_0000,
{
    assert(-0xB000_0000_0000 <= dir.x * n.x <= 0xB000_0000_0000) by (nonlinear_arith)
        requires -0xB000_0000 <= dir.x <= 0xB000_0000, -0x1_0000 <= n.x <= 0x1_0000;
    assert(-0xB000_0000_0000 <= dir.y * n.y <= 0xB000_0000_0000) by (nonlinear_arith)
        requires -0xB000_0000 <= dir.y <= 0xB000_0000, -0x1_0000 <= n.y <= 0x1_0000;
    assert(-0xB000_0000_0000 <= dir.z * n.z <= 0xB000_0000_0000) by (nonlinear_arith)
        requires -0xB000_0000 <= dir.z <= 0xB000_0000, -0x1_0000 <= n.z <= 0x1_0000;
}

} // verus!
