use vstd::prelude::*;
use crate::fixed::{
    fx_mul, is_sqrt, isqrt, div_floor, lemma_div_bounded, lemma_fx_div_bound,
    lemma_sqrt_floor_agrees, sqrt_floor, SCALE,
};
use crate::rng::RandomSource;

verus! {

/// Largest coordinate magnitude accepted by the general vector
/// operations; it keeps every intermediate product inside `i64`.
pub const COMP_BOUND: i64 = 0x4000_0000;

/// Largest coordinate magnitude accepted by componentwise sums.
pub const SUM_BOUND: i64 = 0x3FFF_FFFF_FFFF_FFFF;

/// Mathematical model of a vector: three unbounded integer coordinates
/// at the working fixed-point scale.
pub struct V3 {
    pub x: int,
    pub y: int,
    pub z: int,
}

/// Builds a model vector from its coordinates.
pub open spec fn v3(x: int, y: int, z: int) -> V3 {
    V3 { x, y, z }
}

/// Componentwise sum.
pub open spec fn v3_add(a: V3, b: V3) -> V3 {
    V3 { x: a.x + b.x, y: a.y + b.y, z: a.z + b.z }
}

/// Componentwise difference.
pub open spec fn v3_sub(a: V3, b: V3) -> V3 {
    V3 { x: a.x - b.x, y: a.y - b.y, z: a.z - b.z }
}

/// Each coordinate multiplied by the fixed-point scalar `k`.
pub open spec fn v3_scale(a: V3, k: int) -> V3 {
    V3 { x: fx_mul(a.x, k), y: fx_mul(a.y, k), z: fx_mul(a.z, k) }
}

/// Sum of the coordinate products, before rescaling: `SCALE * SCALE`
/// times the real dot product of the two vectors.
pub open spec fn v3_dot_raw(a: V3, b: V3) -> int {
    a.x * b.x + a.y * b.y + a.z * b.z
}

/// The dot product at the working scale: the raw coordinate-product sum
/// brought back down by one factor of the scale.
pub open spec fn v3_dot(a: V3, b: V3) -> int {
    v3_dot_raw(a, b) / (SCALE as int)
}

/// The right-handed cross product at the working scale.
pub open spec fn v3_cross(a: V3, b: V3) -> V3 {
    V3 {
        x: fx_mul(a.y, b.z) - fx_mul(a.z, b.y),
        y: fx_mul(a.z, b.x) - fx_mul(a.x, b.z),
        z: fx_mul(a.x, b.y) - fx_mul(a.y, b.x),
    }
}

/// The vector rescaled to magnitude one: each coordinate is multiplied
/// by the scale and divided by the integer square root of the raw
/// squared magnitude. A zero vector has no direction and is returned
/// unchanged.
pub open spec fn v3_normalize(v: V3) -> V3 {
    let m = sqrt_floor(v3_dot_raw(v, v));
    if m <= 0 {
        v
    } else {
        V3 {
            x: (v.x * (SCALE as int)) / m,
            y: (v.y * (SCALE as int)) / m,
            z: (v.z * (SCALE as int)) / m,
        }
    }
}

/// A vector of three fixed-point coordinates. A plain value: copied,
/// never shared, with no invariant beyond its coordinates.
#[derive(Clone, Copy, Debug, PartialEq, Eq, Structural)]
pub struct Vector {
    x: i64,
    y: i64,
    z: i64,
}

impl View for Vector {
    type V = V3;

    closed spec fn view(&self) -> V3 {
        V3 { x: self.x as int, y: self.y as int, z: self.z as int }
    }
}

impl Vector {
    /// A vector with exactly the given coordinates.
    pub fn new(x: i64, y: i64, z: i64) -> (v: Vector)
        ensures
            v@ == v3(x as int, y as int, z as int),
    {
        Vector { x, y, z }
    }

    /// The constant vector whose three coordinates are one unit each.
    pub fn unit() -> (v: Vector)
        ensures
            v@ == v3(SCALE as int, SCALE as int, SCALE as int),
    {
        Vector { x: SCALE, y: SCALE, z: SCALE }
    }

    /// A vector whose three coordinates are drawn independently from
    /// the unit interval [0, 1).
    pub fn rand(rng: &mut RandomSource) -> (v: Vector)
        ensures
            0 <= v@.x < SCALE,
            0 <= v@.y < SCALE,
            0 <= v@.z < SCALE,
    {
        let x = rng.next_fraction();
        let y = rng.next_fraction();
        let z = rng.next_fraction();
        Vector { x, y, z }
    }

    /// The first coordinate.
    pub fn x(&self) -> (r: i64)
        ensures
            r == self@.x,
    {
        self.x
    }

    /// The second coordinate.
    pub fn y(&self) -> (r: i64)
        ensures
            r == self@.y,
    {
        self.y
    }

    /// The third coordinate.
    pub fn z(&self) -> (r: i64)
        ensures
            r == self@.z,
    {
        self.z
    }

    /// Componentwise vector sum.
    pub fn plus(self, rhs: Vector) -> (r: Vector)
        requires
            -SUM_BOUND <= self@.x + rhs@.x <= SUM_BOUND,
            -SUM_BOUND <= self@.y + rhs@.y <= SUM_BOUND,
            -SUM_BOUND <= self@.z + rhs@.z <= SUM_BOUND,
        ensures
            r@ == v3_add(self@, rhs@),
    {
        Vector { x: self.x + rhs.x, y: self.y + rhs.y, z: self.z + rhs.z }
    }

    /// Componentwise vector difference.
    pub fn minus(self, rhs: Vector) -> (r: Vector)
        requires
            -SUM_BOUND <= self@.x - rhs@.x <= SUM_BOUND,
            -SUM_BOUND <= self@.y - rhs@.y <= SUM_BOUND,
            -SUM_BOUND <= self@.z - rhs@.z <= SUM_BOUND,
        ensures
            r@ == v3_sub(self@, rhs@),
    {
        Vector { x: self.x - rhs.x, y: self.y - rhs.y, z: self.z - rhs.z }
    }

    /// The vector with each coordinate multiplied by the fixed-point
    /// scalar `k`.
    pub fn scale(self, k: i64) -> (r: Vector)
        requires
            -COMP_BOUND <= self@.x <= COMP_BOUND,
            -COMP_BOUND <= self@.y <= COMP_BOUND,
            -COMP_BOUND <= self@.z <= COMP_BOUND,
            -COMP_BOUND <= k <= COMP_BOUND,
        ensures
            r@ == v3_scale(self@, k as int),
            -0x1_0000_0000_0000 <= r@.x <= 0x1_0000_0000_0000,
            -0x1_0000_0000_0000 <= r@.y <= 0x1_0000_0000_0000,
            -0x1_0000_0000_0000 <= r@.z <= 0x1_0000_0000_0000,
    {
        proof {
            lemma_scale_products(self@, k as int);
        }
        Vector {
            x: div_floor(self.x * k, SCALE),
            y: div_floor(self.y * k, SCALE),
            z: div_floor(self.z * k, SCALE),
        }
    }

    /// Multiplies each coordinate of the vector in place by the
    /// fixed-point scalar `k`.
    pub fn scale_assign(&mut self, k: i64)
        requires
            -COMP_BOUND <= old(self)@.x <= COMP_BOUND,
            -COMP_BOUND <= old(self)@.y <= COMP_BOUND,
            -COMP_BOUND <= old(self)@.z <= COMP_BOUND,
            -COMP_BOUND <= k <= COMP_BOUND,
        ensures
            final(self)@ == v3_scale(old(self)@, k as int),
    {
        *self = self.scale(k);
    }

    /// The dot product of two vectors, at the working scale.
    pub fn dot(lhs: Vector, rhs: Vector) -> (r: i64)
        requires
            -COMP_BOUND <= lhs@.x <= COMP_BOUND,
            -COMP_BOUND <= lhs@.y <= COMP_BOUND,
            -COMP_BOUND <= lhs@.z <= COMP_BOUND,
            -COMP_BOUND <= rhs@.x <= COMP_BOUND,
            -COMP_BOUND <= rhs@.y <= COMP_BOUND,
            -COMP_BOUND <= rhs@.z <= COMP_BOUND,
        ensures
            r == v3_dot(lhs@, rhs@),
    {
        proof {
            lemma_product_bound(lhs@.x, rhs@.x, COMP_BOUND as int);
            lemma_product_bound(lhs@.y, rhs@.y, COMP_BOUND as int);
            lemma_product_bound(lhs@.z, rhs@.z, COMP_BOUND as int);
        }
        let raw = Vector::dot_unscaled(lhs, rhs);
        proof {
            lemma_fx_div_bound(raw as int, 0x3000_0000_0000);
        }
        div_floor(raw, SCALE)
    }

    /// The raw coordinate-product sum of two vectors: `SCALE * SCALE`
    /// times their real dot product, computed without any rounding, so
    /// its sign is exactly the sign of the real dot product.
    pub fn dot_unscaled(lhs: Vector, rhs: Vector) -> (r: i64)
        requires
            -0x1000_0000_0000_0000 <= lhs@.x * rhs@.x <= 0x1000_0000_0000_0000,
            -0x1000_0000_0000_0000 <= lhs@.y * rhs@.y <= 0x1000_0000_0000_0000,
            -0x1000_0000_0000_0000 <= lhs@.z * rhs@.z <= 0x1000_0000_0000_0000,
        ensures
            r == v3_dot_raw(lhs@, rhs@),
    {
        lhs.x * rhs.x + lhs.y * rhs.y + lhs.z * rhs.z
    }

    /// The right-handed cross product of two vectors.
    pub fn cross(lhs: Vector, rhs: Vector) -> (r: Vector)
        requires
            -COMP_BOUND <= lhs@.x <= COMP_BOUND,
            -COMP_BOUND <= lhs@.y <= COMP_BOUND,
            -COMP_BOUND <= lhs@.z <= COMP_BOUND,
            -COMP_BOUND <= rhs@.x <= COMP_BOUND,
            -COMP_BOUND <= rhs@.y <= COMP_BOUND,
            -COMP_BOUND <= rhs@.z <= COMP_BOUND,
        ensures
            r@ == v3_cross(lhs@, rhs@),
    {
        proof {
            lemma_cross_products(lhs@, rhs@);
        }
        Vector {
            x: div_floor(lhs.y * rhs.z, SCALE) - div_floor(lhs.z * rhs.y, SCALE),
            y: div_floor(lhs.z * rhs.x, SCALE) - div_floor(lhs.x * rhs.z, SCALE),
            z: div_floor(lhs.x * rhs.y, SCALE) - div_floor(lhs.y * rhs.x, SCALE),
        }
    }

    /// Rescales the vector to magnitude one, keeping its direction.
    /// A zero vector is returned unchanged.
    pub fn normalize(self) -> (r: Vector)
        requires
            -COMP_BOUND <= self@.x <= COMP_BOUND,
            -COMP_BOUND <= self@.y <= COMP_BOUND,
            -COMP_BOUND <= self@.z <= COMP_BOUND,
        ensures
            r@ == v3_normalize(self@),
            -SCALE <= r@.x <= SCALE,
            -SCALE <= r@.y <= SCALE,
            -SCALE <= r@.z <= SCALE,
    {
        proof {
            lemma_product_bound(self@.x, self@.x, COMP_BOUND as int);
            lemma_product_bound(self@.y, self@.y, COMP_BOUND as int);
            lemma_product_bound(self@.z, self@.z, COMP_BOUND as int);
            lemma_squares_nonneg(self@.x, self@.y, self@.z);
        }
        let s = self.x * self.x + self.y * self.y + self.z * self.z;
        let m64 = isqrt(s as u64);
        proof {
            lemma_sqrt_floor_agrees(s as int, m64 as int);
        }
        if m64 == 0 {
            proof {
                assert(s as int == v3_dot_raw(self@, self@));
                assert((0int + 1) * (0int + 1) == 1);
                assert(v3_dot_raw(self@, self@) < 1);
                assert(self@.x == 0 && self@.y == 0 && self@.z == 0) by (nonlinear_arith)
                    requires
                        self@.x * self@.x + self@.y * self@.y + self@.z * self@.z < 1;
            }
            self
        } else {
            proof {
                assert((m64 as int) * (m64 as int) < 0x4000_0000_0000_0000);
                assert(m64 as int <= 0x8000_0000) by (nonlinear_arith)
                    requires (m64 as int) * (m64 as int) < 0x4000_0000_0000_0000, 0 <= m64 as int;
                lemma_comp_le_sqrt(self@.x, s as int, m64 as int);
                lemma_comp_le_sqrt(self@.y, s as int, m64 as int);
                lemma_comp_le_sqrt(self@.z, s as int, m64 as int);
            }
            let m = m64 as i64;
            proof {
                lemma_norm_component(self@.x, m as int);
                lemma_norm_component(self@.y, m as int);
                lemma_norm_component(self@.z, m as int);
            }
            Vector {
                x: div_floor(self.x * SCALE, m),
                y: div_floor(self.y * SCALE, m),
                z: div_floor(self.z * SCALE, m),
            }
        }
    }
}

/// The dot product is commutative, both as the raw coordinate-product
/// sum and at the working scale.
pub proof fn lemma_dot_commutes(a: V3, b: V3)
    ensures
        v3_dot_raw(a, b) == v3_dot_raw(b, a),
        v3_dot(a, b) == v3_dot(b, a),
{
    assert(a.x * b.x == b.x * a.x) by (nonlinear_arith);
    assert(a.y * b.y == b.y * a.y) by (nonlinear_arith);
    assert(a.z * b.z == b.z * a.z) by (nonlinear_arith);
}

/// The cross product of a vector with itself is the zero vector.
pub proof fn lemma_cross_self_is_zero(a: V3)
    ensures
        v3_cross(a, a) == v3(0, 0, 0),
{
    assert(a.y * a.z == a.z * a.y) by (nonlinear_arith);
    assert(a.z * a.x == a.x * a.z) by (nonlinear_arith);
    assert(a.x * a.y == a.y * a.x) by (nonlinear_arith);
}

/// How far a normalized coordinate, its Euclidean remainder and its
/// square relate to the coordinate it came from: the division
/// decomposition that the magnitude bound is assembled from.
proof fn lemma_norm_comp_decomp(vw: int, m: int)
    requires
        0 < m,
        -m <= vw <= m,
    ensures
        vw * (SCALE as int) == m * ((vw * (SCALE as int)) / m) + (vw * (SCALE as int)) % m,
        0 <= (vw * (SCALE as int)) % m < m,
        -(SCALE as int) <= (vw * (SCALE as int)) / m <= SCALE as int,
        (vw * vw) * ((SCALE as int) * (SCALE as int)) == m * m * (((vw * (SCALE as int)) / m) * ((
        vw * (SCALE as int)) / m)) + 2 * (m * (((vw * (SCALE as int)) / m) * ((vw * (
        SCALE as int)) % m))) + ((vw * (SCALE as int)) % m) * ((vw * (SCALE as int)) % m),
        -((SCALE as int) * m) <= ((vw * (SCALE as int)) / m) * ((vw * (SCALE as int)) % m) <= (
        SCALE as int) * m,
        0 <= ((vw * (SCALE as int)) % m) * ((vw * (SCALE as int)) % m) <= m * m,
        m * ((vw * (SCALE as int)) / m) == vw * (SCALE as int) - (vw * (SCALE as int)) % m,
{
    let s = SCALE as int;
    let a = vw * s;
    let q = a / m;
    let e = a % m;
    vstd::arithmetic::div_mod::lemma_fundamental_div_mod(a, m);
    vstd::arithmetic::div_mod::lemma_mod_bound(a, m);
    assert(-(s * m) <= a <= s * m) by (nonlinear_arith)
        requires 0 < m, -m <= vw <= m, 0 < s, a == vw * s;
    lemma_div_bounded(a, m, s);
    assert(a * a == (m * q + e) * (m * q + e));
    assert((m * q + e) * (m * q + e) == m * m * (q * q) + 2 * (m * (q * e)) + e * e)
        by (nonlinear_arith);
    assert(a * a == (vw * vw) * (s * s)) by (nonlinear_arith)
        requires a == vw * s;
    assert(-(s * m) <= q * e <= s * m) by (nonlinear_arith)
        requires -s <= q <= s, 0 <= e < m, 0 < m, 0 < s;
    assert(0 <= e * e <= m * m) by (nonlinear_arith)
        requires 0 <= e < m;
}

/// Normalization brings the squared magnitude within one percent of
/// one: for a vector whose real length is at least a quarter unit, the
/// raw squared magnitude of the normalized vector is within one
/// percent of `SCALE * SCALE`, and the normalized vector points the
/// same way as the original (their raw dot product is positive).
pub proof fn lemma_normalize_magnitude(v: V3)
    requires
        -COMP_BOUND <= v.x <= COMP_BOUND,
        -COMP_BOUND <= v.y <= COMP_BOUND,
        -COMP_BOUND <= v.z <= COMP_BOUND,
        0x1000_0000 <= v3_dot_raw(v, v),
    ensures
        (SCALE as int) * (SCALE as int) - ((SCALE as int) * (SCALE as int)) / 100 <= v3_dot_raw(
            v3_normalize(v),
            v3_normalize(v),
        ) <= (SCALE as int) * (SCALE as int) + ((SCALE as int) * (SCALE as int)) / 100,
        v3_dot_raw(v3_normalize(v), v) > 0,
{
    let s = SCALE as int;
    let t = (s * s) / 100;
    assert(t == 42949672);
    let big = v3_dot_raw(v, v);
    crate::fixed::lemma_sqrt_exists(big);
    let m = sqrt_floor(big);
    assert(is_sqrt(big, m));
    assert(m >= 16384) by (nonlinear_arith)
        requires big < (m + 1) * (m + 1), 0x1000_0000 <= big, 0 <= m;
    lemma_squares_nonneg(v.x, v.y, v.z);
    lemma_comp_le_sqrt(v.x, big, m);
    lemma_comp_le_sqrt(v.y, big, m);
    lemma_comp_le_sqrt(v.z, big, m);
    lemma_norm_comp_decomp(v.x, m);
    lemma_norm_comp_decomp(v.y, m);
    lemma_norm_comp_decomp(v.z, m);
    let qx = (v.x * s) / m;
    let qy = (v.y * s) / m;
    let qz = (v.z * s) / m;
    let ex = (v.x * s) % m;
    let ey = (v.y * s) % m;
    let ez = (v.z * s) % m;
    let r = v3_normalize(v);
    assert(r == V3 { x: qx, y: qy, z: qz });
    let d = qx * qx + qy * qy + qz * qz;
    let mix = qx * ex + qy * ey + qz * ez;
    let f = ex * ex + ey * ey + ez * ez;
    assert(v3_dot_raw(r, r) == d);

    // Assemble the squared components into one equation:
    // big * s^2 == m^2 * d + 2 m * mix + f.
    assert(m * m * d == m * m * (qx * qx) + m * m * (qy * qy) + m * m * (qz * qz))
        by (nonlinear_arith)
        requires d == qx * qx + qy * qy + qz * qz;
    assert(m * mix == m * (qx * ex) + m * (qy * ey) + m * (qz * ez)) by (nonlinear_arith)
        requires mix == qx * ex + qy * ey + qz * ez;
    assert(big * (s * s) == (v.x * v.x) * (s * s) + (v.y * v.y) * (s * s) + (v.z * v.z) * (s
        * s)) by (nonlinear_arith)
        requires big == v.x * v.x + v.y * v.y + v.z * v.z;
    assert(big * (s * s) == m * m * d + 2 * (m * mix) + f);

    // Bound the cross terms and the remainders.
    assert(-(3 * (s * m)) <= mix <= 3 * (s * m));
    assert(m * mix <= 3 * (s * (m * m)) && m * mix >= -(3 * (s * (m * m)))) by (nonlinear_arith)
        requires -(3 * (s * m)) <= mix <= 3 * (s * m), 0 < m, 0 < s;
    assert(0 <= f <= 3 * (m * m));

    // Bound the radicand by the square root on both sides.
    assert((m + 1) * (m + 1) == m * m + 2 * m + 1) by (nonlinear_arith);
    assert(m * m <= big <= m * m + 2 * m);
    assert(big * (s * s) <= (m * m + 2 * m) * (s * s)) by (nonlinear_arith)
        requires big <= m * m + 2 * m, 0 < s;
    assert(big * (s * s) >= (m * m) * (s * s)) by (nonlinear_arith)
        requires big >= m * m, 0 < s;

    // Upper bound on the squared magnitude.
    assert(m * m * d <= (m * m + 2 * m) * (s * s) + 6 * (s * (m * m)));
    assert((m * m + 2 * m) * (s * s) + 6 * (s * (m * m)) <= m * m * (s * s + t))
        by (nonlinear_arith)
        requires m >= 16384, s == 65536, t == 42949672;
    assert(d <= s * s + t) by (nonlinear_arith)
        requires m * m * d <= m * m * (s * s + t), m >= 1;

    // Lower bound on the squared magnitude.
    assert(m * m * d >= (m * m) * (s * s) - 6 * (s * (m * m)) - 3 * (m * m));
    assert((m * m) * (s * s) - 6 * (s * (m * m)) - 3 * (m * m) >= m * m * (s * s - t))
        by (nonlinear_arith)
        requires m >= 1, s == 65536, t == 42949672;
    assert(d >= s * s - t) by (nonlinear_arith)
        requires m * m * d >= m * m * (s * s - t), m >= 1;

    // The normalized vector points the same way as the original.
    let g = qx * v.x + qy * v.y + qz * v.z;
    assert(v3_dot_raw(r, v) == g);
    assert(m * (qx * v.x) == (v.x * v.x) * s - ex * v.x) by (nonlinear_arith)
        requires m * qx == v.x * s - ex;
    assert(m * (qy * v.y) == (v.y * v.y) * s - ey * v.y) by (nonlinear_arith)
        requires m * qy == v.y * s - ey;
    assert(m * (qz * v.z) == (v.z * v.z) * s - ez * v.z) by (nonlinear_arith)
        requires m * qz == v.z * s - ez;
    assert(m * g == m * (qx * v.x) + m * (qy * v.y) + m * (qz * v.z)) by (nonlinear_arith)
        requires g == qx * v.x + qy * v.y + qz * v.z;
    assert(big * s == (v.x * v.x) * s + (v.y * v.y) * s + (v.z * v.z) * s) by (nonlinear_arith)
        requires big == v.x * v.x + v.y * v.y + v.z * v.z;
    assert(-(m * m) <= ex * v.x <= m * m) by (nonlinear_arith)
        requires 0 <= ex < m, -m <= v.x <= m;
    assert(-(m * m) <= ey * v.y <= m * m) by (nonlinear_arith)
        requires 0 <= ey < m, -m <= v.y <= m;
    assert(-(m * m) <= ez * v.z <= m * m) by (nonlinear_arith)
        requires 0 <= ez < m, -m <= v.z <= m;
    assert(big * s >= (m * m) * s) by (nonlinear_arith)
        requires big >= m * m, 0 < s;
    assert(m * g >= (m * m) * s - 3 * (m * m));
    assert((m * m) * s - 3 * (m * m) > 0) by (nonlinear_arith)
        requires m >= 1, s == 65536;
    assert(g > 0) by (nonlinear_arith)
        requires m * g > 0, m >= 1;
}

/// A point drawn from the interior of the unit ball by rejection
/// sampling: candidates are drawn uniformly from the enclosing cube
/// until one falls strictly inside the ball, so that the accepted
/// points carry no directional bias. The number of attempts is
/// bounded; if every candidate misses (vanishingly unlikely), the
/// center of the ball is returned.
pub fn random_in_unit_sphere(rng: &mut RandomSource) -> (v: Vector)
    ensures
        v3_dot_raw(v@, v@) < (SCALE as int) * (SCALE as int),
        -SCALE <= v@.x <= SCALE,
        -SCALE <= v@.y <= SCALE,
        -SCALE <= v@.z <= SCALE,
{
    let mut tries: u64 = 0;
    while tries < 64
        invariant
            tries <= 64,
        decreases 64 - tries,
    {
        let x = 2 * rng.next_fraction() - SCALE;
        let y = 2 * rng.next_fraction() - SCALE;
        let z = 2 * rng.next_fraction() - SCALE;
        proof {
            lemma_product_bound(x as int, x as int, SCALE as int);
            lemma_product_bound(y as int, y as int, SCALE as int);
            lemma_product_bound(z as int, z as int, SCALE as int);
        }
        let q = x * x + y * y + z * z;
        if q < SCALE * SCALE {
            return Vector { x, y, z };
        }
        tries = tries + 1;
    }
    proof {
        assert(0int * 0int == 0);
    }
    Vector { x: 0, y: 0, z: 0 }
}

/// Each coordinate product in a scaling is bounded by the product of
/// the coordinate bounds.
proof fn lemma_scale_products(a: V3, k: int)
    requires
        -COMP_BOUND <= a.x <= COMP_BOUND,
        -COMP_BOUND <= a.y <= COMP_BOUND,
        -COMP_BOUND <= a.z <= COMP_BOUND,
        -COMP_BOUND <= k <= COMP_BOUND,
    ensures
        -0x1000_0000_0000_0000 <= a.x * k <= 0x1000_0000_0000_0000,
        -0x1000_0000_0000_0000 <= a.y * k <= 0x1000_0000_0000_0000,
        -0x1000_0000_0000_0000 <= a.z * k <= 0x1000_0000_0000_0000,
        -0x1_0000_0000_0000 <= fx_mul(a.x, k) <= 0x1_0000_0000_0000,
        -0x1_0000_0000_0000 <= fx_mul(a.y, k) <= 0x1_0000_0000_0000,
        -0x1_0000_0000_0000 <= fx_mul(a.z, k) <= 0x1_0000_0000_0000,
{
    lemma_product_bound(a.x, k, COMP_BOUND as int);
    lemma_product_bound(a.y, k, COMP_BOUND as int);
    lemma_product_bound(a.z, k, COMP_BOUND as int);
    lemma_fx_div_bound(a.x * k, 0x1_0000_0000_0000);
    lemma_fx_div_bound(a.y * k, 0x1_0000_0000_0000);
    lemma_fx_div_bound(a.z * k, 0x1_0000_0000_0000);
}

/// The cross-term coordinate products fit comfortably inside `i64`.
proof fn lemma_cross_products(a: V3, b: V3)
    requires
        -COMP_BOUND <= a.x <= COMP_BOUND,
        -COMP_BOUND <= a.y <= COMP_BOUND,
        -COMP_BOUND <= a.z <= COMP_BOUND,
        -COMP_BOUND <= b.x <= COMP_BOUND,
        -COMP_BOUND <= b.y <= COMP_BOUND,
        -COMP_BOUND <= b.z <= COMP_BOUND,
    ensures
        -0x1000_0000_0000_0000 <= a.y * b.z <= 0x1000_0000_0000_0000,
        -0x1000_0000_0000_0000 <= a.z * b.y <= 0x1000_0000_0000_0000,
        -0x1000_0000_0000_0000 <= a.z * b.x <= 0x1000_0000_0000_0000,
        -0x1000_0000_0000_0000 <= a.x * b.z <= 0x1000_0000_0000_0000,
        -0x1000_0000_0000_0000 <= a.x * b.y <= 0x1000_0000_0000_0000,
        -0x1000_0000_0000_0000 <= a.y * b.x <= 0x1000_0000_0000_0000,
        -0x1_0000_0000_0000 <= fx_mul(a.y, b.z) <= 0x1_0000_0000_0000,
        -0x1_0000_0000_0000 <= fx_mul(a.z, b.y) <= 0x1_0000_0000_0000,
        -0x1_0000_0000_0000 <= fx_mul(a.z, b.x) <= 0x1_0000_0000_0000,
        -0x1_0000_0000_0000 <= fx_mul(a.x, b.z) <= 0x1_0000_0000_0000,
        -0x1_0000_0000_0000 <= fx_mul(a.x, b.y) <= 0x1_0000_0000_0000,
        -0x1_0000_0000_0000 <= fx_mul(a.y, b.x) <= 0x1_0000_0000_0000,
{
    lemma_product_bound(a.y, b.z, COMP_BOUND as int);
    lemma_product_bound(a.z, b.y, COMP_BOUND as int);
    lemma_product_bound(a.z, b.x, COMP_BOUND as int);
    lemma_product_bound(a.x, b.z, COMP_BOUND as int);
    lemma_product_bound(a.x, b.y, COMP_BOUND as int);
    lemma_product_bound(a.y, b.x, COMP_BOUND as int);
    lemma_fx_div_bound(a.y * b.z, 0x1_0000_0000_0000);
    lemma_fx_div_bound(a.z * b.y, 0x1_0000_0000_0000);
    lemma_fx_div_bound(a.z * b.x, 0x1_0000_0000_0000);
    lemma_fx_div_bound(a.x * b.z, 0x1_0000_0000_0000);
    lemma_fx_div_bound(a.x * b.y, 0x1_0000_0000_0000);
    lemma_fx_div_bound(a.y * b.x, 0x1_0000_0000_0000);
}

/// The product of two values bounded by `k` is bounded by `k * k`.
proof fn lemma_product_bound(a: int, b: int, k: int)
    requires
        0 <= k,
        -k <= a <= k,
        -k <= b <= k,
    ensures
        -(k * k) <= a * b <= k * k,
{
    assert(-(k * k) <= a * b <= k * k) by (nonlinear_arith)
        requires 0 <= k, -k <= a <= k, -k <= b <= k;
}

/// A sum of three squares is nonnegative.
proof fn lemma_squares_nonneg(x: int, y: int, z: int)
    ensures
        0 <= x * x + y * y + z * z,
        x * x <= x * x + y * y + z * z,
        y * y <= x * x + y * y + z * z,
        z * z <= x * x + y * y + z * z,
{
    assert(0 <= x * x && 0 <= y * y && 0 <= z * z) by (nonlinear_arith);
}

/// A coordinate of a vector is no larger in magnitude than the integer
/// square root of the vector's raw squared magnitude.
proof fn lemma_comp_le_sqrt(x: int, s: int, m: int)
    requires
        0 <= m,
        x * x <= s,
        s < (m + 1) * (m + 1),
    ensures
        -m <= x <= m,
{
    assert(-m <= x <= m) by (nonlinear_arith)
        requires 0 <= m, x * x <= s, s < (m + 1) * (m + 1);
}

/// A normalized coordinate lies within one unit of the scale.
proof fn lemma_norm_component(x: int, m: int)
    requires
        0 < m <= 0x1_0000_0000,
        -m <= x <= m,
    ensures
        -(SCALE as int) <= (x * (SCALE as int)) / m <= SCALE as int,
        -0x4000_0000_0000_0000 <= x * (SCALE as int) <= 0x4000_0000_0000_0000,
{
    let s = SCALE as int;
    assert(-(s * m) <= x * s <= s * m) by (nonlinear_arith)
        requires 0 < m, -m <= x <= m, s == SCALE as int;
    lemma_div_bounded(x * s, m, s);
    assert(-0x4000_0000_0000_0000 <= x * s <= 0x4000_0000_0000_0000) by (nonlinear_arith)
        requires -m <= x <= m, 0 < m <= 0x1_0000_0000, s == 0x1_0000;
}

} // verus!
