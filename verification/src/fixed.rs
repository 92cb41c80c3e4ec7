use vstd::prelude::*;
use vstd::arithmetic::div_mod::{
    lemma_div_is_ordered, lemma_div_multiples_vanish, lemma_fundamental_div_mod,
    lemma_fundamental_div_mod_converse,
};

verus! {

/// Number of raw units in one whole unit of the fixed-point scale:
/// a quantity `q` stands for the real number `q / SCALE`.
pub const SCALE: i64 = 65536;

/// Fixed-point product of two scaled quantities: the raw product brought
/// back to the working scale by floor division.
pub open spec fn fx_mul(a: int, b: int) -> int {
    (a * b) / (SCALE as int)
}

/// `r` is the integer square root of `n`: the largest integer whose
/// square does not exceed `n`.
pub open spec fn is_sqrt(n: int, r: int) -> bool {
    0 <= r && r * r <= n && n < (r + 1) * (r + 1)
}

/// The integer square root of `n`, as a spec-level value.
pub open spec fn sqrt_floor(n: int) -> int {
    choose|r: int| is_sqrt(n, r)
}

/// Every nonnegative integer has an integer square root, and
/// `sqrt_floor` denotes it.
pub proof fn lemma_sqrt_exists(n: int)
    requires
        0 <= n,
    ensures
        is_sqrt(n, sqrt_floor(n)),
    decreases n,
{
    if n == 0 {
        assert(is_sqrt(0, 0));
    } else {
        lemma_sqrt_exists(n - 1);
        let r = sqrt_floor(n - 1);
        if (r + 1) * (r + 1) <= n {
            assert((r + 2) * (r + 2) > (r + 1) * (r + 1)) by (nonlinear_arith)
                requires 0 <= r;
            assert(is_sqrt(n, r + 1));
        } else {
            assert(is_sqrt(n, r));
        }
    }
    assert(exists|r: int| is_sqrt(n, r));
}

/// The integer square root is unique: two values that both satisfy
/// `is_sqrt` for the same radicand are equal.
pub proof fn lemma_sqrt_unique(n: int, r1: int, r2: int)
    requires
        is_sqrt(n, r1),
        is_sqrt(n, r2),
    ensures
        r1 == r2,
{
    if r1 < r2 {
        assert((r1 + 1) * (r1 + 1) <= r2 * r2) by (nonlinear_arith)
            requires 0 <= r1, r1 < r2;
    }
    if r2 < r1 {
        assert((r2 + 1) * (r2 + 1) <= r1 * r1) by (nonlinear_arith)
            requires 0 <= r2, r2 < r1;
    }
}

/// A witness produced by the executable square root pins down `sqrt_floor`.
pub proof fn lemma_sqrt_floor_agrees(n: int, r: int)
    requires
        is_sqrt(n, r),
    ensures
        sqrt_floor(n) == r,
{
    assert(is_sqrt(n, sqrt_floor(n))) by {
        assert(exists|q: int| is_sqrt(n, q));
    }
    lemma_sqrt_unique(n, sqrt_floor(n), r);
}

/// Dividing a quantity bounded by `k * d` in absolute value by the
/// positive divisor `d` yields a quotient bounded by `k`.
pub proof fn lemma_div_bounded(x: int, d: int, k: int)
    requires
        0 < d,
        0 <= k,
        -(k * d) <= x <= k * d,
    ensures
        -k <= x / d <= k,
{
    lemma_div_is_ordered(-(k * d), x, d);
    lemma_div_is_ordered(x, k * d, d);
    lemma_div_multiples_vanish(k, d);
    lemma_div_multiples_vanish(-k, d);
    assert(d * k == k * d) by (nonlinear_arith);
    assert(d * -k == -(k * d)) by (nonlinear_arith);
}

/// Dividing a quantity bounded by `k * SCALE` in absolute value by the
/// scale yields a quotient bounded by `k`.
pub proof fn lemma_fx_div_bound(x: int, k: int)
    requires
        0 <= k,
        -(k * (SCALE as int)) <= x <= k * (SCALE as int),
    ensures
        -k <= x / (SCALE as int) <= k,
{
    lemma_div_bounded(x, SCALE as int, k);
}

/// Floor division by a positive divisor, agreeing with the Euclidean
/// quotient that spec-level `/` denotes.
pub fn div_floor(a: i64, b: i64) -> (r: i64)
    requires
        0 < b,
        -0x4000_0000_0000_0000 <= a <= 0x4000_0000_0000_0000,
    ensures
        r == a as int / b as int,
{
    if a >= 0 {
        let q = (a as u64) / (b as u64);
        proof {
            lemma_div_is_ordered(a as int, 0x4000_0000_0000_0000, b as int);
            lemma_div_is_ordered(0, a as int, b as int);
        }
        q as i64
    } else {
        let m = -a;
        let q = (m as u64) / (b as u64);
        let rem = (m as u64) % (b as u64);
        proof {
            lemma_fundamental_div_mod(m as int, b as int);
            lemma_div_is_ordered(m as int, 0x4000_0000_0000_0000, b as int);
            lemma_div_is_ordered(0, m as int, b as int);
        }
        if rem == 0 {
            proof {
                assert(a as int == (-(q as int)) * (b as int) + 0) by (nonlinear_arith)
                    requires
                        m as int == (b as int) * (q as int),
                        a as int == -(m as int);
                lemma_fundamental_div_mod_converse(a as int, b as int, -(q as int), 0);
            }
            -(q as i64)
        } else {
            proof {
                assert(a as int == (-(q as int) - 1) * (b as int) + ((b as int) - (rem as int)))
                    by (nonlinear_arith)
                    requires
                        m as int == (b as int) * (q as int) + (rem as int),
                        a as int == -(m as int);
                lemma_fundamental_div_mod_converse(
                    a as int,
                    b as int,
                    -(q as int) - 1,
                    (b as int) - (rem as int),
                );
            }
            -(q as i64) - 1
        }
    }
}

/// Integer square root by binary search.
pub fn isqrt(n: u64) -> (r: u64)
    requires
        n < 0x4000_0000_0000_0000,
    ensures
        is_sqrt(n as int, r as int),
{
    let mut lo: u64 = 0;
    let mut hi: u64 = 0x8000_0000;
    while lo + 1 < hi
        invariant
            lo < hi <= 0x8000_0000,
            (lo as int) * (lo as int) <= n as int,
            (n as int) < (hi as int) * (hi as int),
        decreases hi - lo,
    {
        let mid = lo + (hi - lo) / 2;
        proof {
            assert((mid as int) * (mid as int) <= 0x8000_0000 * 0x8000_0000) by (nonlinear_arith)
                requires 0 <= mid as int <= 0x8000_0000;
        }
        if mid * mid <= n {
            lo = mid;
        } else {
            hi = mid;
        }
    }
    lo
}

} // verus!
