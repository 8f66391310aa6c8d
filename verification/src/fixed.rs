//! Fixed-point scalar arithmetic for world space and simulated time.
//!
//! A scalar counts thousandths: the value `1000` is one world unit (or one
//! second). Every stored scalar is kept inside `[-FX_LIMIT, FX_LIMIT]` and the
//! operations here saturate at those bounds, so no frame step can overflow.

use vstd::prelude::*;

verus! {

/// Number of fixed-point steps per world unit (and per second).
pub const FX_ONE: i64 = 1000;

/// Saturation bound for world-space scalars: a billion world units.
pub const FX_LIMIT: i64 = 1_000_000_000_000;

/// Bound on derived scalars (sums of a few stored scalars, such as the edges
/// of a hitbox placed in the world); never stored in simulation state.
pub const FX_WIDE: i64 = 8_000_000_000_000;

/// True iff `v` lies within the saturation range of world scalars.
pub open spec fn fx_in_range(v: int) -> bool {
    -FX_LIMIT <= v <= FX_LIMIT
}

/// True iff `v` lies within the range of derived scalars.
pub open spec fn fx_wide(v: int) -> bool {
    -FX_WIDE <= v <= FX_WIDE
}

/// Clamp a mathematical integer into the saturation range of world scalars.
pub open spec fn fx_clamp(v: int) -> int {
    if v < -FX_LIMIT {
        -FX_LIMIT as int
    } else if v > FX_LIMIT {
        FX_LIMIT as int
    } else {
        v
    }
}

/// Division that truncates toward zero, defined for positive divisors.
/// (On non-negative operands this agrees with Euclidean division.)
pub open spec fn trunc_div(n: int, d: int) -> int
    recommends
        d > 0,
{
    if n >= 0 {
        n / d
    } else {
        -((-n) / d)
    }
}

/// The product `a * b / d`, truncated toward zero and saturated into the
/// scalar range.
pub open spec fn fx_mul_div(a: int, b: int, d: int) -> int
    recommends
        d > 0,
{
    fx_clamp(trunc_div(a * b, d))
}

/// Floor of the square root, as a recursive definition usable in contracts.
pub open spec fn sqrt_floor(n: nat) -> nat
    decreases n,
{
    if n == 0 {
        0
    } else {
        let s = sqrt_floor((n - 1) as nat);
        if (s + 1) * (s + 1) <= n {
            s + 1
        } else {
            s
        }
    }
}

/// `sqrt_floor(n)` really is the floor of the square root of `n`.
pub proof fn lemma_sqrt_floor(n: nat)
    ensures
        sqrt_floor(n) * sqrt_floor(n) <= n,
        n < (sqrt_floor(n) + 1) * (sqrt_floor(n) + 1),
    decreases n,
{
    if n == 0 {
        assert(sqrt_floor(0) == 0);
        assert(sqrt_floor(n) * sqrt_floor(n) <= n);
        assert(n < (sqrt_floor(n) + 1) * (sqrt_floor(n) + 1)) by (nonlinear_arith)
            requires
                n == 0,
                sqrt_floor(n) == 0,
        ;
    } else {
        lemma_sqrt_floor((n - 1) as nat);
        let s = sqrt_floor((n - 1) as nat);
        assert(sqrt_floor(n) == if (s + 1) * (s + 1) <= n {
            s + 1
        } else {
            s
        });
        if (s + 1) * (s + 1) <= n {
            assert(n == (s + 1) * (s + 1));
            assert((s + 1) * (s + 1) < (s + 2) * (s + 2)) by (nonlinear_arith);
            assert(sqrt_floor(n) == s + 1);
            assert(sqrt_floor(n) * sqrt_floor(n) <= n);
            assert(n < (sqrt_floor(n) + 1) * (sqrt_floor(n) + 1));
        } else {
            assert(s * s <= n - 1);
            assert(sqrt_floor(n) == s);
            assert(sqrt_floor(n) * sqrt_floor(n) <= n);
            assert(n < (sqrt_floor(n) + 1) * (sqrt_floor(n) + 1));
        }
    }
}

/// Saturating addition on world scalars.
pub fn fx_sat_add(a: i64, b: i64) -> (r: i64)
    requires
        fx_in_range(a as int),
        fx_in_range(b as int),
    ensures
        r == fx_clamp(a + b),
{
    let s = a + b;
    if s < -FX_LIMIT {
        -FX_LIMIT
    } else if s > FX_LIMIT {
        FX_LIMIT
    } else {
        s
    }
}

/// Saturating addition of a derived scalar onto a stored one.
pub fn fx_sat_add_wide(a: i64, b: i64) -> (r: i64)
    requires
        fx_in_range(a as int),
        fx_wide(b as int),
    ensures
        r == fx_clamp(a + b),
{
    let s = a + b;
    if s < -FX_LIMIT {
        -FX_LIMIT
    } else if s > FX_LIMIT {
        FX_LIMIT
    } else {
        s
    }
}

/// Saturating subtraction on world scalars.
pub fn fx_sat_sub(a: i64, b: i64) -> (r: i64)
    requires
        fx_in_range(a as int),
        fx_in_range(b as int),
    ensures
        r == fx_clamp(a - b),
{
    let s = a - b;
    if s < -FX_LIMIT {
        -FX_LIMIT
    } else if s > FX_LIMIT {
        FX_LIMIT
    } else {
        s
    }
}

/// Clamp an executable scalar into `[lo, hi]`.
pub fn clamp_i64(v: i64, lo: i64, hi: i64) -> (r: i64)
    requires
        lo <= hi,
    ensures
        r == if v < lo {
            lo as int
        } else if v > hi {
            hi as int
        } else {
            v as int
        },
{
    if v < lo {
        lo
    } else if v > hi {
        hi
    } else {
        v
    }
}

/// Magnitude of an in-range scalar, as an unsigned value.
fn abs_u64(a: i64) -> (r: u64)
    requires
        fx_wide(a as int),
    ensures
        r == if a >= 0 {
            a as int
        } else {
            -a as int
        },
{
    if a >= 0 {
        a as u64
    } else {
        (-a) as u64
    }
}

/// Computes `a * b / d` (truncating toward zero), saturated into the scalar
/// range. This is the one place the core multiplies two world scalars, so all
/// scaling (velocity integration, interpolation, normalization) shares its
/// overflow reasoning.
pub fn fx_scale(a: i64, b: i64, d: i64) -> (r: i64)
    requires
        fx_wide(a as int),
        fx_wide(b as int),
        0 < d,
    ensures
        r == fx_mul_div(a as int, b as int, d as int),
{
    let am = abs_u64(a) as u128;
    let bm = abs_u64(b) as u128;
    let dm = d as u128;
    proof {
        assert(am * bm <= (FX_WIDE as int) * (FX_WIDE as int)) by (nonlinear_arith)
            requires
                0 <= am <= FX_WIDE,
                0 <= bm <= FX_WIDE,
        ;
    }
    let q = am * bm / dm;
    let neg = (a < 0) != (b < 0);
    proof {
        let p = (a as int) * (b as int);
        lemma_abs_product(a as int, b as int);
        assert(am * bm == if p >= 0 {
            p
        } else {
            -p
        });
        assert(q == (am * bm) as int / (dm as int));
        assert(q * dm <= am * bm) by (nonlinear_arith)
            requires
                q == (am * bm) as int / (dm as int),
                dm >= 1,
        ;
        if p >= 0 {
            assert(trunc_div(p, d as int) == q);
            assert(!neg || q == 0) by (nonlinear_arith)
                requires
                    p == (a as int) * (b as int),
                    p >= 0,
                    neg == ((a < 0) != (b < 0)),
                    q == p / (dm as int),
                    dm >= 1,
            ;
        } else {
            assert(trunc_div(p, d as int) == -(q as int));
            assert(neg) by (nonlinear_arith)
                requires
                    p == (a as int) * (b as int),
                    p < 0,
                    neg == ((a < 0) != (b < 0)),
            ;
        }
    }
    let mag = if q > FX_LIMIT as u128 {
        FX_LIMIT as u128
    } else {
        q
    };
    if neg && q > 0 {
        -((mag) as i64)
    } else if neg {
        0
    } else {
        mag as i64
    }
}

/// `|a| * |b| == |a * b|`.
proof fn lemma_abs_product(a: int, b: int)
    ensures
        (if a >= 0 {
            a
        } else {
            -a
        }) * (if b >= 0 {
            b
        } else {
            -b
        }) == if a * b >= 0 {
            a * b
        } else {
            -(a * b)
        },
{
    assert((if a >= 0 {
        a
    } else {
        -a
    }) * (if b >= 0 {
        b
    } else {
        -b
    }) == if a * b >= 0 {
        a * b
    } else {
        -(a * b)
    }) by (nonlinear_arith);
}

/// Floor division by a positive divisor; agrees with the mathematical `/`
/// of the specification language.
pub fn floor_div(a: i64, d: i64) -> (r: i64)
    requires
        i64::MIN < a,
        0 < d <= FX_LIMIT,
    ensures
        r == a as int / d as int,
{
    if a >= 0 {
        let q = (a as u64) / (d as u64);
        proof {
            assert(a as int / d as int == (a as u64 / d as u64) as int);
        }
        q as i64
    } else {
        let m = (-a) as u64;
        let du = d as u64;
        let q = m / du;
        let rem = m % du;
        proof {
            vstd::arithmetic::div_mod::lemma_fundamental_div_mod(m as int, du as int);
            vstd::arithmetic::div_mod::lemma_fundamental_div_mod(a as int, d as int);
            if rem == 0 {
                assert(a as int == (-(q as int)) * d + 0) by (nonlinear_arith)
                    requires
                        m == q * du + rem,
                        rem == 0,
                        a == -(m as int),
                        du == d,
                ;
                vstd::arithmetic::div_mod::lemma_div_multiples_vanish(-(q as int), d as int);
            } else {
                assert(a as int == (-(q as int) - 1) * d + (d - rem)) by (nonlinear_arith)
                    requires
                        m == q * du + rem,
                        a == -(m as int),
                        du == d,
                ;
                assert(0 <= d - rem < d);
                lemma_div_unique(a as int, d as int, -(q as int) - 1, d - rem);
            }
        }
        if rem == 0 {
            -(q as i64)
        } else {
            -(q as i64) - 1
        }
    }
}

/// Euclidean division is the unique pair of quotient and remainder.
proof fn lemma_div_unique(n: int, d: int, q: int, r: int)
    requires
        d > 0,
        n == q * d + r,
        0 <= r < d,
    ensures
        n / d == q,
        n % d == r,
{
    vstd::arithmetic::div_mod::lemma_fundamental_div_mod(n, d);
    assert(q == n / d && r == n % d) by (nonlinear_arith)
        requires
            d > 0,
            n == q * d + r,
            0 <= r < d,
            n == d * (n / d) + n % d,
            0 <= n % d < d,
    ;
}

/// Integer square root: the floor of the square root of `n`.
pub fn isqrt_u128(n: u128) -> (r: u64)
    requires
        n <= (FX_WIDE as int) * (FX_WIDE as int) * 8,
    ensures
        r == sqrt_floor(n as nat),
        r <= 30_000_000_000_000,
{
    let mut lo: u128 = 0;
    let mut hi: u128 = 30_000_000_000_000;
    proof {
        assert((30_000_000_000_001 as int) * (30_000_000_000_001 as int) > (FX_WIDE as int) * (
        FX_WIDE as int) * 8) by (nonlinear_arith);
    }
    while lo < hi
        invariant
            lo <= hi <= 30_000_000_000_000,
            lo * lo <= n,
            n < (hi + 1) * (hi + 1),
        decreases hi - lo,
    {
        let mid = lo + (hi - lo + 1) / 2;
        proof {
            assert(lo < mid <= hi);
            assert(mid * mid < u128::MAX) by (nonlinear_arith)
                requires
                    0 < mid <= 30_000_000_000_000u128,
            ;
        }
        if mid * mid <= n {
            lo = mid;
        } else {
            hi = mid - 1;
            proof {
                assert(n < (hi + 1) * (hi + 1));
            }
        }
    }
    proof {
        lemma_sqrt_floor(n as nat);
        let s = sqrt_floor(n as nat);
        assert(lo == s) by (nonlinear_arith)
            requires
                lo * lo <= n,
                n < (lo + 1) * (lo + 1),
                s * s <= n,
                n < (s + 1) * (s + 1),
                lo >= 0,
                s >= 0,
        ;
    }
    lo as u64
}

} // verus!
