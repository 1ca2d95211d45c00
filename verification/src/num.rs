//! Exact integer arithmetic used by the physics core: division truncated
//! toward zero (the semantics of Rust's `/` on signed integers), an integer
//! square root, and saturation of wide intermediates back to coordinates.

use vstd::prelude::*;
use vstd::arithmetic::div_mod::{lemma_div_pos_is_pos, lemma_div_nonincreasing};

verus! {

/// Largest magnitude a stored coordinate-like quantity may take. Results of
/// the integration formulas are saturated to this band, so that every update
/// is total; all realistic simulations stay far inside it, where the stored
/// value equals the exact formula.
pub const COORD_LIMIT: i64 = 1_000_000_000_000_000;

/// Quotient of `a` by `b`, truncated toward zero (Rust's `/` on signed
/// integers), for a positive divisor.
pub open spec fn tdiv(a: int, b: int) -> int
    recommends
        b > 0,
{
    if a >= 0 {
        a / b
    } else {
        -((-a) / b)
    }
}

/// Saturation of an exact result to the coordinate band.
pub open spec fn sat(x: int) -> int {
    if x > COORD_LIMIT {
        COORD_LIMIT as int
    } else if x < -COORD_LIMIT {
        -COORD_LIMIT as int
    } else {
        x
    }
}

/// The floor of the square root of `n`.
pub open spec fn sqrt_f(n: int) -> int
    recommends
        n >= 0,
{
    choose|r: int| 0 <= r && #[trigger] (r * r) <= n < (r + 1) * (r + 1)
}

/// A floor square root exists for every nonnegative integer.
proof fn lemma_sqrt_exists(n: int)
    requires
        n >= 0,
    ensures
        exists|r: int| 0 <= r && #[trigger] (r * r) <= n < (r + 1) * (r + 1),
    decreases n,
{
    if n == 0 {
        assert(0 * 0 <= 0 < (0 + 1) * (0 + 1)) by (nonlinear_arith);
    } else {
        lemma_sqrt_exists(n - 1);
        let r = choose|r: int| 0 <= r && #[trigger] (r * r) <= n - 1 < (r + 1) * (r + 1);
        if n < (r + 1) * (r + 1) {
            assert(0 <= r && r * r <= n < (r + 1) * (r + 1));
        } else {
            assert(n == (r + 1) * (r + 1));
            assert((r + 1) * (r + 1) < (r + 2) * (r + 2)) by (nonlinear_arith)
                requires
                    r >= 0,
            ;
            assert(0 <= r + 1 && (r + 1) * (r + 1) <= n < (r + 2) * (r + 2));
        }
    }
}

/// The floor square root is unique.
proof fn lemma_sqrt_unique(n: int, r: int)
    requires
        n >= 0,
        0 <= r,
        r * r <= n < (r + 1) * (r + 1),
    ensures
        r == sqrt_f(n),
{
    lemma_sqrt_exists(n);
    let s = sqrt_f(n);
    assert(0 <= s && s * s <= n < (s + 1) * (s + 1));
    if r < s {
        assert((r + 1) * (r + 1) <= s * s) by (nonlinear_arith)
            requires
                0 <= r + 1 <= s,
        ;
    }
    if s < r {
        assert((s + 1) * (s + 1) <= r * r) by (nonlinear_arith)
            requires
                0 <= s + 1 <= r,
        ;
    }
}

/// Characterisation of `sqrt_f` for callers.
pub proof fn lemma_sqrt_f(n: int)
    requires
        n >= 0,
    ensures
        0 <= sqrt_f(n),
        sqrt_f(n) * sqrt_f(n) <= n < (sqrt_f(n) + 1) * (sqrt_f(n) + 1),
{
    lemma_sqrt_exists(n);
}

/// Floor square root of a 64-bit integer, by bisection.
pub fn isqrt_u64(n: u64) -> (r: u64)
    ensures
        r == sqrt_f(n as int),
        r * r <= n,
{
    let mut lo: u64 = 0;
    let mut hi: u64 = 0x1_0000_0000;
    proof {
        assert((0x1_0000_0000 as int) * (0x1_0000_0000 as int) > u64::MAX as int)
            by (nonlinear_arith);
    }
    while hi - lo > 1
        invariant
            lo < hi,
            hi <= 0x1_0000_0000,
            (lo as int) * (lo as int) <= n as int,
            (n as int) < (hi as int) * (hi as int),
        decreases hi - lo,
    {
        let mid: u64 = lo + (hi - lo) / 2;
        proof {
            assert((mid as int) * (mid as int) < (0x1_0000_0000 as int) * (0x1_0000_0000 as int))
                by (nonlinear_arith)
                requires
                    0 <= (mid as int) < 0x1_0000_0000,
            ;
            assert((0x1_0000_0000 as int) * (0x1_0000_0000 as int) == 0x1_0000_0000_0000_0000)
                by (nonlinear_arith);
        }
        if mid * mid <= n {
            lo = mid;
        } else {
            hi = mid;
        }
    }
    proof {
        lemma_sqrt_unique(n as int, lo as int);
    }
    lo
}

/// Floor square root of a 128-bit integer, by bisection.
pub fn isqrt_u128(n: u128) -> (r: u128)
    ensures
        r == sqrt_f(n as int),
        r * r <= n,
{
    let mut lo: u128 = 0;
    let mut hi: u128 = 0x1_0000_0000_0000_0000;
    proof {
        assert((0x1_0000_0000_0000_0000 as int) * (0x1_0000_0000_0000_0000 as int) > u128::MAX
            as int) by (nonlinear_arith);
    }
    while hi - lo > 1
        invariant
            lo < hi,
            hi <= 0x1_0000_0000_0000_0000,
            (lo as int) * (lo as int) <= n as int,
            (n as int) < (hi as int) * (hi as int),
        decreases hi - lo,
    {
        let mid: u128 = lo + (hi - lo) / 2;
        proof {
            assert((mid as int) * (mid as int) < (0x1_0000_0000_0000_0000 as int) * (
            0x1_0000_0000_0000_0000 as int)) by (nonlinear_arith)
                requires
                    0 <= (mid as int) < 0x1_0000_0000_0000_0000,
            ;
            assert((0x1_0000_0000_0000_0000 as int) * (0x1_0000_0000_0000_0000 as int) <= u128::MAX
                as int + 1) by (nonlinear_arith);
        }
        if mid * mid <= n {
            lo = mid;
        } else {
            hi = mid;
        }
    }
    proof {
        lemma_sqrt_unique(n as int, lo as int);
    }
    lo
}

/// A product is bounded by the product of the bounds.
pub proof fn lemma_mul_bound(a: int, b: int, ma: int, mb: int)
    requires
        -ma <= a <= ma,
        -mb <= b <= mb,
        0 <= ma,
        0 <= mb,
    ensures
        -(ma * mb) <= a * b <= ma * mb,
{
    assert(-(ma * mb) <= a * b <= ma * mb) by (nonlinear_arith)
        requires
            -ma <= a <= ma,
            -mb <= b <= mb,
            0 <= ma,
            0 <= mb,
    ;
}

/// Division of a coordinate quantity by a positive divisor, truncated toward
/// zero.
pub fn div_i64(a: i64, b: i64) -> (q: i64)
    requires
        b > 0,
        a > i64::MIN,
    ensures
        q == tdiv(a as int, b as int),
{
    proof {
        lemma_tdiv_bounds(a as int, b as int);
    }
    let q = a.checked_div(b);
    proof {
        lemma_checked_div_is_tdiv(a as int, b as int);
    }
    q.unwrap()
}

/// Division of a wide intermediate by a positive divisor, truncated toward
/// zero.
pub fn div_i128(a: i128, b: i128) -> (q: i128)
    requires
        b > 0,
        a > i128::MIN,
    ensures
        q == tdiv(a as int, b as int),
{
    proof {
        lemma_tdiv_bounds(a as int, b as int);
    }
    let q = a.checked_div(b);
    proof {
        lemma_checked_div_is_tdiv(a as int, b as int);
    }
    q.unwrap()
}

/// The truncated quotient never exceeds the dividend in magnitude.
pub proof fn lemma_tdiv_bounds(a: int, b: int)
    requires
        b > 0,
    ensures
        a >= 0 ==> 0 <= tdiv(a, b) <= a,
        a < 0 ==> a <= tdiv(a, b) <= 0,
{
    if a >= 0 {
        lemma_div_pos_is_pos(a, b);
        lemma_div_nonincreasing(a, b);
    } else {
        lemma_div_pos_is_pos(-a, b);
        lemma_div_nonincreasing(-a, b);
    }
}

/// `checked_div`'s case analysis agrees with `tdiv` for positive divisors.
proof fn lemma_checked_div_is_tdiv(x: int, d: int)
    requires
        d > 0,
    ensures
        (if x == 0 {
            0int
        } else if x > 0 {
            x / d
        } else {
            ((x * -1) / d) * -1
        }) == tdiv(x, d),
{
    if x == 0 {
        vstd::arithmetic::div_mod::lemma_div_of0(d);
    } else if x < 0 {
        assert(x * -1 == -x);
        assert(((-x) / d) * -1 == -((-x) / d));
    }
}

/// A quotient whose dividend is within `b * c` of zero is within `c`.
pub proof fn lemma_tdiv_magnitude(a: int, b: int, c: int)
    requires
        b > 0,
        c >= 0,
        -(b * c) <= a <= b * c,
    ensures
        -c <= tdiv(a, b) <= c,
{
    vstd::arithmetic::div_mod::lemma_div_multiples_vanish(c, b);
    if a >= 0 {
        vstd::arithmetic::div_mod::lemma_div_is_ordered(a, b * c, b);
        lemma_div_pos_is_pos(a, b);
    } else {
        vstd::arithmetic::div_mod::lemma_div_is_ordered(-a, b * c, b);
        lemma_div_pos_is_pos(-a, b);
    }
}

/// Saturation of a wide intermediate into a stored coordinate.
pub fn sat_i128(x: i128) -> (r: i64)
    ensures
        r as int == sat(x as int),
{
    if x > COORD_LIMIT as i128 {
        COORD_LIMIT
    } else if x < -(COORD_LIMIT as i128) {
        -COORD_LIMIT
    } else {
        x as i64
    }
}

} // verus!
