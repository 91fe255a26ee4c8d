//! Fixed-point scalars and the exact integer arithmetic the geometry rests on.
//!
//! A world scalar is an `i64` counting millionths of a world unit
//! ([`SCALE`]).  Intermediate products are taken in `i128`, so every
//! computation in the crate is exact integer arithmetic with explicit
//! flooring, and every rounding step is visible in the specifications.

use vstd::prelude::*;
use vstd::arithmetic::div_mod::{
    lemma_div_pos_is_pos, lemma_div_nonincreasing, lemma_fundamental_div_mod,
};

verus! {

/// One world unit, in fixed-point steps.
pub const SCALE: i64 = 1_000_000;

/// Largest magnitude accepted for a coordinate handed to the library
/// (a thousand world units).
pub const COORD_MAX: i64 = 1_000_000_000;

/// Largest magnitude a point produced by the ray walk may reach before it is
/// handed to the point mapper.
pub const POINT_MAX: i128 = 100_000_000_000_000_000;

/// Floor of the square root, stated as a recurrence.
pub open spec fn isqrt_spec(n: nat) -> nat
    decreases n,
{
    if n == 0 {
        0
    } else {
        let p = isqrt_spec((n - 1) as nat);
        if (p + 1) * (p + 1) <= n {
            p + 1
        } else {
            p
        }
    }
}

/// `isqrt_spec(n)` really is the floor of the square root of `n`.
pub proof fn lemma_isqrt_spec(n: nat)
    ensures
        isqrt_spec(n) * isqrt_spec(n) <= n,
        n < (isqrt_spec(n) + 1) * (isqrt_spec(n) + 1),
    decreases n,
{
    if n == 0 {
        assert(isqrt_spec(0nat) == 0);
        assert((0 + 1) * (0 + 1) == 1) by (nonlinear_arith);
    } else {
        lemma_isqrt_spec((n - 1) as nat);
        let p = isqrt_spec((n - 1) as nat);
        assert(p * p <= n - 1);
        assert(n - 1 < (p + 1) * (p + 1));
        if (p + 1) * (p + 1) <= n {
            assert(isqrt_spec(n) == p + 1);
            assert(n <= (p + 1) * (p + 1));
            assert((p + 1 + 1) * (p + 1 + 1) > (p + 1) * (p + 1)) by (nonlinear_arith);
            assert(n < (p + 1 + 1) * (p + 1 + 1));
        } else {
            assert(isqrt_spec(n) == p);
            assert(p * p <= n);
            assert(n < (p + 1) * (p + 1));
        }
    }
}

/// The floor square root is the only number whose square brackets `n`.
pub proof fn lemma_isqrt_unique(n: nat, r: nat)
    requires
        r * r <= n,
        n < (r + 1) * (r + 1),
    ensures
        r == isqrt_spec(n),
{
    lemma_isqrt_spec(n);
    let s = isqrt_spec(n);
    if r < s {
        assert((r + 1) * (r + 1) <= s * s) by (nonlinear_arith)
            requires r + 1 <= s;
        assert(false);
    }
    if s < r {
        assert((s + 1) * (s + 1) <= r * r) by (nonlinear_arith)
            requires s + 1 <= r;
        assert(false);
    }
}

/// Floor square root, by bisection.
pub fn isqrt(n: u128) -> (r: u128)
    ensures
        r == isqrt_spec(n as nat),
        r * r <= n,
{
    let mut lo: u128 = 0;
    let mut hi: u128 = 0x1_0000_0000_0000_0000;
    proof {
        assert((0x1_0000_0000_0000_0000 as nat) * (0x1_0000_0000_0000_0000 as nat)
            > u128::MAX as nat) by (nonlinear_arith);
    }
    while lo + 1 < hi
        invariant
            lo < hi,
            hi <= 0x1_0000_0000_0000_0000,
            (lo as nat) * (lo as nat) <= n as nat,
            (n as nat) < (hi as nat) * (hi as nat),
        decreases hi - lo,
    {
        let mid = lo + (hi - lo) / 2;
        proof {
            assert((mid as nat) * (mid as nat) <= (0xFFFF_FFFF_FFFF_FFFF as nat)
                * (0xFFFF_FFFF_FFFF_FFFF as nat)) by (nonlinear_arith)
                requires mid as nat <= 0xFFFF_FFFF_FFFF_FFFF as nat;
            assert((0xFFFF_FFFF_FFFF_FFFF as nat) * (0xFFFF_FFFF_FFFF_FFFF as nat)
                <= u128::MAX as nat) by (nonlinear_arith);
        }
        if mid * mid <= n {
            lo = mid;
        } else {
            hi = mid;
        }
    }
    proof {
        lemma_isqrt_unique(n as nat, lo as nat);
    }
    lo
}

/// Signed division that rounds toward zero, as the executable code performs it.
pub open spec fn tdiv(x: int, d: int) -> int {
    if x >= 0 {
        x / d
    } else {
        -((-x) / d)
    }
}

/// Division of non-negative numbers; rounding is plain flooring there.
pub fn div_nn(x: i128, d: i128) -> (q: i128)
    requires
        0 <= x,
        1 <= d,
    ensures
        q == x as int / d as int,
        0 <= q <= x,
{
    proof {
        lemma_div_pos_is_pos(x as int, d as int);
        lemma_div_nonincreasing(x as int, d as int);
    }
    ((x as u128) / (d as u128)) as i128
}

/// Signed division rounding toward zero.
pub fn div_t(x: i128, d: i128) -> (q: i128)
    requires
        1 <= d,
        i128::MIN < x,
    ensures
        q == tdiv(x as int, d as int),
        -x <= q <= x || x <= q <= -x,
{
    if x >= 0 {
        div_nn(x, d)
    } else {
        -div_nn(-x, d)
    }
}

/// A floored quotient stays under `c` when the dividend stays under `d * c`.
pub proof fn lemma_div_below(x: int, d: int, c: int)
    requires
        0 <= x,
        1 <= d,
        x < d * c,
    ensures
        x / d < c,
{
    lemma_fundamental_div_mod(x, d);
    assert(x / d < c) by (nonlinear_arith)
        requires
            1 <= d,
            x == d * (x / d) + x % d,
            0 <= x % d,
            x < d * c;
}

/// A floored quotient reaches `c` once the dividend reaches `d * c`.
pub proof fn lemma_div_at_least(x: int, d: int, c: int)
    requires
        1 <= d,
        d * c <= x,
    ensures
        c <= x / d,
{
    lemma_fundamental_div_mod(x, d);
    assert(c <= x / d) by (nonlinear_arith)
        requires
            1 <= d,
            x == d * (x / d) + x % d,
            x % d < d,
            d * c <= x;
}

/// A truncating quotient keeps a magnitude bound of its dividend, shrunk by
/// the divisor.
pub proof fn lemma_tdiv_le(x: int, d: int, c: int, m: int)
    requires
        1 <= d,
        0 <= c,
        -m <= x <= m,
        m < d * (c + 1),
    ensures
        -c <= tdiv(x, d) <= c,
{
    if x >= 0 {
        lemma_div_pos_is_pos(x, d);
        lemma_div_below(x, d, c + 1);
    } else {
        lemma_div_pos_is_pos(-x, d);
        lemma_div_below(-x, d, c + 1);
    }
}

/// A truncating quotient keeps a magnitude floor of its dividend.
pub proof fn lemma_tdiv_mag_ge(x: int, d: int, c: int)
    requires
        1 <= d,
        0 <= c,
        d * c <= x || x <= -(d * c),
    ensures
        c <= tdiv(x, d) || tdiv(x, d) <= -c,
{
    if x >= 0 {
        if d * c <= x {
            lemma_div_at_least(x, d, c);
        } else {
            assert(c == 0) by (nonlinear_arith)
                requires d >= 1, c >= 0, x <= -(d * c), 0 <= x;
            lemma_div_pos_is_pos(x, d);
        }
    } else {
        assert(d * c >= 0) by (nonlinear_arith)
            requires d >= 1, c >= 0;
        lemma_div_at_least(-x, d, c);
    }
}

/// Magnitude bound for a product, from magnitude bounds on the factors.
pub proof fn lemma_abs_mul_le(x: int, y: int, a: int, b: int)
    by (nonlinear_arith)
    requires
        -a <= x <= a,
        -b <= y <= b,
    ensures
        -(a * b) <= x * y <= a * b,
{
}

} // verus!
