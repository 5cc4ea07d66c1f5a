//! Integer arithmetic for fixed-point coordinates: flooring division, ceiling
//! division and saturation to 32 bits.

use vstd::arithmetic::div_mod::lemma_fundamental_div_mod_converse;
use vstd::prelude::*;

verus! {

/// The largest magnitude that the helpers of this module take: 2 to the 100.
pub open spec fn wide_limit() -> int {
    0x10_0000_0000_0000_0000_0000_0000
}

/// The nearest value that a 32-bit signed integer can hold.
pub open spec fn clamp_to_i32(v: int) -> int {
    if v < i32::MIN {
        i32::MIN as int
    } else if v > i32::MAX {
        i32::MAX as int
    } else {
        v
    }
}

/// The least integer that is not below `n / d`.
pub open spec fn ceil_div(n: int, d: int) -> int {
    -((-n) / d)
}

/// For a positive divisor the remainder lies below the divisor.
pub proof fn lemma_remainder_range(n: int, d: int)
    by (nonlinear_arith)
    requires
        d > 0,
    ensures
        0 <= n % d < d,
        n == d * (n / d) + n % d,
{
}

/// Flooring division of a negative number, by division of natural numbers.
pub proof fn lemma_floor_of_negative(n: int, d: int)
    requires
        n > 0,
        d > 0,
    ensures
        (-n) / d == -((n + d - 1) / d),
{
    let q = (n + d - 1) / d;
    let r = (n + d - 1) % d;
    lemma_remainder_range(n + d - 1, d);
    assert((-q) * d == -(d * q)) by (nonlinear_arith);
    lemma_fundamental_div_mod_converse(-n, d, -q, d - 1 - r);
}

/// An integer is at most the floor of `n / d` exactly if its product with `d` is
/// at most `n`.
pub proof fn lemma_floor_div_bound(n: int, d: int, m: int)
    requires
        d > 0,
    ensures
        m <= n / d <==> m * d <= n,
{
    lemma_remainder_range(n, d);
    let q = n / d;
    if m <= q {
        assert(m * d <= q * d) by (nonlinear_arith)
            requires
                m <= q,
                d > 0,
        ;
        assert(q * d == d * q) by (nonlinear_arith);
    } else {
        assert(m * d >= (q + 1) * d) by (nonlinear_arith)
            requires
                m >= q + 1,
                d > 0,
        ;
        assert((q + 1) * d == d * q + d) by (nonlinear_arith);
    }
}

/// The ceiling of `n / d` is at most an integer exactly if `n` is at most the
/// product of that integer with `d`.
pub proof fn lemma_ceil_div_bound(n: int, d: int, m: int)
    requires
        d > 0,
    ensures
        ceil_div(n, d) <= m <==> n <= m * d,
{
    lemma_floor_div_bound(-n, d, -m);
    assert((-m) * d == -(m * d)) by (nonlinear_arith);
}

/// Saturates a wide integer to 32 bits.
pub(crate) fn saturate(v: i128) -> (r: i32)
    ensures
        r == clamp_to_i32(v as int),
{
    if v < -2147483648 {
        -2147483648
    } else if v > 2147483647 {
        2147483647
    } else {
        v as i32
    }
}

/// Division that rounds toward negative infinity.
pub(crate) fn div_floor(n: i128, d: i128) -> (q: i128)
    requires
        0 < d < wide_limit(),
        -wide_limit() < n < wide_limit(),
    ensures
        q == n / d,
        -wide_limit() < q < wide_limit(),
{
    proof {
        lemma_remainder_range(n as int, d as int);
        assert(-wide_limit() < (n as int) / (d as int) < wide_limit()) by (nonlinear_arith)
            requires
                d > 0,
                -wide_limit() < n < wide_limit(),
                0 <= n % d < d,
                n == d * (n / d) + n % d,
        ;
    }
    if n >= 0 {
        n / d
    } else {
        proof {
            lemma_floor_of_negative(-n as int, d as int);
        }
        -((-n + (d - 1)) / d)
    }
}

/// Division that rounds toward positive infinity.
pub(crate) fn div_ceil(n: i128, d: i128) -> (q: i128)
    requires
        0 < d < wide_limit(),
        -wide_limit() < n < wide_limit(),
    ensures
        q == ceil_div(n as int, d as int),
        -wide_limit() < q < wide_limit(),
{
    -div_floor(-n, d)
}

/// The product of two integers of bounded magnitude.
pub(crate) fn mul_wide(a: i128, b: i128) -> (p: i128)
    requires
        -0x1_0000_0000_0000 <= a <= 0x1_0000_0000_0000,
        -0x1_0000_0000_0000 <= b <= 0x1_0000_0000_0000,
    ensures
        p == a * b,
        -0x1_0000_0000_0000_0000_0000_0000 <= p <= 0x1_0000_0000_0000_0000_0000_0000,
{
    assert(-0x1_0000_0000_0000_0000_0000_0000 <= a * b <= 0x1_0000_0000_0000_0000_0000_0000)
        by (nonlinear_arith)
        requires
            -0x1_0000_0000_0000 <= a <= 0x1_0000_0000_0000,
            -0x1_0000_0000_0000 <= b <= 0x1_0000_0000_0000,
    ;
    a * b
}

} // verus!
