//! Arithmetic on grid cells.
//!
//! A cell is a 32-bit signed integer.  Every arithmetic instruction of the
//! interpreter works with two's-complement wrap-around and reports whether the
//! mathematical result overflowed, so the interpreter can emit a warning while
//! still committing the wrapped value.

use vstd::prelude::*;

verus! {

/// The blank cell: ASCII space, the value of every never-written coordinate.
pub const BLANK: i32 = 32;

/// A cell for a machine count: the count when it fits, otherwise 0.
pub open spec fn count_cell(n: int) -> i32 {
    if 0 <= n <= 0x7FFF_FFFF {
        n as i32
    } else {
        0i32
    }
}

/// Two's-complement interpretation of `x` modulo 2^32.
pub open spec fn wrap32(x: int) -> int {
    let m = x % 0x1_0000_0000;
    if m >= 0x8000_0000 {
        m - 0x1_0000_0000
    } else {
        m
    }
}

/// A value already in `i32` range is its own wrap.
pub proof fn lemma_wrap32_identity(x: int)
    requires
        i32::MIN <= x <= i32::MAX,
    ensures
        wrap32(x) == x,
{
    if x >= 0 {
        assert(x % 0x1_0000_0000 == x) by (nonlinear_arith)
            requires
                0 <= x < 0x1_0000_0000,
        ;
    } else {
        assert(x % 0x1_0000_0000 == x + 0x1_0000_0000) by (nonlinear_arith)
            requires
                -0x1_0000_0000 <= x < 0,
        ;
    }
}

/// Quotient of `a / b` as Rust computes it: truncated toward zero.
pub open spec fn trunc_div(a: int, b: int) -> int
    recommends
        b != 0,
{
    if a == 0 {
        0
    } else if a > 0 && b > 0 {
        a / b
    } else if a < 0 && b < 0 {
        (a * -1) / (b * -1)
    } else if a < 0 {
        ((a * -1) / b) * -1
    } else {
        (a / (b * -1)) * -1
    }
}

/// Remainder of `a / b` as Rust computes it: sign follows the dividend.
pub open spec fn trunc_rem(a: int, b: int) -> int
    recommends
        b != 0,
{
    if a == 0 {
        0
    } else if a > 0 && b > 0 {
        a % b
    } else if a < 0 && b < 0 {
        ((a * -1) % (b * -1)) * -1
    } else if a < 0 {
        ((a * -1) % b) * -1
    } else {
        a % (b * -1)
    }
}

/// Wrapping sum with an overflow report.
pub fn cell_add(a: i32, b: i32) -> (r: (i32, bool))
    ensures
        r.0 as int == wrap32(a + b),
        r.1 <==> !(i32::MIN <= a + b <= i32::MAX),
{
    let s: i64 = a as i64 + b as i64;
    wrap_to_i32(s)
}

/// Wrapping difference with an overflow report.
pub fn cell_sub(a: i32, b: i32) -> (r: (i32, bool))
    ensures
        r.0 as int == wrap32(a - b),
        r.1 <==> !(i32::MIN <= a - b <= i32::MAX),
{
    let s: i64 = a as i64 - b as i64;
    wrap_to_i32(s)
}

/// Wrapping product with an overflow report.
pub fn cell_mul(a: i32, b: i32) -> (r: (i32, bool))
    ensures
        r.0 as int == wrap32(a * b),
        r.1 <==> !(i32::MIN <= a * b <= i32::MAX),
{
    proof {
        assert(-0x4000_0000_0000_0000 <= (a as int) * (b as int)
            <= 0x4000_0000_0000_0000) by (nonlinear_arith)
            requires
                i32::MIN <= a <= i32::MAX,
                i32::MIN <= b <= i32::MAX,
        ;
    }
    let p: i64 = a as i64 * b as i64;
    wrap_to_i32(p)
}

/// Truncated quotient with an overflow report; the divisor must not be zero
/// (the interpreter handles that case separately, pushing zero).
pub fn cell_div(a: i32, b: i32) -> (r: (i32, bool))
    requires
        b != 0,
    ensures
        r.1 <==> (a == i32::MIN && b == -1),
        r.1 ==> r.0 == i32::MIN,
        !r.1 ==> r.0 as int == trunc_div(a as int, b as int),
{
    if a == i32::MIN && b == -1 {
        (i32::MIN, true)
    } else {
        proof {
            lemma_trunc_div_bounds(a as int, b as int);
        }
        let q = a.checked_div(b);
        (q.unwrap(), false)
    }
}

/// Except for `i32::MIN / -1`, a truncated `i32` quotient stays in range.
proof fn lemma_trunc_div_bounds(a: int, b: int)
    requires
        i32::MIN <= a <= i32::MAX,
        i32::MIN <= b <= i32::MAX,
        b != 0,
        !(a == i32::MIN && b == -1),
    ensures
        i32::MIN <= trunc_div(a, b) <= i32::MAX,
{
    if a == 0 {
    } else if a > 0 && b > 0 {
        assert(0 <= a / b <= a) by (nonlinear_arith)
            requires
                a > 0,
                b >= 1,
        ;
    } else if a < 0 && b < 0 {
        let x = a * -1;
        let d = b * -1;
        if a == i32::MIN {
            assert(0 <= x / d <= 0x4000_0000) by (nonlinear_arith)
                requires
                    x == 0x8000_0000,
                    d >= 2,
            ;
        } else {
            assert(0 <= x / d <= x) by (nonlinear_arith)
                requires
                    x > 0,
                    d >= 1,
            ;
        }
    } else if a < 0 {
        let x = a * -1;
        assert(0 <= x / b <= x) by (nonlinear_arith)
            requires
                x > 0,
                b >= 1,
        ;
    } else {
        let d = b * -1;
        assert(0 <= a / d <= a) by (nonlinear_arith)
            requires
                a > 0,
                d >= 1,
        ;
    }
}

/// Truncated remainder with an overflow report; the divisor must not be zero.
pub fn cell_rem(a: i32, b: i32) -> (r: (i32, bool))
    requires
        b != 0,
    ensures
        r.1 <==> (a == i32::MIN && b == -1),
        r.1 ==> r.0 == 0,
        !r.1 ==> r.0 as int == trunc_rem(a as int, b as int),
{
    if a == i32::MIN && b == -1 {
        (0, true)
    } else {
        let q = a.checked_rem(b);
        (q.unwrap(), false)
    }
}

/// Wraps an `i64` holding the exact result of a single `i32` operation back
/// into `i32` range, reporting whether wrapping was needed.
pub fn wrap_to_i32(s: i64) -> (r: (i32, bool))
    requires
        -0x8000_0000_0000_0000 < s,
    ensures
        r.0 as int == wrap32(s as int),
        r.1 <==> !(i32::MIN <= s <= i32::MAX),
{
    if i32::MIN as i64 <= s && s <= i32::MAX as i64 {
        proof {
            lemma_wrap32_identity(s as int);
        }
        (s as i32, false)
    } else {
        let m: i64 = s % 0x1_0000_0000;
        let m2: i64 = if m < 0 {
            m + 0x1_0000_0000
        } else {
            m
        };
        proof {
            lemma_trunc_rem_to_euclid(s as int);
        }
        let w: i64 = if m2 >= 0x8000_0000 {
            m2 - 0x1_0000_0000
        } else {
            m2
        };
        (w as i32, true)
    }
}

/// Relates Rust's truncated `%` by a positive divisor to the Euclidean
/// modulus that the specification's `%` denotes.
pub proof fn lemma_trunc_to_euclid(s: int, d: int)
    requires
        d > 0,
    ensures
        s >= 0 ==> trunc_rem(s, d) == s % d,
        s < 0 ==> trunc_rem(s, d) == s % d || trunc_rem(s, d) + d == s % d,
        s < 0 ==> trunc_rem(s, d) <= 0,
        0 <= s % d < d,
        trunc_rem(s, d) > -d,
{
    assert(0 <= s % d < d) by (nonlinear_arith)
        requires
            d > 0,
    ;
    if s == 0 {
        assert(0int % d == 0) by (nonlinear_arith)
            requires
                d > 0,
        ;
    }
    if s < 0 {
        lemma_neg_mod(s, d);
        assert(0 <= (s * -1) % d < d) by (nonlinear_arith)
            requires
                d > 0,
        ;
    }
}

/// Relates Rust's truncated `%` to the Euclidean modulus, for wide values.
pub proof fn lemma_i128_trunc_rem(s: int)
    ensures
        s >= 0 ==> trunc_rem(s, 0x1_0000_0000) == s % 0x1_0000_0000,
        s < 0 ==> trunc_rem(s, 0x1_0000_0000) == s % 0x1_0000_0000 || trunc_rem(
            s,
            0x1_0000_0000,
        ) + 0x1_0000_0000 == s % 0x1_0000_0000,
{
    if s < 0 {
        lemma_neg_mod(s, 0x1_0000_0000);
    }
}

/// Relates Rust's truncated `%` on `i64` to the Euclidean modulus that the
/// specification's `%` denotes.
proof fn lemma_trunc_rem_to_euclid(s: int)
    ensures
        s >= 0 ==> trunc_rem(s, 0x1_0000_0000) == s % 0x1_0000_0000,
        s < 0 ==> trunc_rem(s, 0x1_0000_0000) == s % 0x1_0000_0000 || trunc_rem(
            s,
            0x1_0000_0000,
        ) + 0x1_0000_0000 == s % 0x1_0000_0000,
{
    if s < 0 {
        lemma_neg_mod(s, 0x1_0000_0000);
    }
}

/// For a negative dividend and positive divisor, the truncated remainder is
/// either the Euclidean one (when it is zero) or the Euclidean one minus the
/// divisor.
proof fn lemma_neg_mod(s: int, d: int)
    requires
        s < 0,
        d > 0,
    ensures
        ((s * -1) % d) * -1 == s % d || ((s * -1) % d) * -1 + d == s % d,
{
    let q = (s * -1) / d;
    let r = (s * -1) % d;
    assert(r == (s * -1) - q * d && 0 <= r < d) by (nonlinear_arith)
        requires
            s < 0,
            d > 0,
            q == (s * -1) / d,
            r == (s * -1) % d,
    ;
    if r == 0 {
        assert(s == (-q) * d) by (nonlinear_arith)
            requires
                r == 0,
                r == (s * -1) - q * d,
        ;
        assert(s % d == 0) by (nonlinear_arith)
            requires
                s == (-q) * d,
                d > 0,
        ;
    } else {
        assert(s == (-q - 1) * d + (d - r)) by (nonlinear_arith)
            requires
                r == (s * -1) - q * d,
        ;
        assert(s % d == d - r) by (nonlinear_arith)
            requires
                s == (-q - 1) * d + (d - r),
                0 < d - r < d,
                d > 0,
    ;
    }
}

} // verus!
