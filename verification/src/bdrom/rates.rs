//! Bit rates over tick counts: exact quotients, rounded half to even.

use vstd::prelude::*;

verus! {

/// The magnitude of a number.
pub open spec fn magnitude(x: int) -> int {
    if x < 0 {
        -x
    } else {
        x
    }
}

/// `n / m` to the nearest whole number, a tie to the even one, for `n` not below `0` and
/// `m` above it.
pub open spec fn nearest(n: int, m: int) -> int {
    if 2 * (n % m) < m || (2 * (n % m) == m && (n / m) % 2 == 0) {
        n / m
    } else {
        n / m + 1
    }
}

/// `n / d` to the nearest whole number, a tie to the even one, for `d` other than `0`.
pub open spec fn half_even(n: int, d: int) -> int {
    if (n < 0) != (d < 0) {
        -nearest(magnitude(n), magnitude(d))
    } else {
        nearest(magnitude(n), magnitude(d))
    }
}

/// A number as an `i64`, the nearest one where it does not fit.
pub open spec fn clamped(x: int) -> i64 {
    if x > i64::MAX {
        i64::MAX
    } else if x < i64::MIN {
        i64::MIN
    } else {
        x as i64
    }
}

/// The bits per second of `bytes` over `ticks`. Over no time, some bytes are the largest
/// rate there is and none are `0`.
pub open spec fn bit_rate(bytes: u64, ticks: i128) -> i64 {
    if ticks == 0 {
        if bytes == 0 {
            0
        } else {
            i64::MAX
        }
    } else {
        clamped(half_even(bytes * 720_000, ticks as int))
    }
}

/// The magnitude of `x`.
fn unsigned(x: i128) -> (r: u128)
    ensures
        r as int == magnitude(x as int),
{
    if x < 0 {
        (-(x + 1)) as u128 + 1
    } else {
        x as u128
    }
}

/// `num / den` rounded half to even, as an `i64`.
pub fn round_ratio(num: i128, den: i128) -> (r: i64)
    requires
        den != 0,
    ensures
        r == clamped(half_even(num as int, den as int)),
{
    let n: u128 = unsigned(num);
    let m: u128 = unsigned(den);
    let q: u128 = n / m;
    let rest: u128 = n % m;
    let up: bool = !(2 * rest < m || (2 * rest == m && q % 2 == 0));
    proof {
        assert(q as int == n as int / m as int);
        assert(rest as int == n as int % m as int);
        assert(q <= n) by (nonlinear_arith)
            requires
                q == n / m,
                m >= 1,
        ;
    }
    if (num < 0) != (den < 0) {
        if q > 0x7FFF_FFFF_FFFF_FFFF {
            i64::MIN
        } else if up {
            -(q as i64) - 1
        } else {
            -(q as i64)
        }
    } else if q >= 0x7FFF_FFFF_FFFF_FFFF {
        i64::MAX
    } else if up {
        q as i64 + 1
    } else {
        q as i64
    }
}

/// The bits per second of `bytes` over `ticks`.
pub fn rate(bytes: u64, ticks: i128) -> (r: i64)
    ensures
        r == bit_rate(bytes, ticks),
{
    if ticks == 0 {
        if bytes == 0 {
            0
        } else {
            i64::MAX
        }
    } else {
        round_ratio(bytes as i128 * 720_000, ticks)
    }
}

/// The rounded quotient is a nearest whole number, and the even one of two equally near.
pub proof fn lemma_half_even_is_nearest(n: int, d: int)
    requires
        d != 0,
    ensures
        2 * magnitude(n - half_even(n, d) * d) <= magnitude(d),
        2 * magnitude(n - half_even(n, d) * d) == magnitude(d) ==> half_even(n, d) % 2 == 0,
{
    let a = magnitude(n);
    let m = magnitude(d);
    let q = a / m;
    let rest = a % m;
    let h = nearest(a, m);
    assert(a == q * m + rest && 0 <= rest < m) by (nonlinear_arith)
        requires
            q == a / m,
            rest == a % m,
            m > 0,
    ;
    assert(magnitude(a - h * m) == (if h == q {
        rest
    } else {
        m - rest
    })) by {
        assert((q + 1) * m == q * m + m) by (nonlinear_arith);
    }
    if (n < 0) != (d < 0) {
        assert((-h) * d == h * (-d)) by (nonlinear_arith);
        if n < 0 {
            assert(n - (-h) * d == -(a - h * m)) by (nonlinear_arith)
                requires
                    n == -a,
                    d == m,
            ;
        } else {
            assert(n - (-h) * d == a - h * m) by (nonlinear_arith)
                requires
                    n == a,
                    d == -m,
            ;
        }
    } else if n < 0 {
        assert(n - h * d == -(a - h * m)) by (nonlinear_arith)
            requires
                n == -a,
                d == -m,
        ;
    }
}

} // verus!
