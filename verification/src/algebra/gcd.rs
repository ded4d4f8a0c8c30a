//! Greatest common divisors of 64-bit signed integers by Euclid's
//! reduction.

use crate::algebra::divisibility::{
    greatest_common_divisor, is_common_divisor, lemma_divisor_at_most, lemma_divisor_ignores_sign,
    lemma_gcd_exists, lemma_gcd_ignores_sign, lemma_gcd_reduction, lemma_gcd_with_zero, magnitude,
};
use crate::errors::MathError;
use vstd::prelude::*;

verus! {

/// `-1` for a negative integer, `1` for any other.
pub open spec fn sign_factor(a: int) -> int {
    if a < 0 {
        -1
    } else {
        1
    }
}

/// The greatest common divisor of `a` and `b`, made negative where `a` is.
pub open spec fn signed_gcd(a: int, b: int) -> int {
    if a < 0 {
        -greatest_common_divisor(a, b)
    } else {
        greatest_common_divisor(a, b)
    }
}

/// What `gcd` returns.
pub open spec fn gcd_spec(a: i64, b: i64) -> Result<i64, MathError> {
    if b == 0 {
        Err(MathError::DivisionByZero)
    } else {
        Ok(signed_gcd(a as int, b as int) as i64)
    }
}

/// What `gcd_abs` and `gcd_secure` return.
pub open spec fn gcd_abs_spec(a: i64, b: i64) -> Result<i64, MathError> {
    if b == 0 {
        Err(MathError::DivisionByZero)
    } else {
        Ok(greatest_common_divisor(a as int, b as int) as i64)
    }
}

/// The quotient of the last division that Euclid's reduction of `a` by `b`
/// makes, the one that leaves no remainder.
pub open spec fn last_quotient(a: nat, b: nat) -> nat
    decreases b,
{
    if b == 0 {
        0
    } else if a % b == 0 {
        a / b
    } else {
        last_quotient(b, a % b)
    }
}

/// The greatest common divisor of two 64-bit integers is at most `2^63`, and
/// reaches it only where the second is `i64::MIN` and the first is `i64::MIN`
/// or zero.
pub proof fn lemma_gcd_range(a: i64, b: i64)
    requires
        b != 0,
    ensures
        0 < greatest_common_divisor(a as int, b as int) <= 0x8000_0000_0000_0000,
        greatest_common_divisor(a as int, b as int) <= i64::MAX <==> !(b == i64::MIN && (a == 0 || a
            == i64::MIN)),
{
    let g = greatest_common_divisor(a as int, b as int);
    lemma_gcd_exists(a as int, b as int);
    lemma_divisor_ignores_sign(g, a as int);
    lemma_divisor_ignores_sign(g, b as int);
    lemma_divisor_at_most(g, magnitude(b as int));
    if a != 0 {
        lemma_divisor_at_most(g, magnitude(a as int));
    }
    if b == i64::MIN && (a == 0 || a == i64::MIN) {
        let top: int = 0x8000_0000_0000_0000;
        assert(is_common_divisor(top, a as int, b as int));
    }
}

/// The absolute value of `x`, which always fits in 64 unsigned bits.
fn unsigned_magnitude(x: i64) -> (m: u64)
    ensures
        m == magnitude(x as int),
{
    if x >= 0 {
        x as u64
    } else {
        (-(x as i128)) as u64
    }
}

/// Euclid's reduction of `a` by `b`: replaces the pair by `b` and the
/// remainder of `a` by `b` until the remainder is zero. Returns the last
/// divisor, which is the greatest common divisor, and the last quotient.
fn gcd_with_quotient(a: u64, b: u64) -> (res: (u64, u64))
    requires
        b != 0,
    ensures
        res.0 == greatest_common_divisor(a as int, b as int),
        res.1 == last_quotient(a as nat, b as nat),
{
    let mut dividend: u64 = a;
    let mut divisor: u64 = b;
    let mut r: u64 = dividend % divisor;
    let mut q: u64 = dividend / divisor;
    while r != 0
        invariant
            divisor != 0,
            r == dividend % divisor,
            q == dividend / divisor,
            greatest_common_divisor(dividend as int, divisor as int) == greatest_common_divisor(
                a as int,
                b as int,
            ),
            last_quotient(dividend as nat, divisor as nat) == last_quotient(a as nat, b as nat),
        decreases divisor,
    {
        proof {
            lemma_gcd_reduction(dividend as int, divisor as int);
        }
        dividend = divisor;
        divisor = r;
        r = dividend % divisor;
        q = dividend / divisor;
    }
    proof {
        lemma_gcd_reduction(dividend as int, divisor as int);
        lemma_gcd_with_zero(divisor as int);
    }
    (divisor, q)
}

/// The greatest common divisor of `a` and `b`, with the sign of `a`: negative
/// where `a` is negative, positive otherwise. Fails with `DivisionByZero`
/// where `b` is zero.
///
/// The one pair left out, `(0, i64::MIN)`, has `2^63` as its result, which
/// does not fit.
pub fn gcd(a: i64, b: i64) -> (r: Result<i64, MathError>)
    requires
        !(a == 0 && b == i64::MIN),
    ensures
        r == gcd_spec(a, b),
        b == 0 <==> r == Err::<i64, MathError>(MathError::DivisionByZero),
        r matches Ok(g) ==> (a < 0 ==> g < 0) && (a >= 0 ==> g > 0),
{
    if b == 0 {
        return Err(MathError::DivisionByZero);
    }
    let g: u64 = gcd_with_quotient(unsigned_magnitude(a), unsigned_magnitude(b)).0;
    proof {
        lemma_gcd_ignores_sign(a as int, b as int);
        lemma_gcd_range(a, b);
    }
    if a < 0 {
        Ok((-(g as i128)) as i64)
    } else {
        Ok(g as i64)
    }
}

/// The greatest common divisor of `a` and `b`, which is positive. Fails
/// with `DivisionByZero` where `b` is zero.
///
/// The two pairs left out, `(0, i64::MIN)` and `(i64::MIN, i64::MIN)`, have
/// `2^63` as their result, which does not fit.
pub fn gcd_abs(a: i64, b: i64) -> (r: Result<i64, MathError>)
    requires
        !(b == i64::MIN && (a == 0 || a == i64::MIN)),
    ensures
        r == gcd_abs_spec(a, b),
        b == 0 <==> r == Err::<i64, MathError>(MathError::DivisionByZero),
        r matches Ok(g) ==> g > 0,
{
    if b == 0 {
        return Err(MathError::DivisionByZero);
    }
    let g: u64 = gcd_with_quotient(unsigned_magnitude(a), unsigned_magnitude(b)).0;
    proof {
        lemma_gcd_ignores_sign(a as int, b as int);
        lemma_gcd_range(a, b);
    }
    Ok(g as i64)
}

/// The same value as `gcd_abs`, and the same failure, reached without ever
/// forming a quotient: each step of the reduction takes a remainder and
/// nothing else.
pub fn gcd_secure(a: i64, b: i64) -> (r: Result<i64, MathError>)
    requires
        !(b == i64::MIN && (a == 0 || a == i64::MIN)),
    ensures
        r == gcd_abs_spec(a, b),
        b == 0 <==> r == Err::<i64, MathError>(MathError::DivisionByZero),
        r matches Ok(g) ==> g > 0,
{
    if b == 0 {
        return Err(MathError::DivisionByZero);
    }
    let mut dividend: u64 = unsigned_magnitude(a);
    let mut divisor: u64 = unsigned_magnitude(b);
    let mut r: u64 = dividend % divisor;
    proof {
        lemma_gcd_ignores_sign(a as int, b as int);
        lemma_gcd_range(a, b);
    }
    while r != 0
        invariant
            divisor != 0,
            r == dividend % divisor,
            greatest_common_divisor(dividend as int, divisor as int) == greatest_common_divisor(
                a as int,
                b as int,
            ),
        decreases divisor,
    {
        proof {
            lemma_gcd_reduction(dividend as int, divisor as int);
        }
        dividend = divisor;
        divisor = r;
        r = dividend % divisor;
    }
    proof {
        lemma_gcd_reduction(dividend as int, divisor as int);
        lemma_gcd_with_zero(divisor as int);
    }
    Ok(divisor as i64)
}

/// The signed greatest common divisor times the sign factor of the first
/// operand is the unsigned one.
pub proof fn lemma_signed_gcd_times_sign(a: int, b: int)
    ensures
        signed_gcd(a, b) * sign_factor(a) == greatest_common_divisor(a, b),
{
    let g = greatest_common_divisor(a, b);
}

/// Multiplied by the sign factor of the first operand, the result of `gcd`
/// is the result of `gcd_abs`, whenever the divisor is not zero and both
/// results fit.
pub proof fn lemma_gcd_times_sign_is_gcd_abs(a: i64, b: i64)
    requires
        b != 0,
        !(b == i64::MIN && (a == 0 || a == i64::MIN)),
    ensures
        gcd_spec(a, b) matches Ok(s) && gcd_abs_spec(a, b) matches Ok(g) && s * sign_factor(
            a as int,
        ) == g,
{
    lemma_gcd_range(a, b);
    lemma_signed_gcd_times_sign(a as int, b as int);
}

/// With zero as its first operand, `gcd` returns the absolute value of the
/// second.
pub proof fn lemma_gcd_of_zero(n: i64)
    requires
        n != 0,
        n != i64::MIN,
    ensures
        gcd_spec(0, n) == Ok::<i64, MathError>(magnitude(n as int) as i64),
{
    lemma_gcd_ignores_sign(0, n as int);
    lemma_gcd_with_zero(magnitude(n as int));
}

/// Of an integer and itself, `gcd` returns that integer.
pub proof fn lemma_gcd_of_equal(n: i64)
    requires
        n != 0,
    ensures
        gcd_spec(n, n) == Ok::<i64, MathError>(n),
{
    let m = magnitude(n as int);
    lemma_gcd_ignores_sign(n as int, n as int);
    lemma_gcd_reduction(m, m);
    assert(m % m == 0) by (nonlinear_arith)
        requires
            m > 0,
    ;
    lemma_gcd_with_zero(m);
}

} // verus!
