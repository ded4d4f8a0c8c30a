//! Least common multiples of non-negative 64-bit integers.

use crate::algebra::divisibility::{
    greatest_common_divisor, is_divisor, lemma_bezout, lemma_divisor_quotient, lemma_gcd_exists,
    lemma_multiple_is_divisible,
};
use crate::algebra::gcd::{gcd_abs, gcd_abs_spec, lemma_gcd_range};
use crate::errors::MathError;
use vstd::prelude::*;

verus! {

/// Both `a` and `b` are positive and divide `m`.
pub open spec fn is_common_multiple(m: int, a: int, b: int) -> bool {
    is_divisor(a, m) && is_divisor(b, m)
}

/// `m` is the smallest positive integer that both `a` and `b` divide.
pub open spec fn is_least_common_multiple(m: int, a: int, b: int) -> bool {
    &&& m > 0
    &&& is_common_multiple(m, a, b)
    &&& forall|k: int| k > 0 && #[trigger] is_common_multiple(k, a, b) ==> m <= k
}

/// The least common multiple of two non-negative integers: the smallest
/// positive integer that both divide, and zero where either is zero.
pub open spec fn least_common_multiple(a: int, b: int) -> int {
    if a == 0 || b == 0 {
        0
    } else {
        choose|m: int| is_least_common_multiple(m, a, b)
    }
}

/// What `lcm` returns.
pub open spec fn lcm_spec(a: i64, b: i64) -> Result<i64, MathError> {
    if a < 0 || b < 0 {
        Err(MathError::PositifIntegerRequired)
    } else if least_common_multiple(a as int, b as int) > i64::MAX {
        Err(MathError::Overflow)
    } else {
        Ok(least_common_multiple(a as int, b as int) as i64)
    }
}

/// A positive multiple of both `a` and `b` is at least `a / g * b`, where `g`
/// is their greatest common divisor.
proof fn lemma_common_multiple_at_least(k: int, a: int, b: int)
    requires
        a > 0,
        b > 0,
        k > 0,
        is_common_multiple(k, a, b),
    ensures
        a / greatest_common_divisor(a, b) * b <= k,
{
    let g = greatest_common_divisor(a, b);
    lemma_gcd_exists(a, b);
    lemma_divisor_quotient(g, a);
    lemma_divisor_quotient(a, k);
    lemma_divisor_quotient(b, k);
    let (u, v) = lemma_bezout(a, b);
    let p = a / g;
    let m = p * b;
    let s = k / a;
    let t = k / b;
    let w = t * u + s * v;
    assert(k * g == k * (u * a) + k * (v * b)) by (nonlinear_arith)
        requires
            u * a + v * b == g,
    ;
    assert(k * (u * a) == (a * b) * (t * u)) by (nonlinear_arith)
        requires
            k == b * t,
    ;
    assert(k * (v * b) == (a * b) * (s * v)) by (nonlinear_arith)
        requires
            k == a * s,
    ;
    assert((a * b) * (t * u) + (a * b) * (s * v) == (a * b) * w) by (nonlinear_arith)
        requires
            w == t * u + s * v,
    ;
    assert(m * g == a * b) by (nonlinear_arith)
        requires
            m == p * b,
            a == p * g,
    ;
    assert(m >= 0) by (nonlinear_arith)
        requires
            m * g == a * b,
            a > 0,
            b > 0,
            g > 0,
    ;
    // so k is m * w, and w is at least 1
    assert(m <= k) by (nonlinear_arith)
        requires
            k * g == (m * g) * w,
            g > 0,
            k > 0,
            m >= 0,
    ;
}

/// For positive `a` and `b` with greatest common divisor `g`, the least
/// common multiple is `a / g * b`.
pub proof fn lemma_lcm_by_gcd(a: int, b: int)
    requires
        a > 0,
        b > 0,
    ensures
        least_common_multiple(a, b) == a / greatest_common_divisor(a, b) * b,
        is_least_common_multiple(least_common_multiple(a, b), a, b),
{
    let g = greatest_common_divisor(a, b);
    lemma_gcd_exists(a, b);
    lemma_divisor_quotient(g, a);
    lemma_divisor_quotient(g, b);
    let m = a / g * b;
    assert(m > 0 && m == (b / g) * a) by (nonlinear_arith)
        requires
            a == (a / g) * g,
            b == (b / g) * g,
            m == a / g * b,
            a > 0,
            b > 0,
            g > 0,
    ;
    lemma_multiple_is_divisible(a / g, b);
    lemma_multiple_is_divisible(b / g, a);
    assert forall|k: int| k > 0 && #[trigger] is_common_multiple(k, a, b) implies m <= k by {
        lemma_common_multiple_at_least(k, a, b);
    }
    // the witness that the choice in `least_common_multiple` needs
    assert(is_least_common_multiple(m, a, b));
}

/// The least common multiple times the greatest common divisor is the
/// product of the two operands.
pub proof fn lemma_lcm_gcd_product(a: int, b: int)
    requires
        a >= 0,
        b >= 0,
    ensures
        least_common_multiple(a, b) * greatest_common_divisor(a, b) == a * b,
{
    let g = greatest_common_divisor(a, b);
    if a == 0 || b == 0 {
        assert(0 * g == a * b) by (nonlinear_arith)
            requires
                a == 0 || b == 0,
        ;
    } else {
        lemma_lcm_by_gcd(a, b);
        lemma_gcd_exists(a, b);
        lemma_divisor_quotient(g, a);
        assert(a / g * b * g == a * b) by (nonlinear_arith)
            requires
                a == (a / g) * g,
        ;
    }
}

/// The least common multiple of two non-negative integers: zero where
/// either is zero, else the smallest positive integer that both divide.
/// Fails with `PositifIntegerRequired` where an operand is negative, and
/// with `Overflow` where the least common multiple exceeds `i64::MAX`.
pub fn lcm(a: i64, b: i64) -> (r: Result<i64, MathError>)
    ensures
        r == lcm_spec(a, b),
        (a < 0 || b < 0) <==> r == Err::<i64, MathError>(MathError::PositifIntegerRequired),
        a >= 0 && b >= 0 && (a == 0 || b == 0) ==> r == Ok::<i64, MathError>(0i64),
        (a > 0 && b > 0 && least_common_multiple(a as int, b as int) > i64::MAX) <==> r == Err::<
            i64,
            MathError,
        >(MathError::Overflow),
        a > 0 && b > 0 ==> (r matches Ok(m) ==> is_least_common_multiple(
            m as int,
            a as int,
            b as int,
        )),
{
    if a < 0 || b < 0 {
        return Err(MathError::PositifIntegerRequired);
    }
    if a == 0 || b == 0 {
        return Ok(0);
    }
    match gcd_abs(a, b) {
        Ok(gcd_val) => {
            proof {
                lemma_gcd_range(a, b);
                lemma_lcm_by_gcd(a as int, b as int);
            }
            let a_reduced: i64 = a / gcd_val;
            match a_reduced.checked_mul(b) {
                Some(result) => Ok(result),
                None => Err(MathError::Overflow),
            }
        },
        Err(e) => Err(e),
    }
}

/// Where `lcm` succeeds and the second operand is not zero, its result
/// times that of `gcd_abs` is the product of the operands.
pub proof fn lemma_lcm_times_gcd_abs(a: i64, b: i64)
    requires
        a >= 0,
        b > 0,
        lcm_spec(a, b) is Ok,
    ensures
        lcm_spec(a, b) matches Ok(m) && gcd_abs_spec(a, b) matches Ok(g) && m * g == a * b,
{
    lemma_gcd_range(a, b);
    lemma_lcm_gcd_product(a as int, b as int);
    if a > 0 {
        lemma_lcm_by_gcd(a as int, b as int);
    }
}

/// Where `lcm` succeeds on two positive operands, each of them divides its
/// result.
pub proof fn lemma_lcm_is_multiple(a: i64, b: i64)
    requires
        a > 0,
        b > 0,
        lcm_spec(a, b) is Ok,
    ensures
        lcm_spec(a, b) matches Ok(m) && m % a == 0 && m % b == 0,
{
    lemma_lcm_by_gcd(a as int, b as int);
}

/// `lcm` does not depend on the order of its operands.
pub proof fn lemma_lcm_symmetric(a: i64, b: i64)
    ensures
        lcm_spec(a, b) == lcm_spec(b, a),
{
    if a > 0 && b > 0 {
        lemma_lcm_by_gcd(a as int, b as int);
        lemma_lcm_by_gcd(b as int, a as int);
        let m = least_common_multiple(a as int, b as int);
        let n = least_common_multiple(b as int, a as int);
        assert(is_common_multiple(m, b as int, a as int));
        assert(is_common_multiple(n, a as int, b as int));
    }
}

} // verus!
