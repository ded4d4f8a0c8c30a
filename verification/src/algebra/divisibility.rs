//! Divisors and the greatest common divisor as mathematical notions, and
//! the facts about them that Euclid's reduction rests on.

use vstd::arithmetic::div_mod::{lemma_fundamental_div_mod, lemma_mod_multiples_basic};
use vstd::prelude::*;

verus! {

/// `d` is a positive integer that divides `n`.
pub open spec fn is_divisor(d: int, n: int) -> bool {
    d > 0 && n % d == 0
}

/// `d` is a positive integer that divides both `a` and `b`.
pub open spec fn is_common_divisor(d: int, a: int, b: int) -> bool {
    is_divisor(d, a) && is_divisor(d, b)
}

/// `g` divides both `a` and `b`, and no larger integer does.
pub open spec fn is_greatest_common_divisor(g: int, a: int, b: int) -> bool {
    &&& is_common_divisor(g, a, b)
    &&& forall|d: int| #[trigger] is_common_divisor(d, a, b) ==> d <= g
}

/// The largest integer that divides both `a` and `b`. It exists unless both
/// are zero, when every positive integer divides them and none is the
/// largest.
pub open spec fn greatest_common_divisor(a: int, b: int) -> int {
    choose|g: int| is_greatest_common_divisor(g, a, b)
}

/// The absolute value of `x`.
pub open spec fn magnitude(x: int) -> int {
    if x < 0 {
        -x
    } else {
        x
    }
}

/// A multiple of `d` leaves no remainder on division by `d`.
pub proof fn lemma_multiple_is_divisible(k: int, d: int)
    requires
        d > 0,
    ensures
        is_divisor(d, k * d),
        is_divisor(d, d * k),
{
    lemma_mod_multiples_basic(k, d);
    assert(k * d == d * k) by (nonlinear_arith);
}

/// What `d` divides is `d` times its quotient by `d`.
pub proof fn lemma_divisor_quotient(d: int, n: int)
    requires
        is_divisor(d, n),
    ensures
        n == d * (n / d),
        n == (n / d) * d,
{
    lemma_fundamental_div_mod(n, d);
}

/// What divides `x` and `y` divides `x + k * y`.
pub proof fn lemma_divides_combination(d: int, x: int, y: int, k: int)
    requires
        is_divisor(d, x),
        is_divisor(d, y),
    ensures
        is_divisor(d, x + k * y),
{
    lemma_divisor_quotient(d, x);
    lemma_divisor_quotient(d, y);
    let qx = x / d;
    let qy = y / d;
    assert(x + k * y == (qx + k * qy) * d) by (nonlinear_arith)
        requires
            x == qx * d,
            y == qy * d,
    ;
    lemma_multiple_is_divisible(qx + k * qy, d);
}

/// What divides a divisor of `n` divides `n`.
pub proof fn lemma_divisor_of_divisor(d: int, e: int, n: int)
    requires
        is_divisor(d, e),
        is_divisor(e, n),
    ensures
        is_divisor(d, n),
{
    lemma_divisor_quotient(e, n);
    lemma_divides_combination(d, 0, e, n / e);
}

/// A divisor of a positive integer is at most that integer.
pub proof fn lemma_divisor_at_most(d: int, n: int)
    requires
        is_divisor(d, n),
        n > 0,
    ensures
        d <= n,
{
    lemma_divisor_quotient(d, n);
    let q = n / d;
    assert(d <= n) by (nonlinear_arith)
        requires
            n == d * q,
            n > 0,
            d > 0,
    ;
}

/// An integer and its absolute value have the same divisors.
pub proof fn lemma_divisor_ignores_sign(d: int, n: int)
    ensures
        is_divisor(d, n) <==> is_divisor(d, magnitude(n)),
        is_divisor(d, n) <==> is_divisor(d, -n),
{
    if d > 0 {
        if n % d == 0 {
            lemma_divisor_quotient(d, n);
            assert(-n == (-(n / d)) * d) by (nonlinear_arith)
                requires
                    n == (n / d) * d,
            ;
            lemma_multiple_is_divisible(-(n / d), d);
        }
        if (-n) % d == 0 {
            lemma_divisor_quotient(d, -n);
            assert(n == (-((-n) / d)) * d) by (nonlinear_arith)
                requires
                    -n == ((-n) / d) * d,
            ;
            lemma_multiple_is_divisible(-((-n) / d), d);
        }
    }
}

/// One step of Euclid's reduction keeps the common divisors: those of `a`
/// and `b` are those of `b` and `a % b`.
pub proof fn lemma_reduction_keeps_divisors(d: int, a: int, b: int)
    requires
        b > 0,
    ensures
        is_common_divisor(d, a, b) <==> is_common_divisor(d, b, a % b),
{
    lemma_fundamental_div_mod(a, b);
    let q = a / b;
    let r = a % b;
    assert(a == r + q * b && r == a + (-q) * b) by (nonlinear_arith)
        requires
            a == b * q + r,
    ;
    if is_common_divisor(d, a, b) {
        lemma_divides_combination(d, a, b, -q);
    }
    if is_common_divisor(d, b, r) {
        lemma_divides_combination(d, r, b, q);
    }
}

/// Two integers have at most one greatest common divisor.
pub proof fn lemma_gcd_unique(g1: int, g2: int, a: int, b: int)
    requires
        is_greatest_common_divisor(g1, a, b),
        is_greatest_common_divisor(g2, a, b),
    ensures
        g1 == g2,
{
}

/// A positive integer is the greatest divisor that it shares with zero.
proof fn lemma_gcd_of_positive_and_zero(a: int)
    requires
        a > 0,
    ensures
        is_greatest_common_divisor(a, a, 0),
{
    assert(is_divisor(a, a)) by {
        lemma_multiple_is_divisible(1, a);
    }
    assert forall|d: int| #[trigger] is_common_divisor(d, a, 0) implies d <= a by {
        lemma_divisor_at_most(d, a);
    }
}

/// Euclid's reduction, run in the proof: it ends at a greatest common
/// divisor of `a` and `b`.
proof fn lemma_gcd_by_reduction(a: int, b: int) -> (g: int)
    requires
        a >= 0,
        b >= 0,
        a + b > 0,
    ensures
        is_greatest_common_divisor(g, a, b),
    decreases b,
{
    if b == 0 {
        lemma_gcd_of_positive_and_zero(a);
        a
    } else {
        let g = lemma_gcd_by_reduction(b, a % b);
        lemma_reduction_keeps_divisors(g, a, b);
        assert forall|d: int| #[trigger] is_common_divisor(d, a, b) implies d <= g by {
            lemma_reduction_keeps_divisors(d, a, b);
        }
        g
    }
}

/// Two integers that are not both zero have a greatest common divisor, and
/// `greatest_common_divisor` is it.
pub proof fn lemma_gcd_exists(a: int, b: int)
    requires
        a != 0 || b != 0,
    ensures
        is_greatest_common_divisor(greatest_common_divisor(a, b), a, b),
        greatest_common_divisor(a, b) > 0,
{
    let g = lemma_gcd_by_reduction(magnitude(a), magnitude(b));
    lemma_divisor_ignores_sign(g, a);
    lemma_divisor_ignores_sign(g, b);
    assert forall|d: int| #[trigger] is_common_divisor(d, a, b) implies d <= g by {
        lemma_divisor_ignores_sign(d, a);
        lemma_divisor_ignores_sign(d, b);
        assert(is_common_divisor(d, magnitude(a), magnitude(b)));
    }
    // the witness that the choice in `greatest_common_divisor` needs
    assert(is_greatest_common_divisor(g, a, b));
}

/// An integer that meets the definition is the greatest common divisor.
pub proof fn lemma_gcd_is(g: int, a: int, b: int)
    requires
        is_greatest_common_divisor(g, a, b),
    ensures
        greatest_common_divisor(a, b) == g,
{
    lemma_gcd_unique(greatest_common_divisor(a, b), g, a, b);
}

/// The greatest common divisor does not depend on the operands' signs.
pub proof fn lemma_gcd_ignores_sign(a: int, b: int)
    requires
        a != 0 || b != 0,
    ensures
        greatest_common_divisor(a, b) == greatest_common_divisor(magnitude(a), magnitude(b)),
{
    lemma_gcd_exists(a, b);
    let g = greatest_common_divisor(a, b);
    lemma_divisor_ignores_sign(g, a);
    lemma_divisor_ignores_sign(g, b);
    assert forall|d: int| #[trigger]
        is_common_divisor(d, magnitude(a), magnitude(b)) implies d <= g by {
        lemma_divisor_ignores_sign(d, a);
        lemma_divisor_ignores_sign(d, b);
        assert(is_common_divisor(d, a, b));
    }
    lemma_gcd_is(g, magnitude(a), magnitude(b));
}

/// The greatest common divisor does not depend on the operands' order.
pub proof fn lemma_gcd_symmetric(a: int, b: int)
    requires
        a != 0 || b != 0,
    ensures
        greatest_common_divisor(a, b) == greatest_common_divisor(b, a),
{
    lemma_gcd_exists(a, b);
    let g = greatest_common_divisor(a, b);
    assert forall|d: int| #[trigger] is_common_divisor(d, b, a) implies d <= g by {
        assert(is_common_divisor(d, a, b));
    }
    lemma_gcd_is(g, b, a);
}

/// The greatest common divisor of a positive integer and zero is that
/// integer.
pub proof fn lemma_gcd_with_zero(a: int)
    requires
        a > 0,
    ensures
        greatest_common_divisor(a, 0) == a,
        greatest_common_divisor(0, a) == a,
{
    lemma_gcd_of_positive_and_zero(a);
    lemma_gcd_is(a, a, 0);
    lemma_gcd_symmetric(a, 0);
}

/// One step of Euclid's reduction keeps the greatest common divisor.
pub proof fn lemma_gcd_reduction(a: int, b: int)
    requires
        b > 0,
    ensures
        greatest_common_divisor(a, b) == greatest_common_divisor(b, a % b),
{
    lemma_gcd_exists(a, b);
    let g = greatest_common_divisor(a, b);
    lemma_reduction_keeps_divisors(g, a, b);
    assert forall|d: int| #[trigger] is_common_divisor(d, b, a % b) implies d <= g by {
        lemma_reduction_keeps_divisors(d, a, b);
    }
    lemma_gcd_is(g, b, a % b);
}

/// Bezout's identity: the greatest common divisor of two non-negative
/// integers is an integer combination of them. Returns the coefficients.
pub proof fn lemma_bezout(a: int, b: int) -> (c: (int, int))
    requires
        a >= 0,
        b >= 0,
        a + b > 0,
    ensures
        c.0 * a + c.1 * b == greatest_common_divisor(a, b),
    decreases b,
{
    if b == 0 {
        lemma_gcd_with_zero(a);
        (1, 0)
    } else {
        let (u, v) = lemma_bezout(b, a % b);
        lemma_gcd_reduction(a, b);
        lemma_fundamental_div_mod(a, b);
        let q = a / b;
        let r = a % b;
        assert(v * a + (u - v * q) * b == u * b + v * r) by (nonlinear_arith)
            requires
                a == b * q + r,
        ;
        (v, u - v * q)
    }
}

} // verus!
