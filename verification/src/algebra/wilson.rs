//! Wilson's theorem: an integer `n > 1` is prime exactly when it divides
//! `(n - 1)! + 1`.

use crate::algebra::divisibility::{
    is_divisor, lemma_divides_combination, lemma_divisor_at_most, lemma_divisor_of_divisor,
    lemma_multiple_is_divisible,
};
use crate::algebra::modular::{
    inverse_mod, is_inverse_mod, lemma_inverse_mod, lemma_inverse_symmetric, lemma_inverse_unique,
    lemma_product_of_residues, lemma_self_inverse,
};
use crate::algebra::prime_nbr::{factorial, is_prime};
use vstd::arithmetic::div_mod::{
    lemma_fundamental_div_mod, lemma_mod_multiples_vanish, lemma_small_mod,
};
use vstd::prelude::*;

verus! {

/// Wilson's criterion: `n` divides `(n - 1)! + 1`.
pub open spec fn satisfies_wilson(n: int) -> bool {
    n >= 2 && (factorial((n - 1) as nat) as int + 1) % n == 0
}

/// The product of those integers from 1 to `n` that belong to `s`.
spec fn product_of_members(s: Set<int>, n: nat) -> int
    decreases n,
{
    if n == 0 {
        1
    } else if s.contains(n as int) {
        n * product_of_members(s, (n - 1) as nat)
    } else {
        product_of_members(s, (n - 1) as nat)
    }
}

/// Every integer from 1 to `m` divides the factorial of `m`.
pub proof fn lemma_factorial_divisible(d: int, m: nat)
    requires
        1 <= d <= m,
    ensures
        is_divisor(d, factorial(m) as int),
    decreases m,
{
    let rest = factorial((m - 1) as nat) as int;
    if d == m {
        assert(m * rest == rest * d) by (nonlinear_arith)
            requires
                d == m,
        ;
        lemma_multiple_is_divisible(rest, d);
    } else {
        lemma_factorial_divisible(d, (m - 1) as nat);
        lemma_divides_combination(d, 0, rest, m as int);
    }
}

/// An integer that meets Wilson's criterion is prime.
pub proof fn lemma_wilson_implies_prime(n: int)
    requires
        satisfies_wilson(n),
    ensures
        is_prime(n),
{
    let f = factorial((n - 1) as nat) as int;
    assert forall|d: int| 1 < d < n implies !#[trigger] is_divisor(d, n) by {
        if is_divisor(d, n) {
            // d divides (n - 1)!, and with n also (n - 1)! + 1, hence 1
            lemma_factorial_divisible(d, (n - 1) as nat);
            lemma_divisor_of_divisor(d, n, f + 1);
            lemma_divides_combination(d, f + 1, f, -1);
            lemma_divisor_at_most(d, 1);
        }
    }
}

/// The product of the members of two sets is the same where the sets have
/// the same members from 1 to `n`.
proof fn lemma_product_same_members(s: Set<int>, t: Set<int>, n: nat)
    requires
        forall|k: int| 1 <= k <= n ==> s.contains(k) == t.contains(k),
    ensures
        product_of_members(s, n) == product_of_members(t, n),
    decreases n,
{
    if n > 0 {
        lemma_product_same_members(s, t, (n - 1) as nat);
    }
}

/// A member can be taken out of the product as a factor.
proof fn lemma_product_without(s: Set<int>, n: nat, x: int)
    requires
        1 <= x <= n,
        s.contains(x),
    ensures
        product_of_members(s, n) == x * product_of_members(s.remove(x), n),
    decreases n,
{
    let t = s.remove(x);
    let below = (n - 1) as nat;
    if x == n {
        lemma_product_same_members(s, t, below);
    } else {
        lemma_product_without(s, below, x);
        if s.contains(n as int) {
            assert(n * (x * product_of_members(t, below)) == x * (n * product_of_members(t, below)))
                by (nonlinear_arith);
        }
    }
}

/// A set that has every integer from 1 to `n` has the factorial of `n` as
/// the product of its members up to `n`.
proof fn lemma_product_of_all(s: Set<int>, n: nat)
    requires
        forall|k: int| 1 <= k <= n ==> s.contains(k),
    ensures
        product_of_members(s, n) == factorial(n),
    decreases n,
{
    if n > 0 {
        lemma_product_of_all(s, (n - 1) as nat);
    }
}

/// A set that has no integer from 1 to `n` has 1 as the product of its
/// members up to `n`.
proof fn lemma_product_of_none(s: Set<int>, n: nat)
    requires
        forall|k: int| 1 <= k <= n ==> !s.contains(k),
    ensures
        product_of_members(s, n) == 1,
    decreases n,
{
    if n > 0 {
        lemma_product_of_none(s, (n - 1) as nat);
    }
}

/// Every member of `s` lies between 2 and `top`, and its inverse modulo `p`
/// is a member too.
spec fn is_closed_under_inverse(s: Set<int>, top: int, p: int) -> bool {
    &&& forall|k: int| s.contains(k) ==> 2 <= k <= top
    &&& forall|k: int| s.contains(k) ==> s.contains(#[trigger] inverse_mod(k, p))
}

/// Modulo a prime `p`, the members of a set of residues between 2 and
/// `p - 2` that holds the inverse of each of its members pair off, each
/// with its inverse, so their product is congruent to 1.
proof fn lemma_product_of_pairs(s: Set<int>, top: nat, bound: nat, p: int)
    requires
        is_prime(p),
        top <= bound,
        top <= p - 2,
        is_closed_under_inverse(s, top as int, p),
    ensures
        product_of_members(s, bound) % p == 1,
    decreases top,
{
    if top < 2 {
        lemma_product_of_none(s, bound);
        lemma_small_mod(1, p as nat);
    } else if !s.contains(top as int) {
        lemma_product_of_pairs(s, (top - 1) as nat, bound, p);
    } else {
        // the largest member pairs with its inverse, a smaller member;
        // without the two the set is still closed
        let x = top as int;
        let y = inverse_mod(x, p);
        lemma_inverse_mod(x, p);
        if y == x {
            lemma_self_inverse(x, p);
        }
        let s1 = s.remove(x);
        let s2 = s1.remove(y);
        assert forall|k: int| s2.contains(k) implies s2.contains(
            #[trigger] inverse_mod(k, p),
        ) by {
            let ki = inverse_mod(k, p);
            lemma_inverse_mod(k, p);
            if ki == x {
                // then both k and y are inverses of x
                lemma_inverse_symmetric(k, x, p);
                lemma_inverse_unique(x, k, y, p);
            }
            if ki == y {
                // then both k and x are inverses of y
                lemma_inverse_symmetric(k, y, p);
                lemma_inverse_symmetric(x, y, p);
                lemma_inverse_unique(y, k, x, p);
            }
        }
        lemma_product_of_pairs(s2, (top - 1) as nat, bound, p);
        lemma_product_without(s, bound, x);
        lemma_product_without(s1, bound, y);
        let rest = product_of_members(s2, bound);
        assert(x * (y * rest) == (x * y) * rest) by (nonlinear_arith);
        lemma_product_of_residues(x * y, rest, 1, 1, p);
        lemma_small_mod(1, p as nat);
    }
}

/// A prime meets Wilson's criterion.
pub proof fn lemma_prime_implies_wilson(p: int)
    requires
        is_prime(p),
    ensures
        satisfies_wilson(p),
{
    if p == 2 {
        assert(factorial(1) == 1) by {
            reveal_with_fuel(factorial, 2);
        }
    } else {
        let last = (p - 1) as nat;
        let all = Set::new(|k: int| 1 <= k <= p - 1);
        let inner = all.remove(p - 1).remove(1);
        lemma_product_of_all(all, last);
        lemma_product_without(all, last, p - 1);
        lemma_product_without(all.remove(p - 1), last, 1);
        assert forall|k: int| inner.contains(k) implies inner.contains(
            #[trigger] inverse_mod(k, p),
        ) by {
            let ki = inverse_mod(k, p);
            lemma_inverse_mod(k, p);
            if ki == 1 {
                lemma_small_mod(k as nat, p as nat);
            }
            if ki == p - 1 {
                assert(k * (p - 1) == p * (k - 1) + (p - k)) by (nonlinear_arith);
                lemma_mod_multiples_vanish(k - 1, p - k, p);
                lemma_small_mod((p - k) as nat, p as nat);
            }
        }
        lemma_product_of_pairs(inner, (p - 2) as nat, last, p);
        // (p - 1)! is p - 1 times 1 times the product of the pairs, so it is
        // congruent to p - 1
        let rest = product_of_members(inner, last);
        lemma_small_mod((p - 1) as nat, p as nat);
        lemma_product_of_residues(p - 1, rest, p - 1, 1, p);
        let f = factorial(last) as int;
        lemma_fundamental_div_mod(f, p);
        assert(f + 1 == p * (f / p + 1) + 0) by (nonlinear_arith)
            requires
                f == p * (f / p) + (p - 1),
        ;
        lemma_mod_multiples_vanish(f / p + 1, 0, p);
        lemma_small_mod(0, p as nat);
    }
}

/// Wilson's theorem: an integer greater than 1 is prime exactly when it
/// divides the factorial of its predecessor plus 1.
pub proof fn lemma_wilson(n: int)
    requires
        n >= 2,
    ensures
        is_prime(n) <==> satisfies_wilson(n),
{
    if is_prime(n) {
        lemma_prime_implies_wilson(n);
    }
    if satisfies_wilson(n) {
        lemma_wilson_implies_prime(n);
    }
}

} // verus!
