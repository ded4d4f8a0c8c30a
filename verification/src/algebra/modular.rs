//! Inverses modulo a prime.

use crate::algebra::divisibility::is_divisor;
use crate::algebra::prime_nbr::is_prime;
use vstd::arithmetic::div_mod::{
    lemma_fundamental_div_mod, lemma_mod_bound, lemma_mod_multiples_vanish,
    lemma_mul_mod_noop_general, lemma_small_mod,
};
use vstd::prelude::*;

verus! {

/// `y` is the inverse of `x` modulo `p` among the residues `1..p`.
pub open spec fn is_inverse_mod(y: int, x: int, p: int) -> bool {
    1 <= y < p && (x * y) % p == 1
}

/// The inverse of `x` modulo `p`. It exists where `p` is prime and does not
/// divide `x`.
pub open spec fn inverse_mod(x: int, p: int) -> int {
    choose|y: int| is_inverse_mod(y, x, p)
}

/// A product is congruent to the product of the residues of its factors.
pub proof fn lemma_product_of_residues(x: int, y: int, rx: int, ry: int, p: int)
    requires
        p > 0,
        x % p == rx,
        y % p == ry,
    ensures
        (x * y) % p == (rx * ry) % p,
{
    lemma_mul_mod_noop_general(x, y, p);
}

/// Modulo a prime, every residue from 1 to `p - 1` has an inverse.
/// Returns one.
pub proof fn lemma_inverse_exists(x: int, p: int) -> (y: int)
    requires
        is_prime(p),
        1 <= x < p,
    ensures
        is_inverse_mod(y, x, p),
    decreases x,
{
    if x == 1 {
        lemma_small_mod(1, p as nat);
        1
    } else {
        let q = p / x;
        let r = p % x;
        lemma_fundamental_div_mod(p, x);
        assert(!is_divisor(x, p));
        let ri = lemma_inverse_exists(r, p);
        let y0 = -q * ri;
        assert(x * y0 == p * (-ri) + r * ri) by (nonlinear_arith)
            requires
                p == x * q + r,
                y0 == -q * ri,
        ;
        lemma_mod_multiples_vanish(-ri, r * ri, p);
        let y = y0 % p;
        lemma_mod_bound(y0, p);
        lemma_mul_mod_noop_general(x, y0, p);
        if y == 0 {
            assert(x * 0 == 0) by (nonlinear_arith);
            lemma_small_mod(0, p as nat);
        }
        y
    }
}

/// Modulo a prime, the inverse of a residue from 1 to `p - 1` is such a
/// residue, and their product is congruent to 1.
pub proof fn lemma_inverse_mod(x: int, p: int)
    requires
        is_prime(p),
        1 <= x < p,
    ensures
        is_inverse_mod(inverse_mod(x, p), x, p),
{
    let y = lemma_inverse_exists(x, p);
}

/// A residue has at most one inverse.
pub proof fn lemma_inverse_unique(x: int, y: int, z: int, p: int)
    requires
        is_inverse_mod(y, x, p),
        is_inverse_mod(z, x, p),
    ensures
        y == z,
{
    assert(y * (x * z) == (x * y) * z) by (nonlinear_arith);
    lemma_small_mod(y as nat, p as nat);
    lemma_small_mod(z as nat, p as nat);
    lemma_product_of_residues(y, x * z, y, 1, p);
    lemma_product_of_residues(x * y, z, 1, z, p);
}

/// Being an inverse is mutual.
pub proof fn lemma_inverse_symmetric(x: int, y: int, p: int)
    requires
        is_inverse_mod(y, x, p),
        1 <= x < p,
    ensures
        is_inverse_mod(x, y, p),
{
}

/// Modulo a prime, only 1 and `p - 1` are their own inverses.
pub proof fn lemma_self_inverse(x: int, p: int)
    requires
        is_prime(p),
        is_inverse_mod(x, x, p),
    ensures
        x == 1 || x == p - 1,
{
    if x != 1 && x != p - 1 {
        let u = lemma_inverse_exists(x - 1, p);
        assert((x + 1) * ((x - 1) * u) == (x * x) * u - u) by (nonlinear_arith);
        lemma_small_mod((x + 1) as nat, p as nat);
        lemma_small_mod(u as nat, p as nat);
        // (x + 1) * ((x - 1) * u) is congruent to x + 1 ...
        lemma_product_of_residues(x + 1, (x - 1) * u, x + 1, 1, p);
        // ... and equal to (x * x) * u - u, which is a multiple of p
        lemma_product_of_residues(x * x, u, 1, u, p);
        lemma_fundamental_div_mod((x * x) * u, p);
        let k = ((x * x) * u) / p;
        assert((x * x) * u - u == p * k + 0) by (nonlinear_arith)
            requires
                (x * x) * u == p * k + u,
        ;
        lemma_mod_multiples_vanish(k, 0, p);
        lemma_small_mod(0, p as nat);
    }
}

} // verus!
