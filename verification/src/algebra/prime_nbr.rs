//! A primality test by Wilson's criterion.

use crate::algebra::divisibility::is_divisor;
use crate::algebra::wilson::{lemma_wilson, satisfies_wilson};
use crate::errors::MathError;
use vstd::arithmetic::div_mod::{lemma_add_mod_noop, lemma_mul_mod_noop_left, lemma_small_mod};
use vstd::prelude::*;

verus! {

/// `n` is at least 2 and no integer strictly between 1 and `n` divides it.
pub open spec fn is_prime(n: int) -> bool {
    &&& n >= 2
    &&& forall|d: int| 1 < d < n ==> !#[trigger] is_divisor(d, n)
}

/// The product of the integers from 1 to `n`.
pub open spec fn factorial(n: nat) -> nat
    decreases n,
{
    if n == 0 {
        1
    } else {
        n * factorial((n - 1) as nat)
    }
}

/// What `is_prime_number` returns.
pub open spec fn is_prime_number_spec(a: i64) -> Result<Option<i64>, MathError> {
    if a < 2 {
        Err(MathError::OutOfRange)
    } else if is_prime(a as int) {
        Ok(Some(a))
    } else {
        Ok(None)
    }
}

/// Tells whether `a` is prime, by Wilson's criterion: returns `a` itself
/// where it is prime and `None` where it is composite. Fails with
/// `OutOfRange` where `a` is less than 2.
///
/// The factorial of `a - 1` is built up modulo `a`, one factor at a time,
/// so the running value stays below `a`: one multiplication and one
/// reduction for each positive integer below `a`.
pub fn is_prime_number(a: i64) -> (r: Result<Option<i64>, MathError>)
    ensures
        r == is_prime_number_spec(a),
        a < 2 <==> r == Err::<Option<i64>, MathError>(MathError::OutOfRange),
        a >= 2 ==> (r == Ok::<Option<i64>, MathError>(Some(a)) <==> is_prime(a as int)),
        a >= 2 ==> (r == Ok::<Option<i64>, MathError>(Some(a)) <==> satisfies_wilson(a as int)),
{
    if a < 2 {
        return Err(MathError::OutOfRange);
    }
    let modulus: u128 = a as u128;
    let mut residue: u128 = 1;
    let mut i: u128 = 1;
    proof {
        lemma_small_mod(1, modulus as nat);
    }
    while i < modulus
        invariant
            modulus == a,
            modulus >= 2,
            1 <= i <= modulus,
            residue == factorial((i - 1) as nat) % (modulus as nat),
        decreases modulus - i,
    {
        proof {
            let before = factorial((i - 1) as nat) as int;
            lemma_mul_mod_noop_left(before, i as int, modulus as int);
            assert(factorial(i as nat) == i * before) by (nonlinear_arith)
                requires
                    factorial(i as nat) == i * factorial((i - 1) as nat),
                    before == factorial((i - 1) as nat),
            ;
            assert(residue * i < modulus * modulus) by (nonlinear_arith)
                requires
                    residue < modulus,
                    i < modulus,
            ;
            assert(modulus * modulus <= u128::MAX) by (nonlinear_arith)
                requires
                    modulus <= 0x7fff_ffff_ffff_ffff,
            ;
        }
        residue = (residue * i) % modulus;
        i = i + 1;
    }
    proof {
        let f = factorial((a - 1) as nat) as int;
        lemma_add_mod_noop(f, 1, a as int);
        lemma_small_mod(1, modulus as nat);
        lemma_wilson(a as int);
    }
    if (residue + 1) % modulus == 0 {
        Ok(Some(a))
    } else {
        Ok(None)
    }
}

} // verus!
