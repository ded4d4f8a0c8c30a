use numtheory::algebra::prime_nbr::is_prime_number;
use numtheory::errors::MathError;

#[test]
fn test_is_prime_nbr() {
    assert_eq!(is_prime_number(47), Ok(Some(47)));
    assert_eq!(is_prime_number(12967), Ok(Some(12967)));
    assert_eq!(is_prime_number(111697), Ok(Some(111697)));
    assert_eq!(is_prime_number(1122157), Ok(Some(1122157)));

    assert_eq!(is_prime_number(12), Ok(None));
    assert_eq!(is_prime_number(158874), Ok(None));
}

#[test]
fn test_out_of_range() {
    assert_eq!(is_prime_number(0), Err(MathError::OutOfRange));
    assert_eq!(is_prime_number(1), Err(MathError::OutOfRange));
}

/// Primality by trial division, to hold the results against.
fn has_no_divisor(n: i64) -> bool {
    let mut d = 2;
    while d * d <= n {
        if n % d == 0 {
            return false;
        }
        d += 1;
    }
    n >= 2
}

#[test]
fn test_is_prime_number_matches_trial_division() {
    for n in 2i64..=2000 {
        let expected = if has_no_divisor(n) { Some(n) } else { None };
        assert_eq!(is_prime_number(n), Ok(expected), "is_prime_number({})", n);
    }
}

#[test]
fn test_smallest_inputs() {
    assert_eq!(is_prime_number(2), Ok(Some(2)));
    assert_eq!(is_prime_number(3), Ok(Some(3)));
    assert_eq!(is_prime_number(4), Ok(None));
    assert_eq!(is_prime_number(5), Ok(Some(5)));
    assert_eq!(is_prime_number(6), Ok(None));
    assert_eq!(is_prime_number(9), Ok(None));
}

#[test]
fn test_squares_of_primes_and_pseudoprimes_are_composite() {
    assert_eq!(is_prime_number(49), Ok(None));
    assert_eq!(is_prime_number(10201), Ok(None));
    // Carmichael numbers, which fool Fermat's test
    assert_eq!(is_prime_number(561), Ok(None));
    assert_eq!(is_prime_number(1729), Ok(None));
    assert_eq!(is_prime_number(294409), Ok(None));
}

#[test]
fn test_below_two_is_out_of_range() {
    for a in [1i64, 0, -1, -2, -47, i64::MIN] {
        assert_eq!(is_prime_number(a), Err(MathError::OutOfRange));
    }
}
