use numtheory::algebra::gcd::{gcd, gcd_abs, gcd_secure};
use numtheory::errors::MathError;

#[test]
fn test_gcd_positive() {
    assert_eq!(gcd(48, 88).unwrap(), 8);
    assert_eq!(gcd(88, 48).unwrap(), 8);
}

#[test]
fn test_gcd_with_negatives() {
    assert_eq!(gcd(48, -88).unwrap(), 8);
    assert_eq!(gcd(-48, 88).unwrap(), -8);
    assert_eq!(gcd(-48, -88).unwrap(), -8);
}

#[test]
fn test_gcd_abs() {
    assert_eq!(gcd_abs(48, 88).unwrap(), 8);
    assert_eq!(gcd_abs(48, -88).unwrap(), 8);
    assert_eq!(gcd_abs(-48, 88).unwrap(), 8);
    assert_eq!(gcd_abs(-48, -88).unwrap(), 8);
}

#[test]
fn test_division_by_zero() {
    assert!(matches!(gcd(5, 0), Err(MathError::DivisionByZero)));
    assert!(matches!(gcd_abs(5, 0), Err(MathError::DivisionByZero)));
}

#[test]
fn test_edge_cases() {
    assert_eq!(gcd(0, 5).unwrap(), 5);
    assert_eq!(gcd_abs(0, 5).unwrap(), 5);
    assert_eq!(gcd(1, 1).unwrap(), 1);
    assert_eq!(gcd_abs(1, 1).unwrap(), 1);
}

#[test]
fn test_gcd_secure_positive() {
    assert_eq!(gcd_secure(48, 88).unwrap(), 8);
    assert_eq!(gcd_secure(88, 48).unwrap(), 8);
}

#[test]
fn test_gcd_secure_with_negatives() {
    assert_eq!(gcd_secure(48, -88).unwrap(), 8);
    assert_eq!(gcd_secure(-48, 88).unwrap(), 8);
    assert_eq!(gcd_secure(-48, -88).unwrap(), 8);
}

#[test]
fn test_gcd_secure_division_by_zero() {
    assert!(matches!(gcd_secure(5, 0), Err(MathError::DivisionByZero)));
}

#[test]
fn test_gcd_secure_edge_cases() {
    assert_eq!(gcd_secure(0, 5).unwrap(), 5);
    assert_eq!(gcd_secure(1, 1).unwrap(), 1);
    assert_eq!(gcd_secure(17, 1).unwrap(), 1);
    assert_eq!(gcd_secure(100, 25).unwrap(), 25);
}

#[test]
fn test_gcd_secure_same_as_gcd_abs() {
    let test_cases = [
        (48, 88),
        (-48, 88),
        (48, -88),
        (-48, -88),
        (17, 13),
        (100, 30),
        (7, 3),
    ];

    for (a, b) in test_cases {
        assert_eq!(
            gcd_secure(a, b).unwrap(),
            gcd_abs(a, b).unwrap(),
            "gcd_secure({}, {}) should equal gcd_abs({}, {})",
            a,
            b,
            a,
            b
        );
    }
}

/// The operands that the further tests walk through: small ones of every
/// sign, coprime ones, multiples, and the ends of the 64-bit range.
fn sample_operands() -> Vec<i64> {
    vec![
        0,
        1,
        -1,
        2,
        -2,
        3,
        12,
        -18,
        48,
        -88,
        97,
        360,
        -504,
        1_000_000_007,
        -4_294_967_296,
        i64::MAX,
        i64::MIN + 1,
        i64::MIN,
    ]
}

/// The greatest common divisor found by trying every candidate, for small
/// operands only.
fn gcd_by_search(a: i64, b: i64) -> i64 {
    let mut best = 0;
    let limit = a.abs().max(b.abs());
    for d in 1..=limit {
        if a % d == 0 && b % d == 0 {
            best = d;
        }
    }
    best
}

fn fits_unsigned(a: i64, b: i64) -> bool {
    !(b == i64::MIN && (a == 0 || a == i64::MIN))
}

#[test]
fn test_gcd_sign_follows_first_operand_whatever_the_second() {
    assert_eq!(gcd(88, -48), Ok(8));
    assert_eq!(gcd(-88, 48), Ok(-8));
    assert_eq!(gcd(-88, -48), Ok(-8));
    assert_eq!(gcd(7, -3), Ok(1));
    assert_eq!(gcd(-7, 3), Ok(-1));
    assert_eq!(gcd(100, -30), Ok(10));
    assert_eq!(gcd(-100, 30), Ok(-10));
}

#[test]
fn test_gcd_of_zero_and_n_is_magnitude_of_n() {
    assert_eq!(gcd(0, 5), Ok(5));
    assert_eq!(gcd(0, -5), Ok(5));
    assert_eq!(gcd_abs(0, -5), Ok(5));
    assert_eq!(gcd_secure(0, -5), Ok(5));
    assert_eq!(gcd(0, i64::MAX), Ok(i64::MAX));
    assert_eq!(gcd(0, i64::MIN + 1), Ok(i64::MAX));
}

#[test]
fn test_gcd_of_n_and_n_is_n() {
    for n in [1i64, 2, 17, 360, i64::MAX] {
        assert_eq!(gcd(n, n), Ok(n));
        assert_eq!(gcd(-n, -n), Ok(-n));
        assert_eq!(gcd_abs(n, n), Ok(n));
        assert_eq!(gcd_abs(-n, -n), Ok(n));
        assert_eq!(gcd_secure(-n, n), Ok(n));
    }
    assert_eq!(gcd(i64::MIN, i64::MIN), Ok(i64::MIN));
}

#[test]
fn test_gcd_matches_exhaustive_search() {
    for a in -40i64..=40 {
        for b in -40i64..=40 {
            if b == 0 {
                continue;
            }
            let expected = gcd_by_search(a, b);
            assert_eq!(gcd_abs(a, b), Ok(expected), "gcd_abs({}, {})", a, b);
            assert_eq!(gcd_secure(a, b), Ok(expected), "gcd_secure({}, {})", a, b);
            let signed = if a < 0 { -expected } else { expected };
            assert_eq!(gcd(a, b), Ok(signed), "gcd({}, {})", a, b);
        }
    }
}

#[test]
fn test_gcd_times_sign_factor_is_gcd_abs() {
    for a in sample_operands() {
        for b in sample_operands() {
            if b == 0 || !fits_unsigned(a, b) {
                continue;
            }
            let sign_factor: i128 = if a >= 0 { 1 } else { -1 };
            let signed = gcd(a, b).unwrap() as i128;
            let unsigned = gcd_abs(a, b).unwrap() as i128;
            assert_eq!(signed * sign_factor, unsigned, "operands {} and {}", a, b);
            assert!(unsigned > 0);
        }
    }
}

#[test]
fn test_gcd_secure_equals_gcd_abs_on_samples() {
    for a in sample_operands() {
        for b in sample_operands() {
            if !fits_unsigned(a, b) {
                continue;
            }
            assert_eq!(gcd_secure(a, b), gcd_abs(a, b), "operands {} and {}", a, b);
        }
    }
}

#[test]
fn test_gcd_result_divides_both_operands() {
    for a in sample_operands() {
        for b in sample_operands() {
            if b == 0 || !fits_unsigned(a, b) {
                continue;
            }
            let g = gcd_abs(a, b).unwrap() as i128;
            assert_eq!(a as i128 % g, 0);
            assert_eq!(b as i128 % g, 0);
        }
    }
}

#[test]
fn test_zero_divisor_fails_for_every_first_operand() {
    for a in sample_operands() {
        assert_eq!(gcd(a, 0), Err(MathError::DivisionByZero));
        assert_eq!(gcd_abs(a, 0), Err(MathError::DivisionByZero));
        assert_eq!(gcd_secure(a, 0), Err(MathError::DivisionByZero));
    }
}

#[test]
fn test_gcd_at_the_ends_of_the_range() {
    assert_eq!(gcd(i64::MIN, -1), Ok(-1));
    assert_eq!(gcd(-1, i64::MIN), Ok(-1));
    assert_eq!(gcd_abs(i64::MIN, -1), Ok(1));
    assert_eq!(gcd_secure(i64::MIN, 1), Ok(1));
    assert_eq!(gcd(i64::MIN, 2), Ok(-2));
    assert_eq!(gcd_abs(i64::MIN, 2), Ok(2));
    assert_eq!(gcd_abs(6, i64::MIN), Ok(2));
    assert_eq!(gcd(i64::MIN, i64::MAX), Ok(-1));
    assert_eq!(gcd(i64::MAX, i64::MIN), Ok(1));
    assert_eq!(gcd_abs(i64::MIN, 4_611_686_018_427_387_904), Ok(4_611_686_018_427_387_904));
    assert_eq!(gcd(i64::MIN, 0), Err(MathError::DivisionByZero));
}

#[test]
fn test_gcd_of_large_coprime_and_composite_operands() {
    assert_eq!(gcd(982_451_653, 982_451_707), Ok(1));
    assert_eq!(gcd_abs(1_000_000_007 * 3, 1_000_000_007 * 5), Ok(1_000_000_007));
    assert_eq!(gcd_secure(2_i64.pow(40) * 9, 2_i64.pow(35) * 15), Ok(2_i64.pow(35) * 3));
    assert_eq!(gcd(-(2_i64.pow(40) * 9), 2_i64.pow(35) * 15), Ok(-(2_i64.pow(35) * 3)));
}
