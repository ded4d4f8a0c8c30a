//! Elementary number theory on 64-bit signed integers: greatest common
//! divisors, least common multiples and a primality test, each with a
//! machine-checked contract.

pub mod algebra;
pub mod errors;
