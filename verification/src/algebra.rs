//! Divisibility, greatest common divisors, least common multiples and
//! primality, with the number theory that their contracts rest on.

pub mod divisibility;
pub mod gcd;
pub mod lcm;
pub mod modular;
pub mod prime_nbr;
pub mod wilson;
