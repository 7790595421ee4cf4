//! The number-theoretic routines, one module per topic. `divisibility` holds
//! the definitions and lemmas that the others state their contracts with.

pub mod continued_fraction;
pub mod divisibility;
pub mod euclidean_algs;
pub mod euler_totient;
pub mod factorial;
pub mod fibonacci;
pub mod gcd;
pub mod modulus;
pub mod multiples;
pub mod multiplicative_inverse;
pub mod parity;
pub mod primality;
