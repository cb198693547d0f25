//! Probabilistic primality testing of arbitrary-precision natural numbers
//! with the Fermat test.

pub mod bignat;
pub mod fermat_little;
pub mod number_theory;
pub mod primality;

pub use bignat::BigNat;
pub use primality::{fermat_primality_test, Primality};

