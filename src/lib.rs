//! Arithmetic over the prime field of order `p = 2^32 - 2^20 + 1`.
pub mod finite_field;
pub mod laws;
pub mod modular;

pub use finite_field::{Field, GENERATOR, MODULUS, N_ROOTS};
