//! Prime fields and their canonical byte form.

pub mod bytes;
pub mod field;
pub mod inverse;
pub mod modular;
pub mod prime_field;

pub use field::Field;
pub use prime_field::{Fp31, Fp32BitPrime};
