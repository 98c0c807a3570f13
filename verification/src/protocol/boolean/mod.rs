//! Shared random bits.

pub mod random_bits_generator;
pub mod solved_bits;

pub use random_bits_generator::{Attempt, Draw, RandomBitsGenerator};
pub use solved_bits::RandomBitsShare;
