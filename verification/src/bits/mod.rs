//! Fixed-width vectors of bits, added by exclusive or.

pub mod bit_array;

pub use bit_array::BitArray;
