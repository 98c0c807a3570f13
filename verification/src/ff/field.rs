//! The algebraic contract of a prime field.

use vstd::prelude::*;
use crate::error::Error;
use crate::ff::bytes::{le_bytes, le_value};
use crate::ff::inverse::has_common_divisor;
use crate::secret_sharing::shared_value::SharedValue;

verus! {

/// An element of the integers modulo a prime.
///
/// The model of an element is the integer `as_int()`, which lies in
/// `[0, prime())`; every operation is stated over that model.
pub trait Field: SharedValue {
    /// The modulus.
    spec fn prime() -> int;

    /// The canonical representative of this element.
    spec fn as_int(self) -> int;

    /// The modulus is at least two and every element fits in 32 bits and in
    /// `size()` bytes.
    proof fn lemma_modulus()
        ensures
            2 <= Self::prime() <= 0xffff_ffff,
            1 <= Self::size() <= 4,
            Self::prime() <= crate::ff::bytes::pow256(Self::size()),
    ;

    /// Every element has its representative in `[0, prime())`.
    proof fn lemma_canonical(x: Self)
        ensures
            0 <= x.as_int() < Self::prime(),
    ;

    /// The modulus, as a machine integer.
    fn modulus() -> (p: u128)
        ensures
            p as int == Self::prime(),
    ;

    /// Reduces `v` modulo the prime.
    fn truncate_from(v: u128) -> (r: Self)
        ensures
            r.as_int() == (v as int) % Self::prime(),
    ;

    /// The canonical representative.
    fn as_u128(self) -> (v: u128)
        ensures
            v as int == self.as_int(),
    ;

    fn zero() -> (r: Self)
        ensures
            r.as_int() == 0,
    ;

    fn one() -> (r: Self)
        ensures
            r.as_int() == 1,
    ;

    fn add(self, rhs: Self) -> (r: Self)
        ensures
            r.as_int() == (self.as_int() + rhs.as_int()) % Self::prime(),
    ;

    fn sub(self, rhs: Self) -> (r: Self)
        ensures
            r.as_int() == (self.as_int() - rhs.as_int()) % Self::prime(),
    ;

    fn neg(self) -> (r: Self)
        ensures
            r.as_int() == (-self.as_int()) % Self::prime(),
    ;

    fn mul(self, rhs: Self) -> (r: Self)
        ensures
            r.as_int() == (self.as_int() * rhs.as_int()) % Self::prime(),
    ;

    /// The inverse: the element whose product with this one is one. An
    /// element has none exactly if its representative has a divisor above
    /// one in common with the modulus; for a prime modulus that is zero
    /// alone.
    fn invert(self) -> (r: Option<Self>)
        ensures
            r matches Some(y) ==> (self.as_int() * y.as_int()) % Self::prime() == 1,
            r is None <==> has_common_divisor(self.as_int(), Self::prime()),
    ;

    /// The canonical encoding: `size()` bytes, least significant first.
    fn serialize(self) -> (out: Vec<u8>)
        ensures
            out@ == le_bytes(self.as_int(), Self::size()),
    ;

    /// Reads a canonical encoding. Anything that is not exactly `size()`
    /// bytes spelling a number below the prime is refused.
    fn deserialize(bytes: &[u8]) -> (r: Result<Self, Error>)
        ensures
            match r {
                Ok(x) => bytes@.len() == Self::size() && le_value(bytes@) < Self::prime()
                    && x.as_int() == le_value(bytes@),
                Err(e) => e == Error::MalformedFrame && (bytes@.len() != Self::size() || le_value(
                    bytes@,
                ) >= Self::prime()),
            },
    ;
}

} // verus!
