//! The two fields the protocols run over.

use vstd::prelude::*;
use crate::error::Error;
use crate::ff::bytes::{decode_le, encode_le, le_bytes, le_value, lemma_pow256_small};
use crate::ff::field::Field;
use crate::ff::inverse::{
    has_common_divisor, invert_mod, lemma_31_is_prime, lemma_inverse_excludes_divisor,
    lemma_prime_has_inverses,
};
use crate::secret_sharing::shared_value::SharedValue;

verus! {

/// The integers modulo 31.
#[derive(Debug, Clone, Copy, PartialEq, Eq, Structural)]
pub struct Fp31 {
    value: u8,
}

/// The integers modulo 2^32 - 5, the largest prime below 2^32.
#[derive(Debug, Clone, Copy, PartialEq, Eq, Structural)]
pub struct Fp32BitPrime {
    value: u32,
}

impl Fp31 {
    pub const PRIME: u8 = 31;
}

impl Fp32BitPrime {
    pub const PRIME: u32 = 4_294_967_291;
}

impl SharedValue for Fp31 {
    open spec fn size() -> nat {
        1
    }

    fn size_in_bytes() -> (n: usize) {
        1
    }
}

impl SharedValue for Fp32BitPrime {
    open spec fn size() -> nat {
        4
    }

    fn size_in_bytes() -> (n: usize) {
        4
    }
}

impl Field for Fp31 {
    open spec fn prime() -> int {
        31
    }

    closed spec fn as_int(self) -> int {
        self.value as int % 31
    }

    proof fn lemma_modulus() {
        lemma_pow256_small();
    }

    proof fn lemma_canonical(x: Self) {
    }

    fn modulus() -> (p: u128) {
        31
    }

    fn truncate_from(v: u128) -> (r: Self) {
        Fp31 { value: (v % 31) as u8 }
    }

    fn as_u128(self) -> (v: u128) {
        (self.value % 31) as u128
    }

    fn zero() -> (r: Self) {
        Fp31 { value: 0 }
    }

    fn one() -> (r: Self) {
        Fp31 { value: 1 }
    }

    fn add(self, rhs: Self) -> (r: Self) {
        Fp31 { value: ((self.value % 31 + rhs.value % 31) % 31) }
    }

    fn sub(self, rhs: Self) -> (r: Self) {
        Fp31 { value: ((self.value % 31 + 31 - rhs.value % 31) % 31) }
    }

    fn neg(self) -> (r: Self) {
        Fp31 { value: ((31 - self.value % 31) % 31) }
    }

    fn mul(self, rhs: Self) -> (r: Self) {
        let a: u16 = (self.value % 31) as u16;
        let b: u16 = (rhs.value % 31) as u16;
        assert(a * b <= 900) by (nonlinear_arith)
            requires
                a <= 30,
                b <= 30,
        ;
        Fp31 { value: ((a * b) % 31) as u8 }
    }

    fn invert(self) -> (r: Option<Self>) {
        match invert_mod((self.value % 31) as u64, 31) {
            Some(y) => {
                proof {
                    lemma_inverse_excludes_divisor(self.as_int(), y as int, 31);
                }
                Some(Fp31 { value: y as u8 })
            },
            None => None,
        }
    }

    fn serialize(self) -> (out: Vec<u8>) {
        encode_le((self.value % 31) as u64, 1)
    }

    fn deserialize(bytes: &[u8]) -> (r: Result<Self, Error>) {
        if bytes.len() != 1 {
            return Err(Error::MalformedFrame);
        }
        let v: u64 = decode_le(bytes);
        if v >= 31 {
            return Err(Error::MalformedFrame);
        }
        Ok(Fp31 { value: v as u8 })
    }
}

impl Field for Fp32BitPrime {
    open spec fn prime() -> int {
        4_294_967_291
    }

    closed spec fn as_int(self) -> int {
        self.value as int % 4_294_967_291
    }

    proof fn lemma_modulus() {
        lemma_pow256_small();
    }

    proof fn lemma_canonical(x: Self) {
    }

    fn modulus() -> (p: u128) {
        4_294_967_291
    }

    fn truncate_from(v: u128) -> (r: Self) {
        Fp32BitPrime { value: (v % 4_294_967_291) as u32 }
    }

    fn as_u128(self) -> (v: u128) {
        (self.value % 4_294_967_291) as u128
    }

    fn zero() -> (r: Self) {
        Fp32BitPrime { value: 0 }
    }

    fn one() -> (r: Self) {
        Fp32BitPrime { value: 1 }
    }

    fn add(self, rhs: Self) -> (r: Self) {
        let a: u64 = (self.value % 4_294_967_291) as u64;
        let b: u64 = (rhs.value % 4_294_967_291) as u64;
        Fp32BitPrime { value: ((a + b) % 4_294_967_291) as u32 }
    }

    fn sub(self, rhs: Self) -> (r: Self) {
        let a: u64 = (self.value % 4_294_967_291) as u64;
        let b: u64 = (rhs.value % 4_294_967_291) as u64;
        Fp32BitPrime { value: ((a + 4_294_967_291 - b) % 4_294_967_291) as u32 }
    }

    fn neg(self) -> (r: Self) {
        let a: u64 = (self.value % 4_294_967_291) as u64;
        Fp32BitPrime { value: ((4_294_967_291 - a) % 4_294_967_291) as u32 }
    }

    fn mul(self, rhs: Self) -> (r: Self) {
        let a: u64 = (self.value % 4_294_967_291) as u64;
        let b: u64 = (rhs.value % 4_294_967_291) as u64;
        assert(a * b <= 4_294_967_290 * 4_294_967_290) by (nonlinear_arith)
            requires
                a <= 4_294_967_290,
                b <= 4_294_967_290,
        ;
        Fp32BitPrime { value: ((a * b) % 4_294_967_291) as u32 }
    }

    fn invert(self) -> (r: Option<Self>) {
        match invert_mod((self.value % 4_294_967_291) as u64, 4_294_967_291) {
            Some(y) => {
                proof {
                    lemma_inverse_excludes_divisor(self.as_int(), y as int, 4_294_967_291);
                }
                Some(Fp32BitPrime { value: y as u32 })
            },
            None => None,
        }
    }

    fn serialize(self) -> (out: Vec<u8>) {
        encode_le((self.value % 4_294_967_291) as u64, 4)
    }

    fn deserialize(bytes: &[u8]) -> (r: Result<Self, Error>) {
        if bytes.len() != 4 {
            return Err(Error::MalformedFrame);
        }
        let v: u64 = decode_le(bytes);
        if v >= 4_294_967_291 {
            return Err(Error::MalformedFrame);
        }
        Ok(Fp32BitPrime { value: v as u32 })
    }
}

impl From<u128> for Fp31 {
    /// The element that `v` stands for: `v` reduced modulo the prime.
    fn from(v: u128) -> (r: Self) {
        Fp31 { value: (v % 31) as u8 }
    }
}

impl vstd::std_specs::convert::FromSpecImpl<u128> for Fp31 {
    open spec fn obeys_from_spec() -> bool {
        true
    }

    closed spec fn from_spec(v: u128) -> Self {
        Fp31 { value: (v % 31) as u8 }
    }
}

impl From<u128> for Fp32BitPrime {
    /// The element that `v` stands for: `v` reduced modulo the prime.
    fn from(v: u128) -> (r: Self) {
        Fp32BitPrime { value: (v % 4_294_967_291) as u32 }
    }
}

impl vstd::std_specs::convert::FromSpecImpl<u128> for Fp32BitPrime {
    open spec fn obeys_from_spec() -> bool {
        true
    }

    closed spec fn from_spec(v: u128) -> Self {
        Fp32BitPrime { value: (v % 4_294_967_291) as u32 }
    }
}

/// Converting a number gives the element that the number stands for.
pub proof fn lemma_from_reduces(v: u128)
    ensures
        <Fp31 as vstd::std_specs::convert::FromSpec<u128>>::from_spec(v).as_int() == v as int % 31,
        <Fp32BitPrime as vstd::std_specs::convert::FromSpec<u128>>::from_spec(v).as_int() == v as int
            % 4_294_967_291,
{
}

/// In the field of 31 elements, everything but zero has an inverse.
pub proof fn lemma_fp31_inverses(x: Fp31)
    ensures
        has_common_divisor(x.as_int(), 31) <==> x.as_int() == 0,
{
    Fp31::lemma_canonical(x);
    if x.as_int() != 0 {
        lemma_31_is_prime();
        lemma_prime_has_inverses(x.as_int(), 31);
    } else {
        assert(crate::ff::inverse::divides(31, 0) && crate::ff::inverse::divides(31, 31));
    }
}

} // verus!
