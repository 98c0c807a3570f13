//! A vector of bits of a fixed width.

use vstd::prelude::*;
use crate::error::Error;
use crate::secret_sharing::replicated::Replicated;
use crate::secret_sharing::shared_value::SharedValue;

verus! {

/// A vector of `N` bits. Addition and subtraction are both the exclusive
/// or, bit by bit.
#[derive(Debug, Clone, Copy, PartialEq, Eq)]
pub struct BitArray<const N: usize> {
    bits: [bool; N],
}

impl<const N: usize> View for BitArray<N> {
    type V = Seq<bool>;

    closed spec fn view(&self) -> Seq<bool> {
        self.bits@
    }
}

/// The exclusive or of two vectors, bit by bit.
pub open spec fn xored(a: Seq<bool>, b: Seq<bool>) -> Seq<bool> {
    Seq::new(a.len(), |i: int| a[i] != b[i])
}

/// One if the bit at `i` is there and set, else zero.
pub open spec fn bit_value(bits: Seq<bool>, i: int) -> int {
    if 0 <= i < bits.len() && bits[i] {
        1
    } else {
        0
    }
}

/// The byte that holds the bits `8k` to `8k + 7`, the lowest first. Places
/// beyond the end of the vector count as zero.
pub open spec fn byte_at(bits: Seq<bool>, k: int) -> int {
    bit_value(bits, 8 * k) + 2 * bit_value(bits, 8 * k + 1) + 4 * bit_value(bits, 8 * k + 2) + 8
        * bit_value(bits, 8 * k + 3) + 16 * bit_value(bits, 8 * k + 4) + 32 * bit_value(
        bits,
        8 * k + 5,
    ) + 64 * bit_value(bits, 8 * k + 6) + 128 * bit_value(bits, 8 * k + 7)
}

/// The number of bytes that `n` bits take.
pub open spec fn bytes_for(n: int) -> int {
    if n % 8 == 0 {
        n / 8
    } else {
        n / 8 + 1
    }
}

/// The bytes that a vector of bits is sent as: eight bits to a byte, the
/// lowest first, the last byte filled up with zeros.
pub open spec fn packed(bits: Seq<bool>) -> Seq<u8> {
    Seq::new(bytes_for(bits.len() as int) as nat, |k: int| byte_at(bits, k) as u8)
}

/// The `n` bits that bytes spell, eight to a byte, the lowest first.
pub open spec fn unpacked(bytes: Seq<u8>, n: int) -> Seq<bool> {
    Seq::new(n as nat, |i: int| (bytes[i / 8] as int / weight(i % 8)) % 2 == 1)
}

/// Two to the power `j`, for the places of a byte.
pub open spec fn weight(j: int) -> int {
    if j == 0 {
        1
    } else if j == 1 {
        2
    } else if j == 2 {
        4
    } else if j == 3 {
        8
    } else if j == 4 {
        16
    } else if j == 5 {
        32
    } else if j == 6 {
        64
    } else {
        128
    }
}

/// The number that the first `n` bits spell in 64 bits, the bit at place
/// `i` counting `2^i`. Bits from place 64 on do not count.
pub open spec fn low_value(bits: Seq<bool>, n: int) -> u64
    decreases n,
{
    if n <= 0 {
        0
    } else if n <= 64 && bits[n - 1] {
        low_value(bits, n - 1) | (1u64 << ((n - 1) as u64))
    } else {
        low_value(bits, n - 1)
    }
}

impl<const N: usize> BitArray<N> {
    /// A vector has `N` bits.
    pub proof fn lemma_width(self)
        ensures
            self@.len() == N,
    {
        vstd::array::array_len_matches_n(&self.bits);
    }

    /// The number of bits.
    pub fn bits() -> (n: usize)
        ensures
            n == N,
    {
        N
    }

    /// The vector of zeros.
    pub fn zero() -> (b: Self)
        ensures
            b@.len() == N,
            forall|i: int| 0 <= i < N ==> !b@[i],
    {
        broadcast use vstd::array::axiom_spec_array_fill_for_copy_type;

        let b = BitArray { bits: [false;N] };
        proof {
            vstd::array::array_len_matches_n(&b.bits);
        }
        b
    }

    /// The vector of the `N` low bits of `value`; where `N` is above 64,
    /// the bits from place 64 on are zero.
    pub fn truncate_from(value: u64) -> (b: Self)
        ensures
            b@.len() == N,
            forall|i: int|
                0 <= i < N ==> b@[i] == (i < 64 && (value >> (i as u64)) & 1 == 1),
    {
        let mut out = Self::zero();
        let mut i: usize = 0;
        proof {
            vstd::array::array_len_matches_n(&out.bits);
        }
        while i < N && i < 64
            invariant
                i <= N,
                i <= 64,
                out@.len() == N,
                forall|k: int| 0 <= k < i ==> out@[k] == ((value >> (k as u64)) & 1 == 1),
                forall|k: int| i <= k < N ==> !out@[k],
            decreases N - i,
        {
            out.bits[i] = (value >> (i as u64)) & 1 == 1;
            i = i + 1;
        }
        out
    }

    /// The number that the first 64 bits spell, the bit at place `i`
    /// counting `2^i`.
    pub fn as_u64(self) -> (v: u64)
        ensures
            v == low_value(self@, N as int),
    {
        let mut v: u64 = 0;
        let mut i: usize = 0;
        proof {
            self.lemma_width();
        }
        while i < N
            invariant
                i <= N,
                self@.len() == N,
                v == low_value(self@, i as int),
            decreases N - i,
        {
            if i < 64 && self.bits[i] {
                v = v | (1u64 << (i as u64));
            }
            i = i + 1;
        }
        v
    }

    /// The bit at place `i`, counted from the lowest.
    pub fn get(self, i: usize) -> (bit: bool)
        requires
            i < N,
        ensures
            bit == self@[i as int],
    {
        self.bits[i]
    }

    /// The same vector with the bit at place `i` set to `bit`.
    pub fn with(self, i: usize, bit: bool) -> (b: Self)
        requires
            i < N,
        ensures
            b@ == self@.update(i as int, bit),
    {
        let mut out = self;
        out.bits[i] = bit;
        out
    }

    /// The exclusive or with `rhs`, bit by bit.
    pub fn xor(self, rhs: Self) -> (b: Self)
        ensures
            b@ == xored(self@, rhs@),
    {
        let mut out = self;
        let mut i: usize = 0;
        proof {
            self.lemma_width();
            rhs.lemma_width();
        }
        while i < N
            invariant
                i <= N,
                self@.len() == N,
                rhs@.len() == N,
                out@.len() == N,
                forall|k: int| 0 <= k < i ==> out@[k] == (self@[k] != rhs@[k]),
            decreases N - i,
        {
            let bit: bool = self.bits[i] != rhs.bits[i];
            out.bits[i] = bit;
            i = i + 1;
        }
        assert(out@ =~= xored(self@, rhs@));
        out
    }

    /// One if the bit at `i` is there and set, else zero.
    fn value_at(&self, i: usize) -> (v: u8)
        ensures
            v as int == bit_value(self@, i as int),
    {
        proof {
            self.lemma_width();
        }
        if i < N && self.bits[i] {
            1
        } else {
            0
        }
    }

    /// The canonical encoding: eight bits to a byte, the lowest first, in
    /// as many bytes as the bits take.
    pub fn serialize(self) -> (out: Vec<u8>)
        ensures
            out@ == packed(self@),
    {
        let n: usize = Self::size_in_bytes();
        let mut out: Vec<u8> = Vec::new();
        let mut k: usize = 0;
        proof {
            self.lemma_width();
        }
        while k < n
            invariant
                k <= n,
                n as int == bytes_for(N as int),
                self@.len() == N,
                out@.len() == k,
                forall|j: int| 0 <= j < k ==> out@[j] as int == byte_at(self@, j),
            decreases n - k,
        {
            let base: usize = 8 * k;
            let byte: u8 = self.value_at(base) + 2 * self.value_at(base + 1) + 4 * self.value_at(
                base + 2,
            ) + 8 * self.value_at(base + 3) + 16 * self.value_at(base + 4) + 32 * self.value_at(
                base + 5,
            ) + 64 * self.value_at(base + 6) + 128 * self.value_at(base + 7);
            out.push(byte);
            k = k + 1;
        }
        assert(out@ =~= packed(self@));
        out
    }

    /// Reads a canonical encoding. Anything that is not the encoding of a
    /// vector of `N` bits is refused: bytes of another number, or a last
    /// byte with a bit set beyond the `N`-th.
    pub fn deserialize(bytes: &[u8]) -> (r: Result<Self, Error>)
        ensures
            match r {
                Ok(b) => b@ == unpacked(bytes@, N as int) && packed(b@) == bytes@,
                Err(e) => e == Error::MalformedFrame && (bytes@.len() != bytes_for(N as int)
                    || packed(unpacked(bytes@, N as int)) != bytes@),
            },
    {
        if bytes.len() != Self::size_in_bytes() {
            return Err(Error::MalformedFrame);
        }
        let mut out = Self::zero();
        let mut i: usize = 0;
        while i < N
            invariant
                i <= N,
                bytes@.len() == bytes_for(N as int),
                out@.len() == N,
                forall|k: int|
                    0 <= k < i ==> out@[k] == ((bytes@[k / 8] as int / weight(k % 8)) % 2 == 1),
            decreases N - i,
        {
            let byte: u8 = bytes[i / 8];
            let place: usize = i % 8;
            let shifted: u8 = if place == 0 {
                byte
            } else if place == 1 {
                byte / 2
            } else if place == 2 {
                byte / 4
            } else if place == 3 {
                byte / 8
            } else if place == 4 {
                byte / 16
            } else if place == 5 {
                byte / 32
            } else if place == 6 {
                byte / 64
            } else {
                byte / 128
            };
            out.bits[i] = shifted % 2 == 1;
            i = i + 1;
        }
        assert(out@ =~= unpacked(bytes@, N as int));
        let again = out.serialize();
        if !same_bytes(again.as_slice(), bytes) {
            return Err(Error::MalformedFrame);
        }
        Ok(out)
    }
}

/// Whether two lists of bytes are the same.
fn same_bytes(a: &[u8], b: &[u8]) -> (same: bool)
    ensures
        same == (a@ == b@),
{
    if a.len() != b.len() {
        return false;
    }
    let mut i: usize = 0;
    while i < a.len()
        invariant
            i <= a@.len(),
            a@.len() == b@.len(),
            forall|k: int| 0 <= k < i ==> a@[k] == b@[k],
        decreases a@.len() - i,
    {
        if a[i] != b[i] {
            return false;
        }
        i = i + 1;
    }
    assert(a@ =~= b@);
    true
}

impl<const N: usize> SharedValue for BitArray<N> {
    /// One byte for every eight bits, the last one possibly in part.
    open spec fn size() -> nat {
        bytes_for(N as int) as nat
    }

    fn size_in_bytes() -> (n: usize) {
        if N % 8 == 0 {
            N / 8
        } else {
            N / 8 + 1
        }
    }
}

/// Whether three shares of bit vectors, in ring order, fit together.
pub open spec fn xor_consistent<const N: usize>(shares: [Replicated<BitArray<N>>; 3]) -> bool {
    &&& shares[0].spec_right()@ == shares[1].spec_left()@
    &&& shares[1].spec_right()@ == shares[2].spec_left()@
    &&& shares[2].spec_right()@ == shares[0].spec_left()@
}

/// The bit vector that three shares stand for: the exclusive or of the
/// three distinct coordinates.
pub open spec fn xor_opened<const N: usize>(shares: [Replicated<BitArray<N>>; 3]) -> Seq<bool> {
    xored(xored(shares[0].spec_left()@, shares[1].spec_left()@), shares[2].spec_left()@)
}

/// Shares a bit vector from two given ones: the three shares are `x1`, `x2`
/// and `input ^ x1 ^ x2`.
pub fn share_bits_with<const N: usize>(input: BitArray<N>, x1: BitArray<N>, x2: BitArray<N>) -> (shares:
    [Replicated<BitArray<N>>; 3])
    ensures
        xor_consistent(shares),
        xor_opened(shares) == input@,
        shares[0].spec_left()@ == x1@,
        shares[0].spec_right()@ == x2@,
{
    let x3 = input.xor(x1).xor(x2);
    proof {
        input.lemma_width();
        x1.lemma_width();
        x2.lemma_width();
        assert(xored(xored(x1@, x2@), x3@) =~= input@);
    }
    [Replicated::new(x1, x2), Replicated::new(x2, x3), Replicated::new(x3, x1)]
}

/// The exclusive or of the three distinct coordinates of three shares.
pub fn reconstruct_bits<const N: usize>(shares: &[Replicated<BitArray<N>>; 3]) -> (secret: BitArray<
    N,
>)
    ensures
        secret@ == xor_opened(*shares),
{
    shares[0].left().xor(shares[1].left()).xor(shares[2].left())
}

} // verus!
