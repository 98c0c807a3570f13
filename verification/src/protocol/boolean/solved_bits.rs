//! A random field element, shared together with its bits.

use vstd::prelude::*;
use vstd::string::StringSliceAdditionalSpecFns;
use crate::ff::modular::{congruent, lemma_product, lemma_reduced, lemma_small, lemma_sum};
use crate::ff::Field;
use crate::helpers::role::{role_index, Role};
use crate::protocol::context::Context;
use crate::protocol::prss::{record_values, PrssEndpoint};
use crate::protocol::step::{label_bytes, RecordId, Substep};
use crate::secret_sharing::replicated::{consistent, opened, Replicated};

verus! {

/// Shares of the bits of a random value, least significant first, and a
/// share of the value they spell.
#[derive(Debug)]
pub struct RandomBitsShare<F> {
    pub b_b: Vec<Replicated<F>>,
    pub b_p: Replicated<F>,
}

/// The levels below the step of a draw.
#[derive(Debug, Clone, Copy, PartialEq, Eq, Structural)]
pub enum SolvedBitsStep {
    /// Where the bits are drawn.
    RandomBits,
    /// Where the drawn value is held against the prime.
    LessThanPrime,
}

impl Substep for SolvedBitsStep {
    open spec fn label(&self) -> Seq<u8> {
        match self {
            SolvedBitsStep::RandomBits => "random-bits".spec_bytes(),
            SolvedBitsStep::LessThanPrime => "less-than-prime".spec_bytes(),
        }
    }

    fn to_bytes(&self) -> (out: Vec<u8>) {
        match self {
            SolvedBitsStep::RandomBits => label_bytes("random-bits"),
            SolvedBitsStep::LessThanPrime => label_bytes("less-than-prime"),
        }
    }
}

/// The level of one bit: `b` followed by the position, as one byte.
#[derive(Debug, Clone, Copy, PartialEq, Eq, Structural)]
pub struct BitOpStep {
    pub index: u8,
}

impl Substep for BitOpStep {
    open spec fn label(&self) -> Seq<u8> {
        seq![98u8, self.index]
    }

    fn to_bytes(&self) -> (out: Vec<u8>) {
        let mut out: Vec<u8> = Vec::new();
        out.push(98);
        out.push(self.index);
        assert(out@ =~= seq![98u8, self.index]);
        out
    }
}

/// The bit of `v` at position `i`, counted from the least significant.
pub open spec fn bit_of(v: int, i: nat) -> int {
    (v / pow2(i)) % 2
}

/// The bit of `v` at position `i`.
pub fn bit_at(v: u128, i: u32) -> (b: u8)
    ensures
        b as int == bit_of(v as int, i as nat),
        b <= 1,
{
    let mut rest: u128 = v;
    let mut k: u32 = 0;
    while k < i
        invariant
            k <= i,
            rest as int == (v as int) / pow2(k as nat),
        decreases i - k,
    {
        proof {
            lemma_pow2_positive(k as nat);
            vstd::arithmetic::div_mod::lemma_div_denominator(v as int, pow2(k as nat), 2);
            assert(pow2(k as nat) * 2 == pow2((k + 1) as nat));
        }
        rest = rest / 2;
        k = k + 1;
    }
    (rest % 2) as u8
}

/// What a helper holds of one of the three parts that a shared random bit is
/// the exclusive or of. Part `j` is the bit that the helper at position `j`
/// draws from its left-hand key: that helper holds it on the left, its
/// left-hand neighbour holds it on the right, and the third helper holds
/// nothing of it.
pub open spec fn part_share(position: int, j: int, left_bit: int, right_bit: int) -> (int, int) {
    if position == j {
        (left_bit, 0)
    } else if (position + 1) % 3 == j {
        (0, right_bit)
    } else {
        (0, 0)
    }
}

/// This helper's shares of the three parts of the random bit at position
/// `i` of a record. No message is sent.
pub fn bit_parts<F: Field>(ctx: &Context, record_id: RecordId, i: u32) -> (parts: [Replicated<F>; 3])
    ensures
        forall|j: int|
            0 <= j < 3 ==> (#[trigger] parts[j]).ints() == part_share(
                role_index(ctx.spec_role()),
                j,
                bit_of(record_values(ctx.keys(), record_id@).0 as int, i as nat),
                bit_of(record_values(ctx.keys(), record_id@).1 as int, i as nat),
            ),
{
    let (l, r) = ctx.prss().generate_values(record_id);
    let left = F::truncate_from(bit_at(l, i) as u128);
    let right = F::truncate_from(bit_at(r, i) as u128);
    let zero = F::zero();
    proof {
        F::lemma_modulus();
        lemma_small(bit_of(l as int, i as nat), F::prime());
        lemma_small(bit_of(r as int, i as nat), F::prime());
    }
    let own = Replicated::new(left, zero);
    let next = Replicated::new(zero, right);
    let none = Replicated::new(zero, zero);
    match ctx.role() {
        Role::H1 => [own, next, none],
        Role::H2 => [none, own, next],
        Role::H3 => [next, none, own],
    }
}

/// The parts fit together: when neighbours draw the same bit from the key
/// they share, what the three helpers hold of part `j` is a consistent
/// sharing of the bit that the helper at position `j` draws from its
/// left-hand key.
pub proof fn lemma_parts_consistent(lefts: Seq<int>, rights: Seq<int>, j: int, p: int)
    requires
        lefts.len() == 3,
        rights.len() == 3,
        rights[0] == lefts[1],
        rights[1] == lefts[2],
        rights[2] == lefts[0],
        0 <= j < 3,
        0 <= lefts[j] < p,
    ensures
        ({
            let shares = Seq::new(3, |h: int| part_share(h, j, lefts[h], rights[h]));
            consistent(shares) && opened(shares, p) == lefts[j]
        }),
{
    lemma_small(lefts[j], p);
}

/// Two to the power `n`.
pub open spec fn pow2(n: nat) -> int
    decreases n,
{
    if n == 0 {
        1
    } else {
        2 * pow2((n - 1) as nat)
    }
}

/// The number that the first `n` of `bits` spell, least significant first.
pub open spec fn spelled(bits: Seq<int>, n: int) -> int
    decreases n,
{
    if n <= 0 {
        0
    } else {
        spelled(bits, n - 1) + pow2((n - 1) as nat) * bits[n - 1]
    }
}

/// The left coordinates of a vector of shares.
pub open spec fn lefts<F: Field>(shares: Seq<Replicated<F>>) -> Seq<int> {
    Seq::new(shares.len(), |i: int| shares[i].ints().0)
}

/// The right coordinates of a vector of shares.
pub open spec fn rights<F: Field>(shares: Seq<Replicated<F>>) -> Seq<int> {
    Seq::new(shares.len(), |i: int| shares[i].ints().1)
}

/// The number of bits that a value below the prime can take: the least `l`
/// with `2^l >= prime`.
pub fn bit_length<F: Field>() -> (l: u32)
    ensures
        1 <= l <= 32,
        pow2(l as nat) >= F::prime(),
        pow2((l - 1) as nat) < F::prime(),
{
    let p: u128 = F::modulus();
    proof {
        F::lemma_modulus();
        lemma_pow2_values();
    }
    let mut l: u32 = 1;
    let mut power: u128 = 2;
    while power < p
        invariant
            1 <= l <= 32,
            power == pow2(l as nat),
            pow2((l - 1) as nat) < p,
            p <= 0xffff_ffff,
            l < 32 ==> power <= 0x8000_0000,
            l == 32 ==> power == 0x1_0000_0000,
        decreases 32 - l,
    {
        proof {
            lemma_pow2_values();
            lemma_pow2_monotone(l as nat, 31);
        }
        power = power * 2;
        l = l + 1;
        proof {
            if l < 32 {
                lemma_pow2_monotone(l as nat, 31);
            }
        }
    }
    l
}

pub proof fn lemma_pow2_values()
    ensures
        pow2(0) == 1,
        pow2(1) == 2,
        pow2(5) == 32,
        pow2(31) == 0x8000_0000,
        pow2(32) == 0x1_0000_0000,
{
    reveal_with_fuel(pow2, 33);
}

pub proof fn lemma_pow2_monotone(a: nat, b: nat)
    requires
        a <= b,
    ensures
        0 < pow2(a) <= pow2(b),
    decreases b,
{
    if a < b {
        lemma_pow2_monotone(a, (b - 1) as nat);
    } else {
        lemma_pow2_positive(a);
    }
}

pub proof fn lemma_pow2_positive(n: nat)
    ensures
        pow2(n) > 0,
    decreases n,
{
    if n > 0 {
        lemma_pow2_positive((n - 1) as nat);
    }
}

/// This helper's share of the value that its shares of bits spell. No
/// message is sent: the value is a public combination of the bits.
pub fn compose_value<F: Field>(bits: &[Replicated<F>]) -> (value: Replicated<F>)
    ensures
        congruent(value.ints().0, spelled(lefts(bits@), bits@.len() as int), F::prime()),
        congruent(value.ints().1, spelled(rights(bits@), bits@.len() as int), F::prime()),
{
    let ghost p = F::prime();
    let ghost ls = lefts(bits@);
    let ghost rs = rights(bits@);
    let mut value = Replicated::<F>::zero();
    let mut weight = F::one();
    let mut i: usize = 0;
    proof {
        F::lemma_modulus();
        lemma_small(1, p);
    }
    while i < bits.len()
        invariant
            i <= bits@.len(),
            p == F::prime(),
            p > 0,
            ls == lefts(bits@),
            rs == rights(bits@),
            congruent(weight.as_int(), pow2(i as nat), p),
            congruent(value.ints().0, spelled(ls, i as int), p),
            congruent(value.ints().1, spelled(rs, i as int), p),
        decreases bits@.len() - i,
    {
        let term = bits[i].mul_scalar(weight);
        let next = value.add(term);
        let two = F::one().add(F::one());
        let doubled = weight.mul(two);
        proof {
            let b = bits@[i as int].ints();
            assert(ls[i as int] == b.0);
            assert(rs[i as int] == b.1);
            lemma_product(b.0, weight.as_int(), b.0, pow2(i as nat), p);
            lemma_product(b.1, weight.as_int(), b.1, pow2(i as nat), p);
            lemma_reduced(b.0 * weight.as_int(), p);
            lemma_reduced(b.1 * weight.as_int(), p);
            assert(b.0 * pow2(i as nat) == pow2(i as nat) * b.0) by (nonlinear_arith);
            assert(b.1 * pow2(i as nat) == pow2(i as nat) * b.1) by (nonlinear_arith);
            lemma_sum(
                value.ints().0,
                term.ints().0,
                spelled(ls, i as int),
                pow2(i as nat) * b.0,
                p,
            );
            lemma_sum(
                value.ints().1,
                term.ints().1,
                spelled(rs, i as int),
                pow2(i as nat) * b.1,
                p,
            );
            lemma_reduced(2int, p);
            lemma_product(weight.as_int(), two.as_int(), pow2(i as nat), 2, p);
            assert(pow2(i as nat) * 2 == pow2((i + 1) as nat));
            F::lemma_canonical(next.spec_left());
            F::lemma_canonical(next.spec_right());
            lemma_small(next.ints().0, p);
            lemma_small(next.ints().1, p);
            F::lemma_canonical(doubled);
            lemma_small(doubled.as_int(), p);
        }
        value = next;
        weight = doubled;
        i = i + 1;
    }
    value
}

/// What becomes of a drawn value: it is kept exactly if the opened test says
/// that it lies below the prime.
pub fn solved<F: Field>(
    below_prime: F,
    bits: Vec<Replicated<F>>,
    value: Replicated<F>,
) -> (r: Option<RandomBitsShare<F>>)
    ensures
        r is Some <==> below_prime.as_int() == 1,
        r matches Some(share) ==> share.b_b == bits && share.b_p == value,
{
    if below_prime.as_u128() == 1 {
        Some(RandomBitsShare { b_b: bits, b_p: value })
    } else {
        None
    }
}

} // verus!
