//! Drawing a shared random value with its bits, on three helpers in step.
//!
//! The helpers draw shared random bits, hold the number they spell against
//! the prime without opening it, and open only whether it is below. A
//! number that is not below the prime is thrown away.

use vstd::prelude::*;
use vstd::string::StringSliceAdditionalSpecFns;
use crate::ff::modular::{congruent, lemma_reduced, lemma_small, lemma_sum};
use crate::ff::Field;
use crate::protocol::boolean::solved_bits::{
    bit_at, bit_length, bit_of, bit_parts, compose_value, lefts, lemma_parts_consistent,
    lemma_pow2_monotone, lemma_pow2_positive, part_share, pow2, rights, solved, spelled,
    BitOpStep, RandomBitsShare, SolvedBitsStep,
};
use crate::protocol::prss::{record_values, PrssEndpoint};
use crate::protocol::step::{label_bytes, RecordId, Substep};
use crate::secret_sharing::replicated::{consistent, ints_of, opened, Replicated};
use crate::test_fixture::world::{bit_xor, is_bit, secret_of, valid, TestWorld};

verus! {

/// The two multiplications that make a random bit out of its three parts.
#[derive(Debug, Clone, Copy, PartialEq, Eq, Structural)]
pub enum XorStep {
    First,
    Second,
}

impl Substep for XorStep {
    open spec fn label(&self) -> Seq<u8> {
        match self {
            XorStep::First => "xor-1".spec_bytes(),
            XorStep::Second => "xor-2".spec_bytes(),
        }
    }

    fn to_bytes(&self) -> (out: Vec<u8>) {
        match self {
            XorStep::First => label_bytes("xor-1"),
            XorStep::Second => label_bytes("xor-2"),
        }
    }
}

/// The bit at position `i` that three helpers with the given keys draw for
/// a record: the exclusive or of the bits that they draw from their
/// left-hand keys.
pub open spec fn drawn_bit(keys: Seq<PrssEndpoint>, record: int, i: nat) -> int {
    bit_xor(
        bit_xor(
            bit_of(record_values(keys[0], record).0 as int, i),
            bit_of(record_values(keys[1], record).0 as int, i),
        ),
        bit_of(record_values(keys[2], record).0 as int, i),
    )
}

/// The first `n` bits that three helpers with the given keys draw for a
/// record.
pub open spec fn drawn_bits(keys: Seq<PrssEndpoint>, record: int, n: nat) -> Seq<int> {
    Seq::new(n, |i: int| drawn_bit(keys, record, i as nat))
}

/// Whether `l` is the number of bits that a value below `p` can take: the
/// least `l` with `2^l >= p`.
pub open spec fn is_bit_length(l: nat, p: int) -> bool {
    l >= 1 && pow2(l) >= p && pow2((l - 1) as nat) < p
}

/// The number that the bits from position `k` on spell, the bit at `k`
/// counting one.
pub open spec fn upper(bits: Seq<int>, k: int) -> int
    decreases bits.len() - k,
{
    if k >= bits.len() || k < 0 {
        0
    } else {
        bits[k] + 2 * upper(bits, k + 1)
    }
}

/// The low `n` bits of `v`, least significant first.
pub open spec fn bits_of(v: int, n: nat) -> Seq<int> {
    Seq::new(n, |i: int| bit_of(v, i as nat))
}

/// The bits of a number spell the number: from position `k` on they spell
/// what is left of it after `k` halvings.
proof fn lemma_upper_of_bits(v: int, n: nat, k: int)
    requires
        0 <= v < pow2(n),
        0 <= k <= n,
    ensures
        upper(bits_of(v, n), k) == v / pow2(k as nat),
    decreases n - k,
{
    lemma_pow2_positive(k as nat);
    if k == n {
        vstd::arithmetic::div_mod::lemma_basic_div(v, pow2(n));
    } else {
        lemma_upper_of_bits(v, n, k + 1);
        vstd::arithmetic::div_mod::lemma_div_denominator(v, pow2(k as nat), 2);
        assert(pow2(k as nat) * 2 == pow2((k + 1) as nat));
        vstd::arithmetic::div_mod::lemma_fundamental_div_mod(v / pow2(k as nat), 2);
    }
}

/// Read from the lowest position, bits spell the same number whichever way
/// one adds them up.
proof fn lemma_upper_is_spelled(bits: Seq<int>, k: int)
    requires
        0 <= k <= bits.len(),
    ensures
        spelled(bits, bits.len() as int) == spelled(bits, k) + pow2(k as nat) * upper(bits, k),
    decreases bits.len() - k,
{
    if k < bits.len() {
        lemma_upper_is_spelled(bits, k + 1);
        let w = pow2(k as nat);
        let u = upper(bits, k + 1);
        let b = bits[k];
        assert(pow2((k + 1) as nat) == 2 * w);
        assert((2 * w) * u + w * b == w * (b + 2 * u)) by (nonlinear_arith);
    } else {
        assert(pow2(k as nat) * 0 == 0);
    }
}

/// A zero bit on top changes nothing.
proof fn lemma_upper_padded(bits: Seq<int>, k: int)
    requires
        0 <= k <= bits.len(),
    ensures
        upper(bits.push(0), k) == upper(bits, k),
    decreases bits.len() - k,
{
    let padded = bits.push(0);
    if k < bits.len() {
        lemma_upper_padded(bits, k + 1);
        assert(padded[k] == bits[k]);
    } else {
        assert(padded[k] == 0);
        assert(upper(padded, k + 1) == 0);
    }
}

/// One if `a == b`, else zero.
pub open spec fn same(a: int, b: int) -> int {
    if a == b {
        1
    } else {
        0
    }
}

/// One if `a < b`, else zero.
pub open spec fn below(a: int, b: int) -> int {
    if a < b {
        1
    } else {
        0
    }
}

/// Draws the shared random bit at position `i` of a record: the three parts
/// are put together by two exclusive ors.
fn random_bit<F: Field>(world: &TestWorld, record_id: RecordId, i: u8) -> (bit: [Replicated<F>; 3])
    requires
        world.wf(),
    ensures
        valid(bit),
        secret_of(bit) == drawn_bit(world.keys(), record_id@, i as nat),
{
    let p0: [Replicated<F>; 3] = bit_parts(world.helper(0), record_id, i as u32);
    let p1: [Replicated<F>; 3] = bit_parts(world.helper(1), record_id, i as u32);
    let p2: [Replicated<F>; 3] = bit_parts(world.helper(2), record_id, i as u32);
    let first = [p0[0], p1[0], p2[0]];
    let second = [p0[1], p1[1], p2[1]];
    let third = [p0[2], p1[2], p2[2]];
    proof {
        let p = F::prime();
        F::lemma_modulus();
        let ls = Seq::new(
            3,
            |h: int| bit_of(record_values(world.context(h).keys(), record_id@).0 as int, i as nat),
        );
        let rs = Seq::new(
            3,
            |h: int| bit_of(record_values(world.context(h).keys(), record_id@).1 as int, i as nat),
        );
        assert(world.context(0).wf() && world.context(1).wf() && world.context(2).wf());
        assert(world.context(0).spec_role() == crate::helpers::role::role_at(0));
        assert(world.context(1).spec_role() == crate::helpers::role::role_at(1));
        assert(world.context(2).spec_role() == crate::helpers::role::role_at(2));
        lemma_parts_consistent(ls, rs, 0, p);
        lemma_parts_consistent(ls, rs, 1, p);
        lemma_parts_consistent(ls, rs, 2, p);
        assert(ints_of(first) =~= Seq::new(3, |h: int| part_share(h, 0, ls[h], rs[h])));
        assert(ints_of(second) =~= Seq::new(3, |h: int| part_share(h, 1, ls[h], rs[h])));
        assert(ints_of(third) =~= Seq::new(3, |h: int| part_share(h, 2, ls[h], rs[h])));
    }
    let level = world.narrow(&BitOpStep { index: i });
    let both = level.narrow(&XorStep::First).xor(record_id, &first, &second);
    level.narrow(&XorStep::Second).xor(record_id, &both, &third)
}

/// Holds the number that shared bits spell against the prime: the result is
/// a sharing of one if the number is below the prime, and of zero if not.
/// Nothing is opened.
fn less_than_prime<F: Field>(
    world: &TestWorld,
    record_id: RecordId,
    bits: &Vec<[Replicated<F>; 3]>,
    ghost_bits: Ghost<Seq<int>>,
) -> (lt: [Replicated<F>; 3])
    requires
        world.wf(),
        bits@.len() == ghost_bits@.len(),
        bits@.len() <= 32,
        pow2(bits@.len()) >= F::prime(),
        forall|i: int|
            0 <= i < bits@.len() ==> valid(#[trigger] bits@[i]) && secret_of(bits@[i])
                == ghost_bits@[i] && is_bit(ghost_bits@[i]),
    ensures
        valid(lt),
        secret_of(lt) == below(spelled(ghost_bits@, ghost_bits@.len() as int), F::prime()),
{
    let n: usize = bits.len();
    let prime: u128 = F::modulus();
    let ghost p = F::prime();
    let ghost vs = ghost_bits@.push(0);
    let ghost ps = bits_of(p, (n + 1) as nat);
    let one = world.known(F::one());
    let zero = world.known(F::zero());
    let mut equal = world.known(F::one());
    let mut less = world.known(F::zero());
    let mut i: usize = n + 1;
    proof {
        F::lemma_modulus();
        assert(pow2((n + 1) as nat) == 2 * pow2(n as nat));
        lemma_small(1, p);
        lemma_small(0, p);
    }
    while i > 0
        invariant
            i <= n + 1,
            n == bits@.len(),
            n <= 32,
            world.wf(),
            prime as int == p,
            p == F::prime(),
            p >= 2,
            vs == ghost_bits@.push(0),
            ps == bits_of(p, (n + 1) as nat),
            bits@.len() == ghost_bits@.len(),
            forall|k: int|
                0 <= k < bits@.len() ==> valid(#[trigger] bits@[k]) && secret_of(bits@[k])
                    == ghost_bits@[k] && is_bit(ghost_bits@[k]),
            valid(one) && secret_of(one) == 1,
            valid(zero) && secret_of(zero) == 0,
            valid(equal),
            valid(less),
            secret_of(equal) == same(upper(vs, i as int), upper(ps, i as int)),
            secret_of(less) == below(upper(vs, i as int), upper(ps, i as int)),
        decreases i,
    {
        i = i - 1;
        let prime_bit: u8 = bit_at(prime, i as u32);
        let bit = if i < n {
            bits[i]
        } else {
            zero
        };
        assert(secret_of(bit) == vs[i as int] && is_bit(vs[i as int]) && valid(bit));
        assert(ps[i as int] == prime_bit);
        // one exactly if the bit is that of the prime
        let agrees = if prime_bit == 1 {
            bit
        } else {
            world.sub(&one, &bit)
        };
        proof {
            lemma_small(1 - vs[i as int], p);
            assert(secret_of(agrees) == same(vs[i as int], ps[i as int]));
        }
        let level = world.narrow(&SolvedBitsStep::LessThanPrime).narrow(
            &BitOpStep { index: i as u8 },
        );
        let still_equal = level.secure_mul(record_id, &equal, &agrees);
        proof {
            let e = secret_of(equal);
            let a = secret_of(agrees);
            assert(e * a == if e == 1 && a == 1 {
                1int
            } else {
                0int
            }) by (nonlinear_arith)
                requires
                    is_bit(e),
                    is_bit(a),
            ;
            lemma_small(e * a, p);
        }
        if prime_bit == 1 {
            // less from here on if equal above and the bit is zero
            let gained = world.sub(&equal, &still_equal);
            proof {
                lemma_small(secret_of(equal) - secret_of(still_equal), p);
            }
            let next = world.add(&less, &gained);
            proof {
                lemma_small(secret_of(less) + secret_of(gained), p);
            }
            less = next;
        }
        equal = still_equal;
    }
    proof {
        lemma_upper_padded(ghost_bits@, 0);
        lemma_upper_is_spelled(ghost_bits@, 0);
        assert(pow2(0) == 1);
        assert(1 * upper(ghost_bits@, 0) == upper(ghost_bits@, 0));
        lemma_upper_of_bits(p, (n + 1) as nat, 0);
    }
    less
}

/// Whether `r` is what the draw of a record gives on the helpers of
/// `world`: the bits that their keys give for the step `random-bits` are
/// kept exactly if the number they spell is below the prime, and then the
/// shares are consistent sharings of these bits and of that number.
pub open spec fn solves<F: Field>(
    world: &TestWorld,
    record: int,
    r: Option<[RandomBitsShare<F>; 3]>,
) -> bool {
    forall|l: nat| #[trigger]
        is_bit_length(l, F::prime()) ==> {
            let bits = drawn_bits(world.keys_below(SolvedBitsStep::RandomBits.label()), record, l);
            &&& r is Some <==> spelled(bits, l as int) < F::prime()
            &&& r matches Some(shares) ==> {
                &&& forall|h: int| 0 <= h < 3 ==> (#[trigger] shares[h]).b_b@.len() == l
                &&& forall|i: int|
                    0 <= i < l ==> valid(#[trigger] bit_shares(shares, i)) && secret_of(
                        bit_shares(shares, i),
                    ) == bits[i]
                &&& valid([shares[0].b_p, shares[1].b_p, shares[2].b_p])
                &&& secret_of([shares[0].b_p, shares[1].b_p, shares[2].b_p]) == spelled(
                    bits,
                    l as int,
                )
            }
        }
}

/// The three shares of a draw, in ring order.
pub open spec fn in_ring<F: Field>(
    each: Option<(RandomBitsShare<F>, RandomBitsShare<F>, RandomBitsShare<F>)>,
) -> Option<[RandomBitsShare<F>; 3]> {
    match each {
        Some(t) => Some([t.0, t.1, t.2]),
        None => None,
    }
}

/// Draws a shared random value with its bits, for one record. The helpers
/// draw as many bits as the prime has, and keep them exactly if the number
/// they spell is below the prime; only that much is opened.
///
/// The bits are drawn under the step `random-bits`, the test runs under the
/// step `less-than-prime`. What comes out is, for every helper, its shares
/// of the bits and its share of the value.
pub fn solved_bits<F: Field>(world: &TestWorld, record_id: RecordId) -> (r: Option<
    [RandomBitsShare<F>; 3],
>)
    requires
        world.wf(),
    ensures
        solves(world, record_id@, r),
{
    match solved_bits_each(world, record_id) {
        Some((s0, s1, s2)) => Some([s0, s1, s2]),
        None => None,
    }
}

/// The draw of a record, with the share of every helper by itself.
pub fn solved_bits_each<F: Field>(world: &TestWorld, record_id: RecordId) -> (r: Option<
    (RandomBitsShare<F>, RandomBitsShare<F>, RandomBitsShare<F>),
>)
    requires
        world.wf(),
    ensures
        solves(world, record_id@, in_ring(r)),
{
    let l: u32 = bit_length::<F>();
    let draw = world.narrow(&SolvedBitsStep::RandomBits);
    let ghost wanted = drawn_bits(
        world.keys_below(SolvedBitsStep::RandomBits.label()),
        record_id@,
        l as nat,
    );
    proof {
        assert(draw.keys() =~= world.keys_below(SolvedBitsStep::RandomBits.label()));
        assert forall|k: nat| #[trigger] is_bit_length(k, F::prime()) implies k == l by {
            lemma_bit_length_unique(F::prime(), l as nat, k);
        }
    }
    let mut bits: Vec<[Replicated<F>; 3]> = Vec::new();
    let mut i: u32 = 0;
    while i < l
        invariant
            i <= l,
            l <= 32,
            draw.wf(),
            wanted.len() == l,
            forall|k: int| 0 <= k < l ==> wanted[k] == drawn_bit(draw.keys(), record_id@, k as nat),
            bits@.len() == i,
            forall|k: int|
                0 <= k < i ==> valid(#[trigger] bits@[k]) && secret_of(bits@[k]) == wanted[k],
        decreases l - i,
    {
        let bit = random_bit::<F>(&draw, record_id, i as u8);
        bits.push(bit);
        i = i + 1;
    }
    let lt = less_than_prime(world, record_id, &bits, Ghost(wanted));
    let below_prime = world.open(&lt);
    let mut b0: Vec<Replicated<F>> = Vec::new();
    let mut b1: Vec<Replicated<F>> = Vec::new();
    let mut b2: Vec<Replicated<F>> = Vec::new();
    let mut k: usize = 0;
    while k < bits.len()
        invariant
            k <= bits@.len(),
            b0@.len() == k,
            b1@.len() == k,
            b2@.len() == k,
            forall|j: int|
                0 <= j < k ==> b0@[j] == (#[trigger] bits@[j])[0] && b1@[j] == bits@[j][1] && b2@[j]
                    == bits@[j][2],
        decreases bits@.len() - k,
    {
        b0.push(bits[k][0]);
        b1.push(bits[k][1]);
        b2.push(bits[k][2]);
        k = k + 1;
    }
    let v0 = compose_value(b0.as_slice());
    let v1 = compose_value(b1.as_slice());
    let v2 = compose_value(b2.as_slice());
    proof {
        let p = F::prime();
        let n = l as int;
        F::lemma_modulus();
        assert forall|j: int| 0 <= j < n implies rights(b0@)[j] == lefts(b1@)[j] && rights(b1@)[j]
            == lefts(b2@)[j] && rights(b2@)[j] == lefts(b0@)[j] && congruent(
            lefts(b0@)[j] + lefts(b1@)[j] + lefts(b2@)[j],
            wanted[j],
            p,
        ) by {
            let s = bits@[j];
            assert(valid(s) && secret_of(s) == wanted[j]);
            assert(ints_of(s)[0] == b0@[j].ints());
            assert(ints_of(s)[1] == b1@[j].ints());
            assert(ints_of(s)[2] == b2@[j].ints());
            lemma_reduced(lefts(b0@)[j] + lefts(b1@)[j] + lefts(b2@)[j], p);
        }
        assert(rights(b0@) =~= lefts(b1@));
        assert(rights(b1@) =~= lefts(b2@));
        assert(rights(b2@) =~= lefts(b0@));
        F::lemma_canonical(v0.spec_left());
        F::lemma_canonical(v0.spec_right());
        F::lemma_canonical(v1.spec_left());
        F::lemma_canonical(v1.spec_right());
        F::lemma_canonical(v2.spec_left());
        F::lemma_canonical(v2.spec_right());
        lemma_small(v0.ints().0, p);
        lemma_small(v0.ints().1, p);
        lemma_small(v1.ints().0, p);
        lemma_small(v1.ints().1, p);
        lemma_small(v2.ints().0, p);
        lemma_small(v2.ints().1, p);
        lemma_spelled_sum(lefts(b0@), lefts(b1@), lefts(b2@), wanted, n, p);
        lemma_sum(
            v0.ints().0,
            v1.ints().0,
            spelled(lefts(b0@), n),
            spelled(lefts(b1@), n),
            p,
        );
        lemma_sum(
            v0.ints().0 + v1.ints().0,
            v2.ints().0,
            spelled(lefts(b0@), n) + spelled(lefts(b1@), n),
            spelled(lefts(b2@), n),
            p,
        );
        lemma_reduced(v0.ints().0 + v1.ints().0 + v2.ints().0, p);
        if spelled(wanted, n) < p {
            lemma_spelled_nonnegative(wanted, n);
            lemma_small(spelled(wanted, n), p);
        }
    }
    match (solved(below_prime[0], b0, v0), solved(below_prime[1], b1, v1), solved(below_prime[2], b2, v2)) {
        (Some(s0), Some(s1), Some(s2)) => {
            let ghost shares = [s0, s1, s2];
            proof {
                assert forall|j: int| 0 <= j < l implies valid(#[trigger] bit_shares(shares, j))
                    && secret_of(bit_shares(shares, j)) == wanted[j] by {
                    let s = bits@[j];
                    assert(valid(s) && secret_of(s) == wanted[j]);
                    assert(ints_of(bit_shares(shares, j)) =~= ints_of(s));
                }
            }
            Some((s0, s1, s2))
        },
        _ => None,
    }
}

/// What the three helpers hold of the bit at position `i`.
pub open spec fn bit_shares<F: Field>(shares: [RandomBitsShare<F>; 3], i: int) -> [Replicated<F>; 3] {
    [shares[0].b_b@[i], shares[1].b_b@[i], shares[2].b_b@[i]]
}

proof fn lemma_bit_length_unique(p: int, l: nat, c: nat)
    requires
        is_bit_length(l, p),
        is_bit_length(c, p),
    ensures
        c == l,
{
    if c < l {
        lemma_pow2_monotone(c, (l - 1) as nat);
    } else if l < c {
        lemma_pow2_monotone(l, (c - 1) as nat);
    }
}

proof fn lemma_spelled_nonnegative(bits: Seq<int>, n: int)
    requires
        n <= bits.len(),
        forall|i: int| 0 <= i < n ==> is_bit(#[trigger] bits[i]),
    ensures
        spelled(bits, n) >= 0,
    decreases n,
{
    if n > 0 {
        lemma_spelled_nonnegative(bits, n - 1);
        lemma_pow2_positive((n - 1) as nat);
        assert(pow2((n - 1) as nat) * bits[n - 1] >= 0) by (nonlinear_arith)
            requires
                pow2((n - 1) as nat) > 0,
                bits[n - 1] >= 0,
        ;
    }
}

/// What three vectors spell adds up to what their sum spells, modulo `p`.
proof fn lemma_spelled_sum(a: Seq<int>, b: Seq<int>, c: Seq<int>, v: Seq<int>, n: int, p: int)
    requires
        p > 0,
        0 <= n <= a.len(),
        n <= b.len(),
        n <= c.len(),
        n <= v.len(),
        forall|i: int| 0 <= i < n ==> congruent(#[trigger] a[i] + b[i] + c[i], v[i], p),
    ensures
        congruent(spelled(a, n) + spelled(b, n) + spelled(c, n), spelled(v, n), p),
    decreases n,
{
    if n > 0 {
        lemma_spelled_sum(a, b, c, v, n - 1, p);
        let w = pow2((n - 1) as nat);
        assert(congruent(a[n - 1] + b[n - 1] + c[n - 1], v[n - 1], p));
        lemma_reduced(w, p);
        crate::ff::modular::lemma_product(w, a[n - 1] + b[n - 1] + c[n - 1], w, v[n - 1], p);
        assert(w * (a[n - 1] + b[n - 1] + c[n - 1]) == w * a[n - 1] + w * b[n - 1] + w * c[n
            - 1]) by (nonlinear_arith);
        lemma_sum(
            spelled(a, n - 1) + spelled(b, n - 1) + spelled(c, n - 1),
            w * (a[n - 1] + b[n - 1] + c[n - 1]),
            spelled(v, n - 1),
            w * v[n - 1],
            p,
        );
    }
}

} // verus!
