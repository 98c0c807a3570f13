//! The three helpers in one process, with their messages passed by hand.
//!
//! The helpers of a test world run in step: every helper starts its round,
//! every message is handed to the helper it is for, every helper finishes.
//! What a protocol is meant to compute can then be said of its result.

use vstd::prelude::*;
use crate::entropy::random_u128;
use crate::ff::modular::{congruent, lemma_difference, lemma_reduced, lemma_small, lemma_sum};
use crate::ff::Field;
use crate::helpers::role::{role_at, role_index, Role};
use crate::protocol::basics::check_zero::{lemma_zero_is_found, CheckZero, CheckZeroStep};
use crate::protocol::basics::mul::{
    lemma_multiply_opens_to_product, masks, mul_message, multiply, MulRound,
};
use crate::protocol::basics::reveal_share::{lemma_reveal_opens, reveal_share, revealed};
use crate::protocol::basics::share_known_value::{lemma_known_value_opens, share_known_value};
use crate::protocol::basics::sum_of_product::{
    all_consistent, column, inner_product, ints_of_all, lemma_separate_products_agree,
    lemma_sum_of_products_opens_to_inner_product, separate_products, sum_of_products,
};
use crate::protocol::context::Context;
use crate::protocol::prss::PrssEndpoint;
use crate::protocol::sort::reshare::{
    lemma_reshare_keeps_secret, lemma_rounds_reshare, reshared, Reshare, ReshareRound,
};
use crate::protocol::step::{RecordId, Substep};
use crate::secret_sharing::replicated::{consistent, ints_of, opened, Replicated};
use crate::test_fixture::sharing::{reconstruct, share};

verus! {

/// Whether three shares fit together.
pub open spec fn valid<F: Field>(shares: [Replicated<F>; 3]) -> bool {
    consistent(ints_of(shares))
}

/// The secret that three shares stand for.
pub open spec fn secret_of<F: Field>(shares: [Replicated<F>; 3]) -> int {
    opened(ints_of(shares), F::prime())
}

/// Three helpers whose keys fit together, all at the same step.
pub struct TestWorld {
    contexts: [Context; 3],
}

impl TestWorld {
    /// The handle of the helper at position `i` of the ring.
    pub closed spec fn context(&self, i: int) -> Context {
        self.contexts[i]
    }

    /// The helpers are H1, H2 and H3, they stand at the same step, and each
    /// shares its right-hand key with its right-hand neighbour.
    pub open spec fn wf(&self) -> bool {
        &&& forall|i: int|
            0 <= i < 3 ==> (#[trigger] self.context(i)).wf() && self.context(i).spec_role()
                == role_at(i) && self.context(i).path() == self.context(0).path()
        &&& self.context(0).root_keys().right == self.context(1).root_keys().left
        &&& self.context(1).root_keys().right == self.context(2).root_keys().left
        &&& self.context(2).root_keys().right == self.context(0).root_keys().left
    }

    /// The keys of the three helpers for the current step.
    pub open spec fn keys(&self) -> Seq<PrssEndpoint> {
        seq![self.context(0).keys(), self.context(1).keys(), self.context(2).keys()]
    }

    /// The keys of the three helpers for the child step that `label` names.
    pub open spec fn keys_below(&self, label: Seq<u8>) -> Seq<PrssEndpoint> {
        seq![
            self.context(0).child_keys(label),
            self.context(1).child_keys(label),
            self.context(2).child_keys(label),
        ]
    }

    /// The correlated pairs of the three helpers for a record.
    pub open spec fn pairs(&self, record: int, p: int) -> Seq<(int, int)> {
        seq![
            masks(self.context(0).keys(), record, p),
            masks(self.context(1).keys(), record, p),
            masks(self.context(2).keys(), record, p),
        ]
    }

    /// In a world that is well formed, the pairs of a record fit together.
    pub proof fn lemma_pairs_consistent(&self, record: int, p: int)
        requires
            self.wf(),
        ensures
            consistent(self.pairs(record, p)),
    {
        assert(self.context(0).wf() && self.context(1).wf() && self.context(2).wf());
    }

    /// A world with the given keys: `k12` is shared by H1 and H2, `k23` by
    /// H2 and H3, `k31` by H3 and H1.
    pub fn with_seeds(k12: u128, k23: u128, k31: u128) -> (world: TestWorld)
        ensures
            world.wf(),
            world.context(0).path() == Seq::<u8>::empty(),
            forall|i: int| 0 <= i < 3 ==> (#[trigger] world.context(i)).spec_total_records() is None,
            world.context(0).root_keys() == (PrssEndpoint { left: k31, right: k12 }),
            world.context(1).root_keys() == (PrssEndpoint { left: k12, right: k23 }),
            world.context(2).root_keys() == (PrssEndpoint { left: k23, right: k31 }),
    {
        TestWorld {
            contexts: [
                Context::new(Role::H1, PrssEndpoint::new(k31, k12)),
                Context::new(Role::H2, PrssEndpoint::new(k12, k23)),
                Context::new(Role::H3, PrssEndpoint::new(k23, k31)),
            ],
        }
    }

    /// A world with fresh keys.
    pub fn new() -> (world: TestWorld)
        ensures
            world.wf(),
            world.context(0).path() == Seq::<u8>::empty(),
            forall|i: int| 0 <= i < 3 ==> (#[trigger] world.context(i)).spec_total_records() is None,
    {
        let k12 = random_u128();
        let k23 = random_u128();
        let k31 = random_u128();
        TestWorld::with_seeds(k12, k23, k31)
    }

    /// The handle of the helper at position `h` of the ring.
    pub fn helper(&self, h: usize) -> (ctx: &Context)
        requires
            h < 3,
        ensures
            *ctx == self.context(h as int),
    {
        &self.contexts[h]
    }

    /// The handles of the three helpers, in ring order.
    pub fn contexts(&self) -> (contexts: [Context; 3])
        ensures
            forall|i: int|
                0 <= i < 3 ==> (#[trigger] contexts[i]).wf() == self.context(i).wf() && contexts[i].spec_role()
                    == self.context(i).spec_role() && contexts[i].path() == self.context(i).path()
                    && contexts[i].root_keys() == self.context(i).root_keys() && contexts[i].keys()
                    == self.context(i).keys() && contexts[i].spec_total_records() == self.context(
                    i,
                ).spec_total_records(),
    {
        [self.contexts[0].duplicate(), self.contexts[1].duplicate(), self.contexts[2].duplicate()]
    }

    /// The same three helpers, one step down.
    pub fn narrow<S: Substep>(&self, substep: &S) -> (world: TestWorld)
        requires
            self.wf(),
        ensures
            world.wf(),
            forall|i: int|
                0 <= i < 3 ==> (#[trigger] world.context(i)).path()
                    == crate::protocol::step::narrowed(self.context(i).path(), substep.label())
                    && world.context(i).root_keys() == self.context(i).root_keys()
                    && world.context(i).keys() == self.context(i).child_keys(substep.label())
                    && world.context(i).spec_total_records() == self.context(
                    i,
                ).spec_total_records(),
    {
        assert(self.context(0).wf() && self.context(1).wf() && self.context(2).wf());
        TestWorld {
            contexts: [
                self.contexts[0].narrow(substep),
                self.contexts[1].narrow(substep),
                self.contexts[2].narrow(substep),
            ],
        }
    }

    /// Multiplies two shared values: every helper computes its
    /// contribution, sends it to the right and completes its share with
    /// what comes from the left. The result is a sharing of the product.
    pub fn secure_mul<F: Field>(
        &self,
        record_id: RecordId,
        a: &[Replicated<F>; 3],
        b: &[Replicated<F>; 3],
    ) -> (z: [Replicated<F>; 3])
        requires
            self.wf(),
            consistent(ints_of(*a)),
            consistent(ints_of(*b)),
        ensures
            consistent(ints_of(z)),
            opened(ints_of(z), F::prime()) == (opened(ints_of(*a), F::prime()) * opened(
                ints_of(*b),
                F::prime(),
            )) % F::prime(),
    {
        let r0 = multiply(&a[0], &b[0], &self.contexts[0], record_id);
        let r1 = multiply(&a[1], &b[1], &self.contexts[1], record_id);
        let r2 = multiply(&a[2], &b[2], &self.contexts[2], record_id);
        // every contribution goes to the right-hand neighbour
        let z = [r0.finish(r2.message()), r1.finish(r0.message()), r2.finish(r1.message())];
        proof {
            F::lemma_modulus();
            self.lemma_pairs_consistent(record_id@, F::prime());
            assert(self.context(0).wf() && self.context(1).wf() && self.context(2).wf());
            lemma_multiply_opens_to_product(
                ints_of(*a),
                ints_of(*b),
                self.pairs(record_id@, F::prime()),
                F::prime(),
            );
        }
        z
    }

    /// The sum of the products of two vectors of shared values, at the cost
    /// of one multiplication: every helper adds up all its cross terms
    /// before it masks and sends them. The result opens to what the products
    /// of separate multiplications add up to.
    pub fn sum_of_products<F: Field>(
        &self,
        record_id: RecordId,
        a: &[Vec<Replicated<F>>; 3],
        b: &[Vec<Replicated<F>>; 3],
    ) -> (z: [Replicated<F>; 3])
        requires
            self.wf(),
            all_consistent(coordinates_of(*a), a[0]@.len() as int),
            all_consistent(coordinates_of(*b), a[0]@.len() as int),
        ensures
            valid(z),
            secret_of(z) == inner_product(
                coordinates_of(*a),
                coordinates_of(*b),
                a[0]@.len() as int,
            ) % F::prime(),
            secret_of(z) == separate_products(
                coordinates_of(*a),
                coordinates_of(*b),
                a[0]@.len() as int,
                F::prime(),
            ) % F::prime(),
    {
        let ghost n = a[0]@.len() as int;
        let ghost xs = coordinates_of(*a);
        let ghost ys = coordinates_of(*b);
        proof {
            assert(xs[0].len() == n && xs[1].len() == n && xs[2].len() == n);
            assert(ys[0].len() == n && ys[1].len() == n && ys[2].len() == n);
        }
        let r0 = sum_of_products(a[0].as_slice(), b[0].as_slice(), &self.contexts[0], record_id);
        let r1 = sum_of_products(a[1].as_slice(), b[1].as_slice(), &self.contexts[1], record_id);
        let r2 = sum_of_products(a[2].as_slice(), b[2].as_slice(), &self.contexts[2], record_id);
        let z = [r0.finish(r2.message()), r1.finish(r0.message()), r2.finish(r1.message())];
        proof {
            F::lemma_modulus();
            self.lemma_pairs_consistent(record_id@, F::prime());
            lemma_sum_of_products_opens_to_inner_product(
                xs,
                ys,
                self.pairs(record_id@, F::prime()),
                n,
                F::prime(),
            );
            lemma_separate_products_agree(xs, ys, n, F::prime());
        }
        z
    }

    /// The random factor that a zero test of a record multiplies by, as the
    /// three helpers share it.
    pub open spec fn zero_test_factor(&self, record: int, p: int) -> Seq<(int, int)> {
        let label = crate::protocol::step::narrowed(
            Seq::<u8>::empty(),
            CheckZeroStep::RandomFactor.label(),
        );
        seq![
            masks(self.context(0).keys().spec_narrow(label), record, p),
            masks(self.context(1).keys().spec_narrow(label), record, p),
            masks(self.context(2).keys().spec_narrow(label), record, p),
        ]
    }

    /// Tests a shared value for zero: the value is multiplied by a shared
    /// random factor and the product is opened. A zero is always found;
    /// anything else passes for zero only if the product happens to be
    /// zero.
    pub fn check_zero<F: Field>(&self, record_id: RecordId, x: &[Replicated<F>; 3]) -> (zero: bool)
        requires
            self.wf(),
            valid(*x),
        ensures
            zero == ((secret_of(*x) * opened(
                self.zero_test_factor(record_id@, F::prime()),
                F::prime(),
            )) % F::prime() == 0),
            secret_of(*x) == 0 ==> zero,
    {
        let r0 = CheckZero::multiply(&self.contexts[0], record_id, &x[0]);
        let r1 = CheckZero::multiply(&self.contexts[1], record_id, &x[1]);
        let r2 = CheckZero::multiply(&self.contexts[2], record_id, &x[2]);
        let product = [r0.finish(r2.message()), r1.finish(r0.message()), r2.finish(r1.message())];
        proof {
            let p = F::prime();
            F::lemma_modulus();
            assert(self.context(0).wf() && self.context(1).wf() && self.context(2).wf());
            let label = crate::protocol::step::narrowed(
                Seq::<u8>::empty(),
                CheckZeroStep::MultiplyWithFactor.label(),
            );
            let hidden = seq![
                masks(self.context(0).keys().spec_narrow(label), record_id@, p),
                masks(self.context(1).keys().spec_narrow(label), record_id@, p),
                masks(self.context(2).keys().spec_narrow(label), record_id@, p),
            ];
            lemma_multiply_opens_to_product(
                ints_of(*x),
                self.zero_test_factor(record_id@, p),
                hidden,
                p,
            );
            let f = opened(self.zero_test_factor(record_id@, p), p);
            if secret_of(*x) == 0 {
                lemma_small(0, p);
                lemma_zero_is_found(0, f, p);
            }
        }
        let values = self.open(&product);
        CheckZero::decide(values[0])
    }

    /// Opens a shared value to all three helpers: every helper sends its
    /// right coordinate to the left and adds what comes from the right to
    /// what it holds. Every helper ends with the secret.
    pub fn open<F: Field>(&self, shares: &[Replicated<F>; 3]) -> (values: [F; 3])
        requires
            self.wf(),
            consistent(ints_of(*shares)),
        ensures
            forall|i: int|
                0 <= i < 3 ==> (#[trigger] values[i]).as_int() == opened(
                    ints_of(*shares),
                    F::prime(),
                ),
    {
        let r0 = reveal_share(&self.contexts[0], &shares[0]);
        let r1 = reveal_share(&self.contexts[1], &shares[1]);
        let r2 = reveal_share(&self.contexts[2], &shares[2]);
        // every right coordinate goes to the left-hand neighbour
        let m0 = r0.message();
        let m1 = r1.message();
        let m2 = r2.message();
        let values = [r0.finish(m1), r1.finish(m2), r2.finish(m0)];
        proof {
            F::lemma_modulus();
            lemma_reveal_opens(ints_of(*shares), F::prime());
        }
        values
    }

    /// Reshares a shared value towards `to_helper`: its two neighbours swap
    /// their parts. The result is a sharing of the same secret, in which the
    /// share of the target is its correlated pair.
    pub fn reshare<F: Field>(
        &self,
        record_id: RecordId,
        shares: &[Replicated<F>; 3],
        to_helper: Role,
    ) -> (z: [Replicated<F>; 3])
        requires
            self.wf(),
            consistent(ints_of(*shares)),
        ensures
            consistent(ints_of(z)),
            opened(ints_of(z), F::prime()) == opened(ints_of(*shares), F::prime()),
            ints_of(z) == reshared(
                ints_of(*shares),
                self.pairs(record_id@, F::prime()),
                role_index(to_helper),
                F::prime(),
            ),
    {
        let r0 = Reshare::new(shares[0]).execute(&self.contexts[0], record_id, to_helper);
        let r1 = Reshare::new(shares[1]).execute(&self.contexts[1], record_id, to_helper);
        let r2 = Reshare::new(shares[2]).execute(&self.contexts[2], record_id, to_helper);
        let ghost rounds = seq![r0, r1, r2];
        let ghost x = ints_of(*shares);
        let ghost r = self.pairs(record_id@, F::prime());
        proof {
            F::lemma_modulus();
            self.lemma_pairs_consistent(record_id@, F::prime());
            assert(self.context(0).wf() && self.context(1).wf() && self.context(2).wf());
            assert forall|h: int| 0 <= h < 3 implies (#[trigger] rounds[h]).begun(
                role_at(h),
                to_helper,
                x[h],
                r[h],
            ) by {
                assert(self.context(h).spec_role() == role_at(h));
            }
            lemma_rounds_reshare(rounds, x, r, to_helper, 0);
            lemma_reshare_keeps_secret(x, r, to_helper, F::prime());
        }
        // the part of each neighbour of the target goes to the other one
        let p0 = part_of(&r0);
        let p1 = part_of(&r1);
        let p2 = part_of(&r2);
        let z = match to_helper {
            Role::H1 => [r0.finish(p0), r1.finish(p2), r2.finish(p1)],
            Role::H2 => [r0.finish(p2), r1.finish(p1), r2.finish(p0)],
            Role::H3 => [r0.finish(p1), r1.finish(p0), r2.finish(p2)],
        };
        assert(ints_of(z) =~= reshared(x, r, role_index(to_helper), F::prime()));
        z
    }

    /// The sharing of a constant that every helper knows.
    pub fn known<F: Field>(&self, value: F) -> (z: [Replicated<F>; 3])
        requires
            self.wf(),
        ensures
            valid(z),
            secret_of(z) == value.as_int(),
    {
        let z = [
            share_known_value(&self.contexts[0], value),
            share_known_value(&self.contexts[1], value),
            share_known_value(&self.contexts[2], value),
        ];
        proof {
            F::lemma_canonical(value);
            assert(self.context(0).wf() && self.context(1).wf() && self.context(2).wf());
            lemma_known_value_opens(value.as_int(), F::prime());
            assert(ints_of(z) =~= seq![
                crate::protocol::basics::share_known_value::known_value_share(
                    Role::H1,
                    value.as_int(),
                ),
                crate::protocol::basics::share_known_value::known_value_share(
                    Role::H2,
                    value.as_int(),
                ),
                crate::protocol::basics::share_known_value::known_value_share(
                    Role::H3,
                    value.as_int(),
                ),
            ]);
        }
        z
    }

    /// The sum of two shared values; every helper adds what it holds.
    pub fn add<F: Field>(&self, a: &[Replicated<F>; 3], b: &[Replicated<F>; 3]) -> (z: [Replicated<
        F,
    >; 3])
        requires
            valid(*a),
            valid(*b),
        ensures
            valid(z),
            secret_of(z) == (secret_of(*a) + secret_of(*b)) % F::prime(),
    {
        let z = [a[0].add(b[0]), a[1].add(b[1]), a[2].add(b[2])];
        proof {
            F::lemma_modulus();
            crate::secret_sharing::replicated::lemma_add_is_linear(
                ints_of(*a),
                ints_of(*b),
                F::prime(),
            );
            let p = F::prime();
            let x = ints_of(*a);
            let y = ints_of(*b);
            assert(ints_of(z) =~= Seq::new(
                3,
                |i: int| ((x[i].0 + y[i].0) % p, (x[i].1 + y[i].1) % p),
            ));
        }
        z
    }

    /// The difference of two shared values; every helper subtracts what it
    /// holds.
    pub fn sub<F: Field>(&self, a: &[Replicated<F>; 3], b: &[Replicated<F>; 3]) -> (z: [Replicated<
        F,
    >; 3])
        requires
            valid(*a),
            valid(*b),
        ensures
            valid(z),
            secret_of(z) == (secret_of(*a) - secret_of(*b)) % F::prime(),
    {
        let z = [a[0].sub(b[0]), a[1].sub(b[1]), a[2].sub(b[2])];
        proof {
            let p = F::prime();
            let x = ints_of(*a);
            let y = ints_of(*b);
            let d = ints_of(z);
            F::lemma_modulus();
            lemma_reduced(x[0].0 - y[0].0, p);
            lemma_reduced(x[1].0 - y[1].0, p);
            lemma_reduced(x[2].0 - y[2].0, p);
            lemma_sum(d[0].0, d[1].0, x[0].0 - y[0].0, x[1].0 - y[1].0, p);
            lemma_sum(
                d[0].0 + d[1].0,
                d[2].0,
                x[0].0 - y[0].0 + x[1].0 - y[1].0,
                x[2].0 - y[2].0,
                p,
            );
            lemma_reduced(x[0].0 + x[1].0 + x[2].0, p);
            lemma_reduced(y[0].0 + y[1].0 + y[2].0, p);
            lemma_difference(
                secret_of(*a),
                secret_of(*b),
                x[0].0 + x[1].0 + x[2].0,
                y[0].0 + y[1].0 + y[2].0,
                p,
            );
        }
        z
    }

    /// The exclusive or of two shared bits, `a + b - 2ab`, at the cost of
    /// one multiplication. On bits the result is a bit again.
    pub fn xor<F: Field>(
        &self,
        record_id: RecordId,
        a: &[Replicated<F>; 3],
        b: &[Replicated<F>; 3],
    ) -> (z: [Replicated<F>; 3])
        requires
            self.wf(),
            valid(*a),
            valid(*b),
        ensures
            valid(z),
            congruent(
                secret_of(z),
                secret_of(*a) + secret_of(*b) - 2 * (secret_of(*a) * secret_of(*b)),
                F::prime(),
            ),
            is_bit(secret_of(*a)) && is_bit(secret_of(*b)) ==> secret_of(z) == bit_xor(
                secret_of(*a),
                secret_of(*b),
            ),
    {
        let ab = self.secure_mul(record_id, a, b);
        let sum = self.add(a, b);
        let twice = self.add(&ab, &ab);
        let z = self.sub(&sum, &twice);
        proof {
            let p = F::prime();
            let (x, y) = (secret_of(*a), secret_of(*b));
            F::lemma_modulus();
            lemma_reduced(x * y, p);
            lemma_reduced(x + y, p);
            lemma_sum(secret_of(ab), secret_of(ab), x * y, x * y, p);
            lemma_reduced(secret_of(ab) + secret_of(ab), p);
            lemma_difference(secret_of(sum), secret_of(twice), x + y, x * y + x * y, p);
            lemma_reduced(secret_of(sum) - secret_of(twice), p);
            if is_bit(x) && is_bit(y) {
                assert(x * y == if x == 1 && y == 1 {
                    1int
                } else {
                    0int
                }) by (nonlinear_arith)
                    requires
                        is_bit(x),
                        is_bit(y),
                ;
                lemma_small(bit_xor(x, y), p);
            }
        }
        z
    }

    /// Shares two values, multiplies the sharings and opens the product.
    /// Whatever the randomness of the sharing, the result is the product.
    pub fn multiply_in_field<F: Field>(&self, record_id: RecordId, x: F, y: F) -> (product: F)
        requires
            self.wf(),
        ensures
            product.as_int() == (x.as_int() * y.as_int()) % F::prime(),
    {
        let a = share(x);
        let b = share(y);
        let z = self.secure_mul(record_id, &a, &b);
        let values = self.open(&z);
        values[0]
    }
}

/// The coordinates of what the three helpers hold of a vector of values.
pub open spec fn coordinates_of<F: Field>(x: [Vec<Replicated<F>>; 3]) -> Seq<Seq<(int, int)>> {
    seq![ints_of_all(x[0]@), ints_of_all(x[1]@), ints_of_all(x[2]@)]
}

/// Whether a number is zero or one.
pub open spec fn is_bit(b: int) -> bool {
    b == 0 || b == 1
}

/// The exclusive or of two bits.
pub open spec fn bit_xor(a: int, b: int) -> int {
    if a == b {
        0
    } else {
        1
    }
}

/// The part that a helper has to send in a reshare; zero if it has none.
fn part_of<F: Field>(round: &ReshareRound<F>) -> (part: F)
    ensures
        round matches ReshareRound::Exchange(e) ==> part == e.spec_part(),
{
    match round.outgoing() {
        Some((_, part)) => part,
        None => F::zero(),
    }
}

} // verus!
