//! The random-bits generators of three helpers, run in step.
//!
//! Whether a try failed is public, so the three generators are told the
//! same outcome after every try and hand out the same record ids. Their
//! counts of aborts are therefore the same after every draw.

use vstd::prelude::*;
use crate::error::Error;
use crate::ff::Field;
use crate::protocol::boolean::random_bits_generator::{
    Attempt, Counters, Draw, RBGStep, RandomBitsGenerator,
};
use crate::protocol::boolean::solved_bits::{spelled, RandomBitsShare, SolvedBitsStep};
use crate::protocol::step::{Substep, TotalRecords};
use crate::test_fixture::solved_bits::{
    bit_shares, drawn_bits, in_ring, is_bit_length, solved_bits_each, solves,
};
use crate::test_fixture::world::{is_bit, secret_of, valid, TestWorld};

verus! {

/// The generators of the three helpers of a world, with the world that
/// first tries run on and the world of the fallback channel.
pub struct SharedGenerator {
    world: TestWorld,
    fallback: TestWorld,
    first: RandomBitsGenerator,
    second: RandomBitsGenerator,
    third: RandomBitsGenerator,
}

/// Whether three shares are a shared random value with its bits: every
/// helper holds `l` shares of bits, the shares of every bit fit together and
/// open to a bit, and the shares of the value fit together and open to the
/// number that the bits spell, which lies below the prime.
pub open spec fn well_drawn<F: Field>(shares: [RandomBitsShare<F>; 3], l: nat) -> bool {
    &&& forall|h: int| 0 <= h < 3 ==> (#[trigger] shares[h]).b_b@.len() == l
    &&& forall|i: int|
        0 <= i < l ==> valid(#[trigger] bit_shares(shares, i)) && is_bit(
            secret_of(bit_shares(shares, i)),
        )
    &&& valid([shares[0].b_p, shares[1].b_p, shares[2].b_p])
    &&& secret_of([shares[0].b_p, shares[1].b_p, shares[2].b_p]) == spelled(
        Seq::new(l, |i: int| secret_of(bit_shares(shares, i))),
        l as int,
    )
    &&& secret_of([shares[0].b_p, shares[1].b_p, shares[2].b_p]) < F::prime()
}

impl SharedGenerator {
    /// The counters of the generator of the helper at position `h`.
    pub closed spec fn counters(&self, h: int) -> Counters {
        if h == 0 {
            self.first.counters()
        } else if h == 1 {
            self.second.counters()
        } else {
            self.third.counters()
        }
    }

    /// The worlds are well formed and the three generators have the same
    /// counters.
    pub closed spec fn wf(&self) -> bool {
        &&& self.world.wf()
        &&& self.fallback.wf()
        &&& self.first.counters() == self.second.counters()
        &&& self.first.counters() == self.third.counters()
    }

    /// In a shared generator that is well formed, the three helpers agree on
    /// every counter, the count of aborts among them.
    pub proof fn lemma_helpers_agree(&self)
        requires
            self.wf(),
        ensures
            self.counters(0) == self.counters(1),
            self.counters(0) == self.counters(2),
            self.counters(0).valid(),
    {
        self.first.lemma_counters_valid();
    }

    /// The generators of the three helpers of a world whose totals are
    /// still open.
    pub fn new(world: TestWorld) -> (g: SharedGenerator)
        requires
            world.wf(),
            forall|i: int| 0 <= i < 3 ==> (#[trigger] world.context(i)).spec_total_records() is None,
        ensures
            g.wf(),
            g.counters(0) == (Counters { default_next: 0, fallback_next: 0, aborts: 0 }),
    {
        assert(world.context(0).wf() && world.context(1).wf() && world.context(2).wf());
        let fallback = world.narrow(&RBGStep::FallbackChannel);
        let first = RandomBitsGenerator::new(
            world.helper(0).duplicate(),
            TotalRecords::Indeterminate,
        );
        let second = RandomBitsGenerator::new(
            world.helper(1).duplicate(),
            TotalRecords::Indeterminate,
        );
        let third = RandomBitsGenerator::new(
            world.helper(2).duplicate(),
            TotalRecords::Indeterminate,
        );
        SharedGenerator { world, fallback, first, second, third }
    }

    /// The world that first tries run on.
    pub fn world(&self) -> (world: &TestWorld)
        requires
            self.wf(),
        ensures
            world.wf(),
    {
        &self.world
    }

    /// The counts of aborts of the three helpers.
    pub fn aborts(&self) -> (counts: [usize; 3])
        requires
            self.wf(),
        ensures
            counts[0] == counts[1],
            counts[0] == counts[2],
            counts[0] as int == self.counters(0).aborts,
    {
        [self.first.aborts(), self.second.aborts(), self.third.aborts()]
    }

    /// One draw of all three helpers: a try on the default channel, and
    /// after every failure a try on the fallback channel, until a try
    /// succeeds or a channel has used up its record ids. Whatever the
    /// outcome, the three generators agree on their counters afterwards.
    ///
    /// The draw fails only for want of record ids: where the default channel
    /// has none left when the draw starts, or where a try failed and no
    /// other try can follow.
    pub fn generate<F: Field>(&mut self) -> (r: Result<[RandomBitsShare<F>; 3], Error>)
        requires
            old(self).wf(),
        ensures
            final(self).wf(),
            final(self).counters(0).aborts >= old(self).counters(0).aborts,
            final(self).counters(0).fallback_next - old(self).counters(0).fallback_next
                == final(self).counters(0).aborts - old(self).counters(0).aborts,
            match r {
                Ok(shares) => {
                    &&& final(self).counters(0).default_next == old(self).counters(
                        0,
                    ).default_next + 1
                    &&& forall|l: nat| #[trigger]
                        is_bit_length(l, F::prime()) ==> well_drawn(shares, l)
                },
                Err(e) => e == Error::RecordIdsExhausted,
            },
            r is Err ==> !old(self).counters(0).can_generate() || !final(self).counters(
                0,
            ).can_retry(),
    {
        let a0 = self.first.generate();
        let a1 = self.second.generate();
        let a2 = self.third.generate();
        let mut attempt: Attempt = match (a0, a1, a2) {
            (Ok(a), Ok(_), Ok(_)) => a,
            _ => {
                return Err(Error::RecordIdsExhausted);
            },
        };
        loop
            invariant
                self.wf(),
                self.counters(0).default_next == old(self).counters(0).default_next + 1,
                self.counters(0).aborts >= old(self).counters(0).aborts,
                self.counters(0).fallback_next - old(self).counters(0).fallback_next
                    == self.counters(0).aborts - old(self).counters(0).aborts,
                self.counters(0).valid(),
            decreases 0x1_0000_0000 - self.counters(0).fallback_next,
        {
            let outcome = if attempt.fallback {
                solved_bits_each::<F>(&self.fallback, attempt.record_id)
            } else {
                solved_bits_each::<F>(&self.world, attempt.record_id)
            };
            let ghost source = if attempt.fallback {
                self.fallback
            } else {
                self.world
            };
            let ghost drawn = in_ring(outcome);
            let (o0, o1, o2) = match outcome {
                Some((s0, s1, s2)) => (Some(s0), Some(s1), Some(s2)),
                None => (None, None, None),
            };
            let d0 = self.first.settle(Ok(o0));
            let d1 = self.second.settle(Ok(o1));
            let d2 = self.third.settle(Ok(o2));
            match (d0, d1, d2) {
                (Ok(Draw::Ready(s0)), Ok(Draw::Ready(s1)), Ok(Draw::Ready(s2))) => {
                    let shares = [s0, s1, s2];
                    proof {
                        assert(drawn == Some(shares));
                        assert(solves(&source, attempt.record_id@, Some(shares)));
                        assert forall|l: nat| #[trigger]
                            is_bit_length(l, F::prime()) implies well_drawn(shares, l) by {
                            let bits = drawn_bits(
                                source.keys_below(SolvedBitsStep::RandomBits.label()),
                                attempt.record_id@,
                                l,
                            );
                            assert(Seq::new(l, |i: int| secret_of(bit_shares(shares, i))) =~= bits);
                            assert(spelled(bits, l as int) < F::prime());
                        }
                    }
                    return Ok(shares);
                },
                (Ok(Draw::Retry(next)), Ok(Draw::Retry(_)), Ok(Draw::Retry(_))) => {
                    attempt = next;
                },
                _ => {
                    return Err(Error::RecordIdsExhausted);
                },
            }
        }
    }
}

} // verus!
