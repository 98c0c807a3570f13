//! Hands out record ids for drawing shared random bits, and keeps count of
//! the draws that failed. A record id is handed out once: when a channel
//! has used up its ids, the generator says so and hands out no more.
//!
//! A draw can fail: the bits may spell a number that is not below the
//! prime. Whether it failed is public, so all three helpers see the same
//! sequence of outcomes and, since the generator goes by nothing else, hand
//! out the same record ids.

use vstd::prelude::*;
use vstd::string::StringSliceAdditionalSpecFns;
use crate::error::Error;
use crate::protocol::boolean::solved_bits::RandomBitsShare;
use crate::protocol::context::Context;
use crate::protocol::step::{label_bytes, narrowed, RecordId, Substep, TotalRecords};

verus! {

/// The levels below the step of a generator.
#[derive(Debug, Clone, Copy, PartialEq, Eq, Structural)]
pub enum RBGStep {
    /// The channel for the draws that follow a failed one. It is costly to
    /// use, so the field should be large enough for that to be rare.
    FallbackChannel,
}

impl Substep for RBGStep {
    open spec fn label(&self) -> Seq<u8> {
        match self {
            RBGStep::FallbackChannel => "fallback".spec_bytes(),
        }
    }

    fn to_bytes(&self) -> (out: Vec<u8>) {
        match self {
            RBGStep::FallbackChannel => label_bytes("fallback"),
        }
    }
}

/// Hands out the record ids of one step in sequence, each once.
#[derive(Debug)]
pub struct CountingGenerator {
    counter: Option<u32>,
    ctx: Context,
}

impl CountingGenerator {
    /// The record id that is handed out next; `2^32` once all are used up.
    pub closed spec fn upcoming(&self) -> int {
        match self.counter {
            Some(c) => c as int,
            None => 0x1_0000_0000,
        }
    }

    /// The step that the ids belong to.
    pub closed spec fn context(&self) -> Context {
        self.ctx
    }

    /// The number of ids handed out lies between nothing and all.
    pub proof fn lemma_upcoming_in_range(&self)
        ensures
            0 <= self.upcoming() <= 0x1_0000_0000,
    {
    }

    pub fn new(ctx: Context) -> (g: Self)
        ensures
            g.upcoming() == 0,
            g.context() == ctx,
    {
        Self { counter: Some(0), ctx }
    }

    /// A generator that goes on at the record id `first`.
    pub fn starting_at(ctx: Context, first: u32) -> (g: Self)
        ensures
            g.upcoming() == first,
            g.context() == ctx,
    {
        Self { counter: Some(first), ctx }
    }

    /// Hands out the next record id, if one is left. Ids go up by one and
    /// none is handed out twice.
    pub fn next(&mut self) -> (id: Option<RecordId>)
        ensures
            final(self).context() == old(self).context(),
            match id {
                Some(r) => old(self).upcoming() < 0x1_0000_0000 && r@ == old(self).upcoming()
                    && final(self).upcoming() == old(self).upcoming() + 1,
                None => old(self).upcoming() == 0x1_0000_0000 && final(self).upcoming() == old(
                    self,
                ).upcoming(),
            },
    {
        match self.counter {
            Some(i) => {
                self.counter = if i == u32::MAX {
                    None
                } else {
                    Some(i + 1)
                };
                Some(RecordId::from(i))
            },
            None => None,
        }
    }

    /// Whether all record ids are used up.
    fn exhausted(&self) -> (none_left: bool)
        ensures
            none_left == (self.upcoming() == 0x1_0000_0000),
    {
        self.counter.is_none()
    }

    fn ctx(&self) -> (ctx: &Context)
        ensures
            *ctx == self.context(),
    {
        &self.ctx
    }
}

/// One try at drawing random bits: the channel to run it on and the record
/// id to run it under.
#[derive(Debug, Clone, Copy, PartialEq, Eq, Structural)]
pub struct Attempt {
    pub fallback: bool,
    pub record_id: RecordId,
}

/// Where a draw stands once a try has ended.
#[derive(Debug)]
pub enum Draw<F> {
    /// The try succeeded.
    Ready(RandomBitsShare<F>),
    /// The try failed and was counted; the next one runs on the fallback
    /// channel.
    Retry(Attempt),
}

/// Draws shared random bits under sequential record ids. The first try of
/// every draw runs on the step of the generator; after a failure, tries go
/// to the fallback channel until one succeeds.
#[derive(Debug)]
pub struct RandomBitsGenerator {
    default_generator: CountingGenerator,
    fallback_generator: CountingGenerator,
    abort_count: usize,
}

/// What a generator goes by: the next record id of either channel and the
/// number of failed tries.
pub struct Counters {
    pub default_next: int,
    pub fallback_next: int,
    pub aborts: int,
}

impl Counters {
    /// The counters are numbers that the machine can hold, and no channel
    /// has handed out more ids than it has.
    pub open spec fn valid(self) -> bool {
        &&& 0 <= self.default_next <= 0x1_0000_0000
        &&& 0 <= self.fallback_next <= 0x1_0000_0000
        &&& 0 <= self.aborts <= usize::MAX
    }

    /// Whether a draw can start: the default channel has an id left.
    pub open spec fn can_generate(self) -> bool {
        self.default_next < 0x1_0000_0000
    }

    /// Whether a failed try can be followed by another one: the fallback
    /// channel has an id left and the count of aborts can go up.
    pub open spec fn can_retry(self) -> bool {
        self.fallback_next < 0x1_0000_0000 && self.aborts < usize::MAX
    }
}

/// The counters after the first try of a draw was handed out.
pub open spec fn after_generate(c: Counters) -> Counters {
    if c.can_generate() {
        Counters { default_next: c.default_next + 1, ..c }
    } else {
        c
    }
}

/// The counters after a try ended: a success changes nothing, a failure is
/// counted and takes the next record id of the fallback channel. Where no
/// other try can follow, nothing changes.
pub open spec fn after_resolve(c: Counters, success: bool) -> Counters {
    if success || !c.can_retry() {
        c
    } else {
        Counters { fallback_next: c.fallback_next + 1, aborts: c.aborts + 1, ..c }
    }
}

/// The counters after a draw whose tries ended as `outcomes` says, in order.
/// A draw ends with its first success.
pub open spec fn after_draw(c: Counters, outcomes: Seq<bool>) -> Counters
    decreases outcomes.len(),
{
    if outcomes.len() == 0 {
        after_generate(c)
    } else {
        after_resolve(after_draw(c, outcomes.drop_last()), outcomes.last())
    }
}

impl RandomBitsGenerator {
    /// The counters of this generator.
    pub closed spec fn counters(&self) -> Counters {
        Counters {
            default_next: self.default_generator.upcoming(),
            fallback_next: self.fallback_generator.upcoming(),
            aborts: self.abort_count as int,
        }
    }

    /// The handle of the step that first tries run on.
    pub closed spec fn default_context(&self) -> Context {
        self.default_generator.context()
    }

    /// The handle of the fallback channel.
    pub closed spec fn fallback_context(&self) -> Context {
        self.fallback_generator.context()
    }

    /// The counters of a generator are valid, whatever was done with it.
    pub proof fn lemma_counters_valid(&self)
        ensures
            self.counters().valid(),
    {
        self.default_generator.lemma_upcoming_in_range();
        self.fallback_generator.lemma_upcoming_in_range();
    }

    /// A generator on the step of `ctx`, whose totals must still be open:
    /// neither channel knows how many draws there will be. The announced
    /// total is not used.
    pub fn new(ctx: Context, total_records: TotalRecords) -> (g: Self)
        requires
            ctx.wf(),
            ctx.spec_total_records() is None,
        ensures
            g.counters() == (Counters { default_next: 0, fallback_next: 0, aborts: 0 }),
            g.counters().valid(),
            g.default_context().wf(),
            g.default_context().path() == ctx.path(),
            g.default_context().spec_role() == ctx.spec_role(),
            g.default_context().root_keys() == ctx.root_keys(),
            g.default_context().spec_total_records() == Some(TotalRecords::Indeterminate),
            g.fallback_context().wf(),
            g.fallback_context().path() == narrowed(ctx.path(), RBGStep::FallbackChannel.label()),
            g.fallback_context().spec_role() == ctx.spec_role(),
            g.fallback_context().root_keys() == ctx.root_keys(),
            g.fallback_context().spec_total_records() == Some(TotalRecords::Indeterminate),
    {
        Self::resume(ctx, 0, 0, 0)
    }

    /// A generator that goes on where another one stood: with the record
    /// ids that its channels hand out next and the aborts counted so far.
    pub fn resume(
        ctx: Context,
        default_next: u32,
        fallback_next: u32,
        aborts: usize,
    ) -> (g: Self)
        requires
            ctx.wf(),
            ctx.spec_total_records() is None,
        ensures
            g.counters() == (Counters {
                default_next: default_next as int,
                fallback_next: fallback_next as int,
                aborts: aborts as int,
            }),
            g.counters().valid(),
            g.default_context().wf(),
            g.default_context().path() == ctx.path(),
            g.default_context().spec_role() == ctx.spec_role(),
            g.default_context().root_keys() == ctx.root_keys(),
            g.default_context().spec_total_records() == Some(TotalRecords::Indeterminate),
            g.fallback_context().wf(),
            g.fallback_context().path() == narrowed(ctx.path(), RBGStep::FallbackChannel.label()),
            g.fallback_context().spec_role() == ctx.spec_role(),
            g.fallback_context().root_keys() == ctx.root_keys(),
            g.fallback_context().spec_total_records() == Some(TotalRecords::Indeterminate),
    {
        let fallback = ctx.narrow(&RBGStep::FallbackChannel);
        let default_ctx = match ctx.set_total_records(TotalRecords::Indeterminate) {
            Ok(c) => c,
            Err(_) => ctx,
        };
        let fallback_ctx = match fallback.set_total_records(TotalRecords::Indeterminate) {
            Ok(c) => c,
            Err(_) => fallback,
        };
        Self {
            default_generator: CountingGenerator::starting_at(default_ctx, default_next),
            fallback_generator: CountingGenerator::starting_at(fallback_ctx, fallback_next),
            abort_count: aborts,
        }
    }

    /// Starts a draw: hands out the next record id of the default channel.
    /// Once that channel has used up its ids, no draw can start.
    pub fn generate(&mut self) -> (r: Result<Attempt, Error>)
        ensures
            final(self).counters() == after_generate(old(self).counters()),
            final(self).counters().valid(),
            final(self).default_context() == old(self).default_context(),
            final(self).fallback_context() == old(self).fallback_context(),
            match r {
                Ok(attempt) => old(self).counters().can_generate() && !attempt.fallback
                    && attempt.record_id@ == old(self).counters().default_next,
                Err(e) => !old(self).counters().can_generate() && e == Error::RecordIdsExhausted,
            },
    {
        proof {
            self.lemma_counters_valid();
        }
        match self.default_generator.next() {
            Some(record_id) => Ok(Attempt { fallback: false, record_id }),
            None => Err(Error::RecordIdsExhausted),
        }
    }

    /// Takes the outcome of a try. A value ends the draw. A failure is
    /// counted, and the draw goes on with the next record id of the fallback
    /// channel; where that channel has used up its ids, or the count cannot
    /// go up, the draw ends and nothing is counted.
    pub fn resolve<F>(&mut self, outcome: Option<RandomBitsShare<F>>) -> (r: Result<Draw<F>, Error>)
        ensures
            Self::resolved(old(self).counters(), outcome, r),
            final(self).counters() == after_resolve(old(self).counters(), outcome is Some),
            final(self).counters().valid(),
            final(self).default_context() == old(self).default_context(),
            final(self).fallback_context() == old(self).fallback_context(),
    {
        proof {
            self.lemma_counters_valid();
        }
        match outcome {
            Some(v) => Ok(Draw::Ready(v)),
            None => {
                if self.abort_count == usize::MAX || self.fallback_generator.exhausted() {
                    return Err(Error::RecordIdsExhausted);
                }
                match self.fallback_generator.next() {
                    Some(record_id) => {
                        self.abort_count = self.abort_count + 1;
                        Ok(Draw::Retry(Attempt { fallback: true, record_id }))
                    },
                    None => Err(Error::RecordIdsExhausted),
                }
            },
        }
    }

    /// What comes of a try that ended without an error: a value is handed
    /// on; a failure leads to a try on the fallback channel under its next
    /// record id, if another try can follow.
    pub open spec fn resolved<F>(
        before: Counters,
        outcome: Option<RandomBitsShare<F>>,
        r: Result<Draw<F>, Error>,
    ) -> bool {
        match outcome {
            Some(share) => r == Ok::<Draw<F>, Error>(Draw::Ready(share)),
            None => if before.can_retry() {
                r matches Ok(Draw::Retry(attempt)) && attempt.fallback && attempt.record_id@
                    == before.fallback_next
            } else {
                r == Err::<Draw<F>, Error>(Error::RecordIdsExhausted)
            },
        }
    }

    /// Takes what a try ended with. An error ends the draw: it is handed on
    /// as it is, no abort is counted and no record id is taken; the id of
    /// the try stays used. Anything else is resolved.
    pub fn settle<F>(&mut self, outcome: Result<Option<RandomBitsShare<F>>, Error>) -> (r: Result<
        Draw<F>,
        Error,
    >)
        ensures
            final(self).counters().valid(),
            final(self).default_context() == old(self).default_context(),
            final(self).fallback_context() == old(self).fallback_context(),
            match outcome {
                Err(e) => r == Err::<Draw<F>, Error>(e) && final(self).counters() == old(
                    self,
                ).counters(),
                Ok(o) => Self::resolved(old(self).counters(), o, r) && final(self).counters()
                    == after_resolve(old(self).counters(), o is Some),
            },
    {
        match outcome {
            Err(e) => {
                proof {
                    self.lemma_counters_valid();
                }
                Err(e)
            },
            Ok(o) => self.resolve(o),
        }
    }

    /// The handle to run a try under.
    pub fn context(&self, attempt: &Attempt) -> (ctx: &Context)
        ensures
            *ctx == if attempt.fallback {
                self.fallback_context()
            } else {
                self.default_context()
            },
    {
        if attempt.fallback {
            self.fallback_generator.ctx()
        } else {
            self.default_generator.ctx()
        }
    }

    /// The number of failed tries so far.
    pub fn aborts(&self) -> (n: usize)
        ensures
            n as int == self.counters().aborts,
    {
        self.abort_count
    }
}

/// The number of failures among `outcomes`.
pub open spec fn failures(outcomes: Seq<bool>) -> int
    decreases outcomes.len(),
{
    if outcomes.len() == 0 {
        0
    } else {
        failures(outcomes.drop_last()) + if outcomes.last() {
            0int
        } else {
            1int
        }
    }
}

/// The count of aborts goes by the outcomes alone: whoever the helper is and
/// whatever its keys are, a draw adds the number of its failed tries to the
/// count, takes one record id of the default channel and one of the
/// fallback channel for every failure, as long as the channels have ids
/// left. Helpers that see the same outcomes therefore agree on the count
/// after every draw.
pub proof fn lemma_aborts_follow_outcomes(c: Counters, outcomes: Seq<bool>)
    requires
        c.valid(),
        c.can_generate(),
        c.fallback_next + failures(outcomes) <= 0x1_0000_0000,
        c.aborts + failures(outcomes) <= usize::MAX,
    ensures
        after_draw(c, outcomes).aborts == c.aborts + failures(outcomes),
        after_draw(c, outcomes).fallback_next == c.fallback_next + failures(outcomes),
        after_draw(c, outcomes).default_next == c.default_next + 1,
    decreases outcomes.len(),
{
    if outcomes.len() > 0 {
        lemma_failures_nonnegative(outcomes.drop_last());
        lemma_aborts_follow_outcomes(c, outcomes.drop_last());
    }
}

/// Record ids are never handed out twice: the counters of a generator only
/// go up, so an id that was handed out lies below every id that follows on
/// its channel.
pub proof fn lemma_counters_only_go_up(c: Counters, success: bool)
    requires
        c.valid(),
    ensures
        after_generate(c).default_next >= c.default_next,
        after_generate(c).fallback_next == c.fallback_next,
        after_resolve(c, success).fallback_next >= c.fallback_next,
        after_resolve(c, success).default_next == c.default_next,
        after_resolve(c, success).aborts >= c.aborts,
        after_generate(c).valid(),
        after_resolve(c, success).valid(),
{
}

proof fn lemma_failures_nonnegative(outcomes: Seq<bool>)
    ensures
        failures(outcomes) >= 0,
    decreases outcomes.len(),
{
    if outcomes.len() > 0 {
        lemma_failures_nonnegative(outcomes.drop_last());
    }
}

} // verus!
