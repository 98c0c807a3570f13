//! Testing a shared value for zero without opening it.
//!
//! The value is multiplied by a shared random value that no helper knows and
//! the product is opened. A zero stays zero; anything else is hidden behind
//! the random factor.

use vstd::prelude::*;
use vstd::string::StringSliceAdditionalSpecFns;
use crate::ff::modular::{congruent, lemma_product, lemma_reduced, lemma_small};
use crate::ff::Field;
use crate::protocol::basics::mul::{masks, mul_message, multiply, MulRound};
use crate::protocol::basics::reveal_share::{reveal_share, RevealRound};
use crate::error::Error;
use crate::protocol::context::Context;
use crate::protocol::prss::PrssLedger;
use crate::protocol::step::{label_bytes, narrowed, RecordId, Substep};
use crate::secret_sharing::replicated::{consistent, opened, Replicated};

verus! {

/// The levels below the step of a zero test.
#[derive(Debug, Clone, Copy, PartialEq, Eq, Structural)]
pub enum CheckZeroStep {
    /// Where the random factor is drawn.
    RandomFactor,
    /// Where the value is multiplied by the factor.
    MultiplyWithFactor,
}

impl Substep for CheckZeroStep {
    open spec fn label(&self) -> Seq<u8> {
        match self {
            CheckZeroStep::RandomFactor => "random-factor".spec_bytes(),
            CheckZeroStep::MultiplyWithFactor => "multiply-with-factor".spec_bytes(),
        }
    }

    fn to_bytes(&self) -> (out: Vec<u8>) {
        match self {
            CheckZeroStep::RandomFactor => label_bytes("random-factor"),
            CheckZeroStep::MultiplyWithFactor => label_bytes("multiply-with-factor"),
        }
    }
}

/// The zero test of one helper, in its three stages: multiply by the random
/// factor, open the product, decide.
pub struct CheckZero;

impl CheckZero {
    /// This helper's share of the random factor for a record.
    pub fn random_factor<F: Field>(ctx: &Context, record_id: RecordId) -> (r: Replicated<F>)
        requires
            ctx.wf(),
        ensures
            r.ints() == masks(
                ctx.keys().spec_narrow(
                    narrowed(Seq::<u8>::empty(), CheckZeroStep::RandomFactor.label()),
                ),
                record_id@,
                F::prime(),
            ),
    {
        let child = ctx.narrow(&CheckZeroStep::RandomFactor);
        proof {
            let suffix = narrowed(Seq::<u8>::empty(), CheckZeroStep::RandomFactor.label());
            assert(narrowed(ctx.path(), CheckZeroStep::RandomFactor.label()) =~= ctx.path()
                + suffix);
            crate::protocol::prss::lemma_derived_key_concat(
                ctx.root_keys().left,
                ctx.path(),
                suffix,
            );
            crate::protocol::prss::lemma_derived_key_concat(
                ctx.root_keys().right,
                ctx.path(),
                suffix,
            );
        }
        let pair = child.generate_fields::<F>(record_id);
        Replicated::new(pair.0, pair.1)
    }

    /// Starts the multiplication of `value` by the random factor.
    pub fn multiply<F: Field>(ctx: &Context, record_id: RecordId, value: &Replicated<F>) -> (round:
        MulRound<F>)
        requires
            ctx.wf(),
        ensures
            round.spec_role() == ctx.spec_role(),
            round.spec_own().as_int() == mul_message(
                value.ints(),
                masks(
                    ctx.keys().spec_narrow(
                        narrowed(Seq::<u8>::empty(), CheckZeroStep::RandomFactor.label()),
                    ),
                    record_id@,
                    F::prime(),
                ),
                masks(
                    ctx.keys().spec_narrow(
                        narrowed(Seq::<u8>::empty(), CheckZeroStep::MultiplyWithFactor.label()),
                    ),
                    record_id@,
                    F::prime(),
                ),
                F::prime(),
            ),
    {
        let factor = Self::random_factor::<F>(ctx, record_id);
        let child = ctx.narrow(&CheckZeroStep::MultiplyWithFactor);
        proof {
            let suffix = narrowed(Seq::<u8>::empty(), CheckZeroStep::MultiplyWithFactor.label());
            assert(narrowed(ctx.path(), CheckZeroStep::MultiplyWithFactor.label()) =~= ctx.path()
                + suffix);
            crate::protocol::prss::lemma_derived_key_concat(
                ctx.root_keys().left,
                ctx.path(),
                suffix,
            );
            crate::protocol::prss::lemma_derived_key_concat(
                ctx.root_keys().right,
                ctx.path(),
                suffix,
            );
        }
        multiply(value, &factor, &child, record_id)
    }

    /// Starts the multiplication of `value` by the random factor like
    /// `multiply`, with the two draws that it takes noted in the ledger of
    /// the helper: the factor on the step `random-factor`, the mask of the
    /// product on the step `multiply-with-factor`. A record that was drawn
    /// on either before is refused, and nothing is noted.
    pub fn multiply_once<F: Field>(
        ctx: &Context,
        ledger: &mut PrssLedger,
        record_id: RecordId,
        value: &Replicated<F>,
    ) -> (r: Result<MulRound<F>, Error>)
        requires
            ctx.wf(),
        ensures
            PrssLedger::noted_both(
                *old(ledger),
                *final(ledger),
                ctx.child_path(CheckZeroStep::RandomFactor.label()),
                ctx.child_path(CheckZeroStep::MultiplyWithFactor.label()),
                record_id@,
                r is Ok,
            ),
            match r {
                Ok(round) => round.spec_role() == ctx.spec_role() && round.spec_own().as_int()
                    == mul_message(
                    value.ints(),
                    masks(
                        ctx.keys().spec_narrow(
                            narrowed(Seq::<u8>::empty(), CheckZeroStep::RandomFactor.label()),
                        ),
                        record_id@,
                        F::prime(),
                    ),
                    masks(
                        ctx.keys().spec_narrow(
                            narrowed(
                                Seq::<u8>::empty(),
                                CheckZeroStep::MultiplyWithFactor.label(),
                            ),
                        ),
                        record_id@,
                        F::prime(),
                    ),
                    F::prime(),
                ),
                Err(e) => e == Error::PrssReuse,
            },
    {
        let first = ctx.step().narrow(&CheckZeroStep::RandomFactor);
        let second = ctx.step().narrow(&CheckZeroStep::MultiplyWithFactor);
        match ledger.note_both(&first, &second, record_id) {
            Ok(()) => Ok(Self::multiply(ctx, record_id, value)),
            Err(e) => Err(e),
        }
    }

    /// Starts the opening of the masked product.
    pub fn reveal_product<F: Field>(ctx: &Context, product: &Replicated<F>) -> (round: RevealRound<F>)
        ensures
            round.spec_role() == ctx.spec_role(),
            round.spec_share() == *product,
    {
        reveal_share(ctx, product)
    }

    /// The answer: the value counts as zero exactly if the opened product
    /// is zero.
    pub fn decide<F: Field>(opened_product: F) -> (zero: bool)
        ensures
            zero == (opened_product.as_int() == 0),
    {
        opened_product.as_u128() == 0
    }
}

/// A zero is always found: whatever the random factor, the product of a
/// sharing of zero with it opens to zero.
pub proof fn lemma_zero_is_found(x: int, r: int, p: int)
    requires
        p > 0,
        x % p == 0,
    ensures
        (x * r) % p == 0,
{
    lemma_reduced(x, p);
    lemma_product(x, r, 0, r, p);
    assert(0 * r == 0);
    lemma_small(0, p);
}

} // verus!
