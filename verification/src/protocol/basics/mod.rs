//! The primitive protocols on replicated shares.
//!
//! Every primitive costs one exchange of a field element between
//! neighbours. A primitive is therefore written as a round: the function
//! that starts it returns what this helper has to send and to whom, and the
//! round is finished with what the neighbour sent.

pub mod check_zero;
pub mod exchange;
pub mod mul;
pub mod reveal_share;
pub mod share_known_value;
pub mod sum_of_product;

pub use check_zero::CheckZero;
pub use mul::{multiply, MulRound};
pub use reveal_share::{reveal_share, RevealRound};
pub use share_known_value::share_known_value;
pub use sum_of_product::sum_of_products;

use vstd::prelude::*;
use crate::ff::Field;
use crate::helpers::role::Role;
use crate::protocol::basics::mul::{masks, mul_message};
use crate::protocol::basics::share_known_value::known_value_share;
use crate::protocol::basics::sum_of_product::{ints_of_all, sop_message};
use crate::protocol::context::Context;
use crate::protocol::prss::PrssEndpoint;
use crate::protocol::sort::reshare::{Reshare, ReshareRound};
use crate::protocol::step::RecordId;
use crate::secret_sharing::replicated::Replicated;

verus! {

/// The primitives that a kind of share must offer, under the kind of
/// context that goes with it, for the protocols of this crate to run on it.
///
/// What the trait promises is said of the value that a share stands for. A
/// kind of share that carries more than the value, such as a MAC, says in
/// its own impl what becomes of the rest.
pub trait BasicProtocols<C, F: Field>: Sized {
    /// A multiplication under way.
    type Multiplication;

    /// A reshare under way.
    type Resharing;

    /// The two coordinates of the share of the value, as integers below the
    /// prime.
    spec fn coordinates(&self) -> (int, int);

    /// Whether a context can be used: it is well formed.
    spec fn usable(ctx: &C) -> bool;

    /// The helper that a context belongs to.
    spec fn role_of(ctx: &C) -> Role;

    /// The keys of a context for its step.
    spec fn keys_of(ctx: &C) -> PrssEndpoint;

    /// The helper that a multiplication runs at.
    spec fn product_role(round: &Self::Multiplication) -> Role;

    /// What the helper contributes to the value of the product.
    spec fn product_message(round: &Self::Multiplication) -> int;

    /// The reshare of the share of the value.
    spec fn value_resharing(round: &Self::Resharing) -> ReshareRound<F>;

    /// This helper's share of a constant that every helper knows.
    fn share_known_value(ctx: &C, value: F) -> (share: Self)
        requires
            Self::usable(ctx),
        ensures
            share.coordinates() == known_value_share(Self::role_of(ctx), value.as_int()),
    ;

    /// Starts the multiplication by `rhs`.
    fn multiply(&self, rhs: &Self, ctx: &C, record_id: RecordId) -> (round: Self::Multiplication)
        requires
            Self::usable(ctx),
        ensures
            Self::product_role(&round) == Self::role_of(ctx),
            Self::product_message(&round) == mul_message(
                self.coordinates(),
                rhs.coordinates(),
                masks(Self::keys_of(ctx), record_id@, F::prime()),
                F::prime(),
            ),
    ;

    /// Starts the sum of the products of two vectors of shares.
    fn sum_of_products(a: &[Self], b: &[Self], ctx: &C, record_id: RecordId) -> (round:
        Self::Multiplication)
        requires
            Self::usable(ctx),
            a@.len() == b@.len(),
        ensures
            Self::product_role(&round) == Self::role_of(ctx),
            Self::product_message(&round) == sop_message(
                Seq::new(a@.len(), |i: int| a@[i].coordinates()),
                Seq::new(b@.len(), |i: int| b@[i].coordinates()),
                masks(Self::keys_of(ctx), record_id@, F::prime()),
                F::prime(),
            ),
    ;

    /// Starts the reshare towards `to_helper`.
    fn reshare(&self, ctx: &C, record_id: RecordId, to_helper: Role) -> (round: Self::Resharing)
        requires
            Self::usable(ctx),
        ensures
            Self::value_resharing(&round).begun(
                Self::role_of(ctx),
                to_helper,
                self.coordinates(),
                masks(Self::keys_of(ctx), record_id@, F::prime()),
            ),
    ;

    /// Starts the opening of the value.
    fn open(&self, ctx: &C) -> (round: RevealRound<F>)
        requires
            Self::usable(ctx),
        ensures
            round.spec_role() == Self::role_of(ctx),
            round.spec_share().ints() == self.coordinates(),
    ;
}

impl<F: Field> BasicProtocols<Context, F> for Replicated<F> {
    type Multiplication = MulRound<F>;

    type Resharing = ReshareRound<F>;

    open spec fn coordinates(&self) -> (int, int) {
        self.ints()
    }

    open spec fn usable(ctx: &Context) -> bool {
        true
    }

    open spec fn role_of(ctx: &Context) -> Role {
        ctx.spec_role()
    }

    open spec fn keys_of(ctx: &Context) -> PrssEndpoint {
        ctx.keys()
    }

    open spec fn product_role(round: &MulRound<F>) -> Role {
        round.spec_role()
    }

    open spec fn product_message(round: &MulRound<F>) -> int {
        round.spec_own().as_int()
    }

    open spec fn value_resharing(round: &ReshareRound<F>) -> ReshareRound<F> {
        *round
    }

    fn share_known_value(ctx: &Context, value: F) -> (share: Self) {
        share_known_value(ctx, value)
    }

    fn multiply(&self, rhs: &Self, ctx: &Context, record_id: RecordId) -> (round: MulRound<F>) {
        multiply(self, rhs, ctx, record_id)
    }

    fn sum_of_products(a: &[Self], b: &[Self], ctx: &Context, record_id: RecordId) -> (round:
        MulRound<F>) {
        proof {
            assert(Seq::new(a@.len(), |i: int| a@[i].coordinates()) =~= ints_of_all(a@));
            assert(Seq::new(b@.len(), |i: int| b@[i].coordinates()) =~= ints_of_all(b@));
        }
        sum_of_products(a, b, ctx, record_id)
    }

    fn reshare(&self, ctx: &Context, record_id: RecordId, to_helper: Role) -> (round: ReshareRound<
        F,
    >) {
        Reshare::new(*self).execute(ctx, record_id, to_helper)
    }

    fn open(&self, ctx: &Context) -> (round: RevealRound<F>) {
        reveal_share(ctx, self)
    }
}

} // verus!
