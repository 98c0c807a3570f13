//! Opening a shared value.

use vstd::prelude::*;
use crate::error::Error;
use crate::ff::modular::{congruent, lemma_reduced, lemma_small, lemma_sum};
use crate::ff::Field;
use crate::helpers::role::{spec_peer, Direction, Role};
use crate::protocol::context::Context;
use crate::secret_sharing::replicated::{consistent, opened, Replicated};

verus! {

/// What a helper computes when it learns the coordinate it does not hold.
pub open spec fn revealed(share: (int, int), received: int, p: int) -> int {
    (share.0 + share.1 + received) % p
}

/// A reveal under way at one helper. The helper sends its right coordinate
/// to its left-hand neighbour, who lacks exactly that one, and waits for the
/// right coordinate of its right-hand neighbour.
#[derive(Debug, Clone, Copy)]
pub struct RevealRound<F> {
    role: Role,
    share: Replicated<F>,
}

impl<F: Field> RevealRound<F> {
    pub closed spec fn spec_role(&self) -> Role {
        self.role
    }

    pub closed spec fn spec_share(&self) -> Replicated<F> {
        self.share
    }

    /// The neighbour that lacks this helper's right coordinate: the left one.
    pub fn send_to(&self) -> (peer: Role)
        ensures
            peer == spec_peer(self.spec_role(), Direction::Left),
    {
        self.role.peer(Direction::Left)
    }

    /// The neighbour that holds the coordinate this helper lacks: the right
    /// one.
    pub fn receive_from(&self) -> (peer: Role)
        ensures
            peer == spec_peer(self.spec_role(), Direction::Right),
    {
        self.role.peer(Direction::Right)
    }

    /// The value to send: the right coordinate.
    pub fn message(&self) -> (value: F)
        ensures
            value == self.spec_share().spec_right(),
    {
        self.share.right()
    }

    /// The secret, from the coordinate that the right-hand neighbour sent.
    pub fn finish(self, received: F) -> (value: F)
        ensures
            value.as_int() == revealed(self.spec_share().ints(), received.as_int(), F::prime()),
    {
        let s = self.share.left().add(self.share.right());
        let v = s.add(received);
        proof {
            let p = F::prime();
            let (l, r) = self.share.ints();
            F::lemma_modulus();
            lemma_reduced(l + r, p);
            lemma_sum(s.as_int(), received.as_int(), l + r, received.as_int(), p);
            F::lemma_canonical(v);
            lemma_small(v.as_int(), p);
        }
        v
    }

    /// The secret, where both neighbours sent their right coordinate. What
    /// the left-hand neighbour sent is the coordinate this helper holds on
    /// the left; if it differs, the helpers disagree and the reveal aborts.
    pub fn finish_checked(self, from_right: F, from_left: F) -> (r: Result<F, Error>)
        ensures
            match r {
                Ok(value) => {
                    &&& from_left.as_int() == self.spec_share().ints().0
                    &&& value.as_int() == revealed(
                        self.spec_share().ints(),
                        from_right.as_int(),
                        F::prime(),
                    )
                },
                Err(e) => e == Error::RevealDisagreement && from_left.as_int()
                    != self.spec_share().ints().0,
            },
    {
        if from_left.as_u128() != self.share.left().as_u128() {
            return Err(Error::RevealDisagreement);
        }
        Ok(self.finish(from_right))
    }
}

/// Starts the reveal of `share` at this helper.
pub fn reveal_share<F: Field>(ctx: &Context, share: &Replicated<F>) -> (round: RevealRound<F>)
    ensures
        round.spec_role() == ctx.spec_role(),
        round.spec_share() == *share,
{
    RevealRound { role: ctx.role(), share: *share }
}

/// Reveal is correct: from a consistent sharing, every helper that receives
/// the right coordinate of its right-hand neighbour computes the secret.
pub proof fn lemma_reveal_opens(shares: Seq<(int, int)>, p: int)
    requires
        p > 0,
        consistent(shares),
    ensures
        revealed(shares[0], shares[1].1, p) == opened(shares, p),
        revealed(shares[1], shares[2].1, p) == opened(shares, p),
        revealed(shares[2], shares[0].1, p) == opened(shares, p),
{
}

} // verus!
