//! Resharing: a fresh sharing of the same secret, destined for one helper.
//!
//! The helper the sharing is destined for contributes nothing and learns
//! nothing: its new share is its correlated pair. Its two neighbours each
//! hide what they hold behind the half of that pair they know, and swap the
//! results.

use vstd::prelude::*;
use crate::ff::modular::{congruent, lemma_difference, lemma_reduced, lemma_small, lemma_sum};
use crate::ff::Field;
use crate::helpers::role::{role_at, role_index, spec_peer, Direction, Role};
use crate::protocol::basics::mul::masks;
use crate::error::Error;
use crate::protocol::context::Context;
use crate::protocol::prss::PrssLedger;
use crate::protocol::step::RecordId;
use crate::secret_sharing::replicated::{consistent, opened, Replicated};

verus! {

/// What the left-hand neighbour of the target sends: both its coordinates,
/// hidden behind the right half of its pair.
pub open spec fn part_of_left(input: (int, int), r: (int, int), p: int) -> int {
    (input.0 + input.1 - r.1) % p
}

/// What the right-hand neighbour of the target sends: its left coordinate,
/// hidden behind the left half of its pair.
pub open spec fn part_of_right(input: (int, int), r: (int, int), p: int) -> int {
    (input.0 - r.0) % p
}

/// The new share of the left-hand neighbour of the target.
pub open spec fn share_of_left(part: int, received: int, r: (int, int), p: int) -> (int, int) {
    ((part + received) % p, r.1)
}

/// The new share of the right-hand neighbour of the target.
pub open spec fn share_of_right(part: int, received: int, r: (int, int), p: int) -> (int, int) {
    (r.0, (received + part) % p)
}

/// A share waiting to be reshared.
#[derive(Debug)]
pub struct Reshare<F> {
    input: Replicated<F>,
}

/// The exchange a neighbour of the target is in: its part is computed and
/// waits for the part of the other neighbour.
#[derive(Debug, Clone, Copy)]
pub struct ReshareExchange<F> {
    peer: Role,
    part: F,
    mask: F,
    left_of_target: bool,
}

/// Where a helper stands after the first half of a reshare.
#[derive(Debug, Clone, Copy)]
pub enum ReshareRound<F> {
    /// The helper is the target: its new share is ready.
    Done(Replicated<F>),
    /// The helper is a neighbour of the target and has a part to swap.
    Exchange(ReshareExchange<F>),
}

impl<F: Field> ReshareRound<F> {
    /// Whether this is where the helper `role` stands after the first half
    /// of resharing `input` towards `to_helper`, with the correlated pair
    /// `r`: the target is done, its neighbours have their parts to swap.
    pub open spec fn begun(self, role: Role, to_helper: Role, input: (int, int), r: (int, int))
        -> bool {
        if role == to_helper {
            self matches ReshareRound::Done(share) && share.ints() == r
        } else if role == spec_peer(to_helper, Direction::Left) {
            &&& self matches ReshareRound::Exchange(e)
            &&& e.is_left_of_target()
            &&& e.spec_peer() == spec_peer(to_helper, Direction::Right)
            &&& e.spec_part().as_int() == part_of_left(input, r, F::prime())
            &&& e.spec_mask().as_int() == r.1
        } else {
            &&& self matches ReshareRound::Exchange(e)
            &&& !e.is_left_of_target()
            &&& e.spec_peer() == spec_peer(to_helper, Direction::Left)
            &&& e.spec_part().as_int() == part_of_right(input, r, F::prime())
            &&& e.spec_mask().as_int() == r.0
        }
    }

    /// The new share, once the part of the other neighbour is `received`.
    /// The target has received nothing and needs nothing.
    pub open spec fn completed(self, received: int) -> (int, int) {
        match self {
            ReshareRound::Done(share) => share.ints(),
            ReshareRound::Exchange(e) => if e.is_left_of_target() {
                share_of_left(
                    e.spec_part().as_int(),
                    received,
                    (0, e.spec_mask().as_int()),
                    F::prime(),
                )
            } else {
                share_of_right(
                    e.spec_part().as_int(),
                    received,
                    (e.spec_mask().as_int(), 0),
                    F::prime(),
                )
            },
        }
    }

    /// The new share. A neighbour of the target passes the part that the
    /// other neighbour sent; the target passes anything.
    pub fn finish(self, received: F) -> (share: Replicated<F>)
        ensures
            share.ints() == self.completed(received.as_int()),
    {
        match self {
            ReshareRound::Done(share) => share,
            ReshareRound::Exchange(e) => e.finish(received),
        }
    }

    /// The part to send and the helper to send it to, if this helper has one
    /// to send.
    pub fn outgoing(&self) -> (out: Option<(Role, F)>)
        ensures
            match *self {
                ReshareRound::Done(_) => out is None,
                ReshareRound::Exchange(e) => out == Some((e.spec_peer(), e.spec_part())),
            },
    {
        match self {
            ReshareRound::Done(_) => None,
            ReshareRound::Exchange(e) => Some((e.peer(), e.message())),
        }
    }
}

impl<F: Field> ReshareExchange<F> {
    /// The other neighbour of the target, with whom the parts are swapped.
    pub closed spec fn spec_peer(&self) -> Role {
        self.peer
    }

    /// The part of this helper.
    pub closed spec fn spec_part(&self) -> F {
        self.part
    }

    /// The half of the correlated pair that stays in the new share.
    pub closed spec fn spec_mask(&self) -> F {
        self.mask
    }

    /// Whether this helper is the left-hand neighbour of the target.
    pub closed spec fn is_left_of_target(&self) -> bool {
        self.left_of_target
    }

    /// The helper to send the part to and to receive the other part from.
    pub fn peer(&self) -> (peer: Role)
        ensures
            peer == self.spec_peer(),
    {
        self.peer
    }

    /// The value to send.
    pub fn message(&self) -> (value: F)
        ensures
            value == self.spec_part(),
    {
        self.part
    }

    /// The new share, from the part that the other neighbour sent.
    pub fn finish(self, received: F) -> (share: Replicated<F>)
        ensures
            self.is_left_of_target() ==> share.ints() == share_of_left(
                self.spec_part().as_int(),
                received.as_int(),
                (0, self.spec_mask().as_int()),
                F::prime(),
            ),
            !self.is_left_of_target() ==> share.ints() == share_of_right(
                self.spec_part().as_int(),
                received.as_int(),
                (self.spec_mask().as_int(), 0),
                F::prime(),
            ),
    {
        if self.left_of_target {
            Replicated::new(self.part.add(received), self.mask)
        } else {
            Replicated::new(self.mask, received.add(self.part))
        }
    }
}

impl<F: Field> Reshare<F> {
    /// The share to be reshared.
    pub closed spec fn spec_input(&self) -> Replicated<F> {
        self.input
    }

    pub fn new(input: Replicated<F>) -> (r: Self)
        ensures
            r.spec_input() == input,
    {
        Self { input }
    }

    /// The first half of the reshare towards `to_helper`, for one record.
    ///
    /// 1. Every helper draws its correlated pair `(r0, r1)` for the record.
    /// 2. The left-hand neighbour of the target computes
    ///    `part1 = left + right - r1`, to be sent to the right-hand
    ///    neighbour of the target.
    /// 3. The right-hand neighbour of the target computes
    ///    `part2 = left - r0`, to be sent to the left-hand neighbour.
    /// 4. The target takes `(r0, r1)` as its share. The left-hand neighbour
    ///    ends with `(part1 + part2, r1)`, the right-hand neighbour with
    ///    `(r0, part1 + part2)`, once the parts are swapped.
    pub fn execute(self, ctx: &Context, record_id: RecordId, to_helper: Role) -> (round:
        ReshareRound<F>)
        ensures
            round.begun(
                ctx.spec_role(),
                to_helper,
                self.spec_input().ints(),
                masks(ctx.keys(), record_id@, F::prime()),
            ),
    {
        let pair = ctx.generate_fields::<F>(record_id);
        self.with_pair(ctx.role(), pair, to_helper)
    }

    /// The first half of the reshare like `execute`, with the draw of the
    /// correlated pair noted in the ledger of the helper. A record whose
    /// pair was drawn before on this step is refused.
    pub fn execute_once(
        self,
        ctx: &Context,
        ledger: &mut PrssLedger,
        record_id: RecordId,
        to_helper: Role,
    ) -> (r: Result<ReshareRound<F>, Error>)
        ensures
            PrssLedger::noted(*old(ledger), *final(ledger), ctx.path(), record_id@, r is Ok),
            match r {
                Ok(round) => round.begun(
                    ctx.spec_role(),
                    to_helper,
                    self.spec_input().ints(),
                    masks(ctx.keys(), record_id@, F::prime()),
                ),
                Err(e) => e == Error::PrssReuse,
            },
    {
        match ctx.generate_fields_once::<F>(ledger, record_id) {
            Ok(pair) => Ok(self.with_pair(ctx.role(), pair, to_helper)),
            Err(e) => Err(e),
        }
    }

    /// The first half of the reshare towards `to_helper` at the helper
    /// `role`, from the correlated pair `(r0, r1)` of that helper.
    pub fn with_pair(self, role: Role, pair: (F, F), to_helper: Role) -> (round: ReshareRound<F>)
        ensures
            round.begun(
                role,
                to_helper,
                self.spec_input().ints(),
                (pair.0.as_int(), pair.1.as_int()),
            ),
    {
        let (r0, r1) = pair;
        let ghost p = F::prime();
        proof {
            F::lemma_modulus();
        }
        if role.is(to_helper.peer(Direction::Left)) {
            // part1 = (left + right) - r1, for the right-hand neighbour of the target
            let both = self.input.left().add(self.input.right());
            let part1 = both.sub(r1);
            proof {
                let (l, r) = self.input.ints();
                lemma_reduced(l + r, p);
                lemma_difference(both.as_int(), r1.as_int(), l + r, r1.as_int(), p);
                F::lemma_canonical(part1);
                lemma_small(part1.as_int(), p);
            }
            ReshareRound::Exchange(
                ReshareExchange {
                    peer: to_helper.peer(Direction::Right),
                    part: part1,
                    mask: r1,
                    left_of_target: true,
                },
            )
        } else if role.is(to_helper.peer(Direction::Right)) {
            // part2 = left - r0, for the left-hand neighbour of the target
            let part2 = self.input.left().sub(r0);
            ReshareRound::Exchange(
                ReshareExchange {
                    peer: to_helper.peer(Direction::Left),
                    part: part2,
                    mask: r0,
                    left_of_target: false,
                },
            )
        } else {
            proof {
                crate::helpers::role::lemma_ring(to_helper);
            }
            ReshareRound::Done(Replicated::new(r0, r1))
        }
    }
}

/// The shares the three helpers end with when they reshare `x` towards the
/// helper at position `t` of the ring, from the pairs `r`.
pub open spec fn reshared(x: Seq<(int, int)>, r: Seq<(int, int)>, t: int, p: int) -> Seq<
    (int, int),
> {
    let l = (t + 2) % 3;
    let n = (t + 1) % 3;
    let part1 = part_of_left(x[l], r[l], p);
    let part2 = part_of_right(x[n], r[n], p);
    Seq::new(
        3,
        |i: int|
            if i == l {
                share_of_left(part1, part2, r[l], p)
            } else if i == n {
                share_of_right(part2, part1, r[n], p)
            } else {
                r[t]
            },
    )
}

/// What the three helpers end with is what `reshared` says: when each has
/// begun the reshare of its share with its pair, and the two neighbours of
/// the target swap their parts, the completed shares are `reshared(x, r)`.
pub proof fn lemma_rounds_reshare<F: Field>(
    rounds: Seq<ReshareRound<F>>,
    x: Seq<(int, int)>,
    r: Seq<(int, int)>,
    to: Role,
    anything: int,
)
    requires
        rounds.len() == 3,
        x.len() == 3,
        r.len() == 3,
        forall|h: int| 0 <= h < 3 ==> (#[trigger] rounds[h]).begun(role_at(h), to, x[h], r[h]),
    ensures
        ({
            let t = role_index(to);
            let l = (t + 2) % 3;
            let n = (t + 1) % 3;
            let z = reshared(x, r, t, F::prime());
            &&& rounds[t] is Done
            &&& rounds[l] matches ReshareRound::Exchange(el)
            &&& rounds[n] matches ReshareRound::Exchange(en)
            &&& el.spec_peer() == role_at(n)
            &&& en.spec_peer() == role_at(l)
            &&& rounds[t].completed(anything) == z[t]
            &&& rounds[l].completed(en.spec_part().as_int()) == z[l]
            &&& rounds[n].completed(el.spec_part().as_int()) == z[n]
        }),
{
    let t = role_index(to);
    let l = (t + 2) % 3;
    let n = (t + 1) % 3;
    assert(rounds[t].begun(role_at(t), to, x[t], r[t]));
    assert(rounds[l].begun(role_at(l), to, x[l], r[l]));
    assert(rounds[n].begun(role_at(n), to, x[n], r[n]));
}

/// Resharing keeps the secret: from a consistent sharing and correlated
/// pairs below the prime, the three new shares are consistent and open to
/// what the old ones opened to, whoever the target is.
pub proof fn lemma_reshare_keeps_secret(x: Seq<(int, int)>, r: Seq<(int, int)>, to: Role, p: int)
    requires
        p > 0,
        consistent(x),
        consistent(r),
    ensures
        consistent(reshared(x, r, role_index(to), p)),
        opened(reshared(x, r, role_index(to), p), p) == opened(x, p),
{
    let t = role_index(to);
    let l = (t + 2) % 3;
    let n = (t + 1) % 3;
    let z = reshared(x, r, t, p);
    let e1 = x[l].0 + x[l].1 - r[l].1;
    let e2 = x[n].0 - r[n].0;
    let part1 = e1 % p;
    let part2 = e2 % p;
    lemma_reduced(e1, p);
    lemma_reduced(e2, p);
    lemma_sum(part1, part2, e1, e2, p);
    lemma_sum(part2, part1, e2, e1, p);
    let s = (part1 + part2) % p;
    assert(s == (part2 + part1) % p);
    assert(z[l] == (s, r[l].1));
    assert(z[n] == (r[n].0, s));
    assert(z[t] == r[t]);
    lemma_reduced(e1 + e2, p);
    // the three left coordinates are s, r[t].0 and r[n].0, in some order
    lemma_sum(s, r[t].0 + r[n].0, e1 + e2, r[t].0 + r[n].0, p);
    assert(z[0].0 + z[1].0 + z[2].0 == s + r[t].0 + r[n].0);
    assert(e1 + e2 + r[t].0 + r[n].0 == x[0].0 + x[1].0 + x[2].0);
}

} // verus!
