//! Rounds on the message plane: what a round has to send goes out through
//! the gateway of the helper, on the channel of the step of the round, and
//! what it waits for is read from there.

use vstd::prelude::*;
use crate::error::Error;
use crate::ff::bytes::le_bytes;
use crate::ff::Field;
use crate::helpers::gateway::Gateway;
use crate::helpers::mesh::{channel_total, decoded, receive_field, send_field};
use crate::helpers::role::{spec_peer, Direction};
use crate::protocol::basics::mul::MulRound;
use crate::protocol::basics::reveal_share::{revealed, RevealRound};
use crate::protocol::context::Context;
use crate::protocol::sort::reshare::ReshareRound;
use crate::protocol::step::RecordId;
use crate::secret_sharing::replicated::Replicated;

verus! {

impl<F: Field> MulRound<F> {
    /// Sends the contribution of this helper to its right-hand neighbour.
    pub fn send(&self, gateway: &mut Gateway, ctx: &Context, record_id: RecordId) -> (r: Result<
        (),
        Error,
    >)
        requires
            old(gateway).wf(),
        ensures
            final(gateway).wf(),
            Gateway::sent(
                *old(gateway),
                *final(gateway),
                spec_peer(self.spec_role(), Direction::Right),
                ctx.path(),
                channel_total(ctx),
                record_id@,
                le_bytes(self.spec_own().as_int(), F::size()),
                r,
            ),
    {
        send_field(gateway, ctx, self.send_to(), record_id, self.message())
    }

    /// Reads the contribution of the left-hand neighbour and completes the
    /// share of the product with it.
    pub fn receive(self, gateway: &mut Gateway, ctx: &Context, record_id: RecordId) -> (r: Result<
        Replicated<F>,
        Error,
    >)
        requires
            old(gateway).wf(),
        ensures
            final(gateway).wf(),
            Gateway::read(
                *old(gateway),
                *final(gateway),
                spec_peer(self.spec_role(), Direction::Left),
                ctx.path(),
                record_id@,
            ),
            match r {
                Ok(share) => decoded::<F>(
                    old(gateway).awaited(
                        spec_peer(self.spec_role(), Direction::Left),
                        ctx.path(),
                        record_id@,
                    ),
                ) == Ok::<int, Error>(share.spec_left().as_int()) && share.spec_right()
                    == self.spec_own(),
                Err(e) => decoded::<F>(
                    old(gateway).awaited(
                        spec_peer(self.spec_role(), Direction::Left),
                        ctx.path(),
                        record_id@,
                    ),
                ) == Err::<int, Error>(e),
            },
    {
        match receive_field::<F>(gateway, ctx, self.receive_from(), record_id) {
            Ok(received) => Ok(self.finish(received)),
            Err(e) => Err(e),
        }
    }
}

impl<F: Field> RevealRound<F> {
    /// Sends the right coordinate of this helper to its left-hand neighbour.
    pub fn send(&self, gateway: &mut Gateway, ctx: &Context, record_id: RecordId) -> (r: Result<
        (),
        Error,
    >)
        requires
            old(gateway).wf(),
        ensures
            final(gateway).wf(),
            Gateway::sent(
                *old(gateway),
                *final(gateway),
                spec_peer(self.spec_role(), Direction::Left),
                ctx.path(),
                channel_total(ctx),
                record_id@,
                le_bytes(self.spec_share().spec_right().as_int(), F::size()),
                r,
            ),
    {
        send_field(gateway, ctx, self.send_to(), record_id, self.message())
    }

    /// Reads the coordinate that the right-hand neighbour sent and opens the
    /// value with it.
    pub fn receive(self, gateway: &mut Gateway, ctx: &Context, record_id: RecordId) -> (r: Result<
        F,
        Error,
    >)
        requires
            old(gateway).wf(),
        ensures
            final(gateway).wf(),
            Gateway::read(
                *old(gateway),
                *final(gateway),
                spec_peer(self.spec_role(), Direction::Right),
                ctx.path(),
                record_id@,
            ),
            match (
                r,
                decoded::<F>(
                    old(gateway).awaited(
                        spec_peer(self.spec_role(), Direction::Right),
                        ctx.path(),
                        record_id@,
                    ),
                ),
            ) {
                (Ok(value), Ok(received)) => value.as_int() == revealed(
                    self.spec_share().ints(),
                    received,
                    F::prime(),
                ),
                (Err(e), Err(refused)) => e == refused,
                _ => false,
            },
    {
        match receive_field::<F>(gateway, ctx, self.receive_from(), record_id) {
            Ok(received) => Ok(self.finish(received)),
            Err(e) => Err(e),
        }
    }
}

impl<F: Field> ReshareRound<F> {
    /// Sends the part of this helper to the other neighbour of the target.
    /// The target has nothing to send, and for it nothing changes.
    pub fn send(&self, gateway: &mut Gateway, ctx: &Context, record_id: RecordId) -> (r: Result<
        (),
        Error,
    >)
        requires
            old(gateway).wf(),
        ensures
            final(gateway).wf(),
            match *self {
                ReshareRound::Done(_) => r is Ok && *final(gateway) == *old(gateway),
                ReshareRound::Exchange(e) => Gateway::sent(
                    *old(gateway),
                    *final(gateway),
                    e.spec_peer(),
                    ctx.path(),
                    channel_total(ctx),
                    record_id@,
                    le_bytes(e.spec_part().as_int(), F::size()),
                    r,
                ),
            },
    {
        match self.outgoing() {
            Some((peer, part)) => send_field(gateway, ctx, peer, record_id, part),
            None => Ok(()),
        }
    }

    /// Reads the part of the other neighbour of the target and completes
    /// the new share with it. The target reads nothing: its share is ready.
    pub fn receive(self, gateway: &mut Gateway, ctx: &Context, record_id: RecordId) -> (r: Result<
        Replicated<F>,
        Error,
    >)
        requires
            old(gateway).wf(),
        ensures
            final(gateway).wf(),
            match self {
                ReshareRound::Done(share) => *final(gateway) == *old(gateway) && r == Ok::<
                    Replicated<F>,
                    Error,
                >(share),
                ReshareRound::Exchange(e) => {
                    &&& Gateway::read(
                        *old(gateway),
                        *final(gateway),
                        e.spec_peer(),
                        ctx.path(),
                        record_id@,
                    )
                    &&& match (
                        r,
                        decoded::<F>(old(gateway).awaited(e.spec_peer(), ctx.path(), record_id@)),
                    ) {
                        (Ok(share), Ok(received)) => share.ints() == self.completed(received),
                        (Err(e), Err(refused)) => e == refused,
                        _ => false,
                    }
                },
            },
    {
        match self {
            ReshareRound::Done(share) => Ok(share),
            ReshareRound::Exchange(e) => {
                match receive_field::<F>(gateway, ctx, e.peer(), record_id) {
                    Ok(received) => Ok(e.finish(received)),
                    Err(err) => Err(err),
                }
            },
        }
    }
}

} // verus!
