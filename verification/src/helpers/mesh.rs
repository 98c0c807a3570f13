//! Field elements on the message plane: a value is sent as its canonical
//! bytes and read back from them.

use vstd::prelude::*;
use crate::error::Error;
use crate::ff::bytes::{le_bytes, le_value, lemma_le_bytes_len, lemma_le_roundtrip};
use crate::ff::Field;
use crate::helpers::gateway::Gateway;
use crate::helpers::role::Role;
use crate::protocol::context::Context;
use crate::protocol::step::{RecordId, TotalRecords};

verus! {

/// The totals that the channels of a context go by.
pub open spec fn channel_total(ctx: &Context) -> TotalRecords {
    match ctx.spec_total_records() {
        Some(t) => t,
        None => TotalRecords::Indeterminate,
    }
}

/// What the bytes at a slot mean as an element of `F`, if they mean one.
pub open spec fn decoded<F: Field>(awaited: Result<Seq<u8>, Error>) -> Result<int, Error> {
    match awaited {
        Ok(bytes) => if bytes.len() == F::size() && le_value(bytes) < F::prime() {
            Ok(le_value(bytes))
        } else {
            Err(Error::MalformedFrame)
        },
        Err(e) => Err(e),
    }
}

/// Sends `value` to `peer` at a record of the step of `ctx`.
pub fn send_field<F: Field>(
    gateway: &mut Gateway,
    ctx: &Context,
    peer: Role,
    record_id: RecordId,
    value: F,
) -> (r: Result<(), Error>)
    requires
        old(gateway).wf(),
    ensures
        final(gateway).wf(),
        Gateway::sent(
            *old(gateway),
            *final(gateway),
            peer,
            ctx.path(),
            channel_total(ctx),
            record_id@,
            le_bytes(value.as_int(), F::size()),
            r,
        ),
{
    gateway.send(peer, ctx.step(), ctx.total_records(), record_id, value.serialize())
}

/// Reads the value that `peer` sent at a record of the step of `ctx`.
pub fn receive_field<F: Field>(
    gateway: &mut Gateway,
    ctx: &Context,
    peer: Role,
    record_id: RecordId,
) -> (r: Result<F, Error>)
    requires
        old(gateway).wf(),
    ensures
        final(gateway).wf(),
        Gateway::read(*old(gateway), *final(gateway), peer, ctx.path(), record_id@),
        match r {
            Ok(x) => decoded::<F>(old(gateway).awaited(peer, ctx.path(), record_id@)) == Ok::<
                int,
                Error,
            >(x.as_int()),
            Err(e) => decoded::<F>(old(gateway).awaited(peer, ctx.path(), record_id@)) == Err::<
                int,
                Error,
            >(e),
        },
{
    match gateway.receive(peer, ctx.step(), record_id) {
        Ok(bytes) => F::deserialize(bytes.as_slice()),
        Err(e) => Err(e),
    }
}

/// What is sent is what is read: the bytes of an element decode to it.
pub proof fn lemma_wire_roundtrip<F: Field>(x: F)
    ensures
        decoded::<F>(Ok(le_bytes(x.as_int(), F::size()))) == Ok::<int, Error>(x.as_int()),
{
    F::lemma_modulus();
    F::lemma_canonical(x);
    lemma_le_bytes_len(x.as_int(), F::size());
    lemma_le_roundtrip(x.as_int(), F::size());
}

} // verus!
