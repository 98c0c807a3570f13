//! The message plane of one helper: a sending and a receiving end for every
//! peer and step, addressed by record id.

use vstd::prelude::*;
use crate::error::Error;
use crate::helpers::buffer::{ReceiveBuffer, SendBuffer, SendBufferConfig};
use crate::helpers::role::Role;
use crate::protocol::step::{RecordId, Step, TotalRecords};

verus! {

/// How the gateway of a helper is set up.
#[derive(Debug, Clone, Copy, PartialEq, Eq, Structural)]
pub struct GatewayConfig {
    pub send_buffer_config: SendBufferConfig,
}

/// A batch on its way: the messages of consecutive records of one step,
/// starting at `first_record`. The record ids are not carried; a message is
/// addressed by its position in the batch.
pub struct Frame {
    pub step: Step,
    pub first_record: u32,
    pub items: Vec<Vec<u8>>,
}

/// What a frame carries.
pub struct FrameView {
    pub path: Seq<u8>,
    pub first_record: int,
    pub items: Seq<Seq<u8>>,
}

impl View for Frame {
    type V = FrameView;

    open spec fn view(&self) -> FrameView {
        FrameView {
            path: self.step@,
            first_record: self.first_record as int,
            items: Seq::new(self.items@.len(), |i: int| self.items@[i]@),
        }
    }
}

struct SendChannel {
    peer: Role,
    step: Step,
    buffer: SendBuffer,
}

struct ReceiveChannel {
    peer: Role,
    step: Step,
    buffer: ReceiveBuffer,
}

/// The channels of one helper. A channel comes into being with the first
/// message that is sent or delivered on it.
pub struct Gateway {
    role: Role,
    config: GatewayConfig,
    sending: Vec<SendChannel>,
    receiving: Vec<ReceiveChannel>,
}

impl Gateway {
    /// The helper this gateway belongs to.
    pub closed spec fn spec_role(&self) -> Role {
        self.role
    }

    pub closed spec fn spec_config(&self) -> GatewayConfig {
        self.config
    }

    spec fn send_slot(&self, peer: Role, path: Seq<u8>) -> Option<int> {
        if exists|i: int| self.sends_on(i, peer, path) {
            Some(choose|i: int| self.sends_on(i, peer, path))
        } else {
            None
        }
    }

    spec fn sends_on(&self, i: int, peer: Role, path: Seq<u8>) -> bool {
        0 <= i < self.sending@.len() && self.sending@[i].peer == peer && self.sending@[i].step@
            == path
    }

    spec fn receive_slot(&self, peer: Role, path: Seq<u8>) -> Option<int> {
        if exists|i: int| self.receives_on(i, peer, path) {
            Some(choose|i: int| self.receives_on(i, peer, path))
        } else {
            None
        }
    }

    spec fn receives_on(&self, i: int, peer: Role, path: Seq<u8>) -> bool {
        0 <= i < self.receiving@.len() && self.receiving@[i].peer == peer
            && self.receiving@[i].step@ == path
    }

    /// The sending end towards `peer` on the step `path`, if it exists.
    pub closed spec fn sender(&self, peer: Role, path: Seq<u8>) -> Option<SendBuffer> {
        match self.send_slot(peer, path) {
            Some(i) => Some(self.sending@[i].buffer),
            None => None,
        }
    }

    /// The receiving end from `peer` on the step `path`, if it exists.
    pub closed spec fn receiver(&self, peer: Role, path: Seq<u8>) -> Option<ReceiveBuffer> {
        match self.receive_slot(peer, path) {
            Some(i) => Some(self.receiving@[i].buffer),
            None => None,
        }
    }

    /// No two channels of a kind have the same peer and step, and every
    /// sending end is well formed.
    pub closed spec fn wf(&self) -> bool {
        &&& self.config.send_buffer_config.valid()
        &&& self.senders_distinct()
        &&& self.receivers_distinct()
        &&& forall|i: int|
            0 <= i < self.sending@.len() ==> {
                &&& (#[trigger] self.sending@[i]).buffer.wf()
                &&& self.sending@[i].buffer.capacity() == self.config.send_buffer_config.capacity()
                &&& self.sending@[i].buffer.batch() == self.config.send_buffer_config.items_in_batch
            }
    }

    /// The message that waits to leave for `peer` at a record of a step.
    pub open spec fn pending(&self, peer: Role, path: Seq<u8>, record: int) -> Option<Seq<u8>> {
        match self.sender(peer, path) {
            Some(b) => b.pending(record),
            None => None,
        }
    }

    /// The first record of a step that has not left for `peer` yet.
    pub open spec fn send_base(&self, peer: Role, path: Seq<u8>) -> int {
        match self.sender(peer, path) {
            Some(b) => b.base(),
            None => 0,
        }
    }

    /// The message from `peer` that waits to be read at a record of a step.
    pub open spec fn arrived(&self, peer: Role, path: Seq<u8>, record: int) -> Option<Seq<u8>> {
        match self.receiver(peer, path) {
            Some(b) => b.arrived(record),
            None => None,
        }
    }

    /// Whether the message from `peer` at a record of a step was read.
    pub open spec fn consumed(&self, peer: Role, path: Seq<u8>, record: int) -> bool {
        match self.receiver(peer, path) {
            Some(b) => b.consumed(record),
            None => false,
        }
    }

    /// Why a message cannot be accepted for sending, if it cannot. On a
    /// channel that does not exist yet, only the total and the size of the
    /// window can stand in the way.
    pub open spec fn send_refusal(
        &self,
        peer: Role,
        path: Seq<u8>,
        total: TotalRecords,
        record: int,
        len: int,
    ) -> Option<Error> {
        match self.sender(peer, path) {
            Some(b) => b.refusal(record, len),
            None => if total matches TotalRecords::Specified(n) && record >= n {
                Some(Error::TotalRecordsExceeded)
            } else if record >= self.spec_config().send_buffer_config.capacity() {
                Some(Error::Backpressure)
            } else {
                None
            },
        }
    }

    /// Why a frame from `peer` cannot be taken in, if it cannot.
    pub open spec fn deliver_refusal(&self, peer: Role, path: Seq<u8>, first: int, len: int)
        -> Option<Error> {
        match self.receiver(peer, path) {
            Some(b) => b.refusal(first, len),
            None => if first + len > 0x1_0000_0000 {
                Some(Error::MalformedFrame)
            } else {
                None
            },
        }
    }

    /// What accepting, or refusing, a message for `peer` does to a gateway.
    /// Only the one slot changes, and only if the message is accepted.
    pub open spec fn sent(
        before: Gateway,
        after: Gateway,
        peer: Role,
        path: Seq<u8>,
        total: TotalRecords,
        record: int,
        message: Seq<u8>,
        outcome: Result<(), Error>,
    ) -> bool {
        &&& after.spec_role() == before.spec_role()
        &&& after.spec_config() == before.spec_config()
        &&& forall|p: Role, s: Seq<u8>| after.receiver(p, s) == before.receiver(p, s)
        &&& forall|p: Role, s: Seq<u8>|
            !(p == peer && s == path) ==> after.sender(p, s) == before.sender(p, s)
        &&& after.send_base(peer, path) == before.send_base(peer, path)
        &&& forall|other: int|
            other != record ==> after.pending(peer, path, other) == before.pending(
                peer,
                path,
                other,
            )
        &&& match outcome {
            Ok(()) => {
                &&& before.send_refusal(peer, path, total, record, message.len() as int) is None
                &&& after.pending(peer, path, record) == Some(message)
            },
            Err(e) => {
                &&& before.send_refusal(peer, path, total, record, message.len() as int) == Some(e)
                &&& after.sender(peer, path) is Some == before.sender(peer, path) is Some
                &&& after.pending(peer, path, record) == before.pending(peer, path, record)
            },
        }
    }

    /// What reading the slot of a record gives: the message that arrived
    /// there; a collision if the slot was read before; else the news that the
    /// peer is gone.
    pub open spec fn awaited(&self, peer: Role, path: Seq<u8>, record: int) -> Result<
        Seq<u8>,
        Error,
    > {
        match self.arrived(peer, path, record) {
            Some(m) => Ok(m),
            None => if self.consumed(peer, path, record) {
                Err(Error::RecordCollision)
            } else {
                Err(Error::PeerDisconnected)
            },
        }
    }

    /// What reading the slot of a record does to a gateway: the slot is
    /// empty afterwards, and counts as read if there was a message in it.
    pub open spec fn read(before: Gateway, after: Gateway, peer: Role, path: Seq<u8>, record: int)
        -> bool {
        &&& after.spec_role() == before.spec_role()
        &&& after.spec_config() == before.spec_config()
        &&& forall|p: Role, s: Seq<u8>| after.sender(p, s) == before.sender(p, s)
        &&& forall|p: Role, s: Seq<u8>|
            !(p == peer && s == path) ==> after.receiver(p, s) == before.receiver(p, s)
        &&& forall|other: int|
            other != record ==> after.arrived(peer, path, other) == before.arrived(
                peer,
                path,
                other,
            ) && after.consumed(peer, path, other) == before.consumed(peer, path, other)
        &&& after.arrived(peer, path, record) is None
        &&& after.consumed(peer, path, record) == (before.consumed(peer, path, record)
            || before.arrived(peer, path, record) is Some)
    }

    /// A gateway without channels.
    pub fn new(role: Role, config: GatewayConfig) -> (g: Gateway)
        requires
            config.send_buffer_config.valid(),
        ensures
            g.wf(),
            g.spec_role() == role,
            g.spec_config() == config,
            forall|peer: Role, path: Seq<u8>| g.sender(peer, path) is None,
            forall|peer: Role, path: Seq<u8>| g.receiver(peer, path) is None,
    {
        Gateway { role, config, sending: Vec::new(), receiving: Vec::new() }
    }

    /// The helper this gateway belongs to.
    pub fn role(&self) -> (role: Role)
        ensures
            role == self.spec_role(),
    {
        self.role
    }

    fn find_sender(&self, peer: Role, step: &Step) -> (found: Option<usize>)
        requires
            self.wf(),
        ensures
            match found {
                Some(i) => self.send_slot(peer, step@) == Some(i as int) && self.sends_on(
                    i as int,
                    peer,
                    step@,
                ),
                None => self.send_slot(peer, step@) is None && forall|i: int|
                    !self.sends_on(i, peer, step@),
            },
    {
        let mut i: usize = 0;
        while i < self.sending.len()
            invariant
                i <= self.sending@.len(),
                self.senders_distinct(),
                forall|k: int| 0 <= k < i ==> !self.sends_on(k, peer, step@),
            decreases self.sending@.len() - i,
        {
            if self.sending[i].peer.is(peer) && self.sending[i].step.same(step) {
                proof {
                    self.lemma_sender_found(i as int, peer, step@);
                }
                return Some(i);
            }
            i = i + 1;
        }
        None
    }

    fn find_receiver(&self, peer: Role, step: &Step) -> (found: Option<usize>)
        requires
            self.wf(),
        ensures
            match found {
                Some(i) => self.receive_slot(peer, step@) == Some(i as int) && self.receives_on(
                    i as int,
                    peer,
                    step@,
                ),
                None => self.receive_slot(peer, step@) is None && forall|i: int|
                    !self.receives_on(i, peer, step@),
            },
    {
        let mut i: usize = 0;
        while i < self.receiving.len()
            invariant
                i <= self.receiving@.len(),
                self.receivers_distinct(),
                forall|k: int| 0 <= k < i ==> !self.receives_on(k, peer, step@),
            decreases self.receiving@.len() - i,
        {
            if self.receiving[i].peer.is(peer) && self.receiving[i].step.same(step) {
                proof {
                    self.lemma_receiver_found(i as int, peer, step@);
                }
                return Some(i);
            }
            i = i + 1;
        }
        None
    }

    /// The keys of the sending channels are distinct.
    spec fn senders_distinct(&self) -> bool {
        forall|i: int, j: int|
            0 <= i < self.sending@.len() && 0 <= j < self.sending@.len() && i != j ==> !((
            #[trigger] self.sending@[i]).peer == (#[trigger] self.sending@[j]).peer
                && self.sending@[i].step@ == self.sending@[j].step@)
    }

    /// The keys of the receiving channels are distinct.
    spec fn receivers_distinct(&self) -> bool {
        forall|i: int, j: int|
            0 <= i < self.receiving@.len() && 0 <= j < self.receiving@.len() && i != j ==> !((
            #[trigger] self.receiving@[i]).peer == (#[trigger] self.receiving@[j]).peer
                && self.receiving@[i].step@ == self.receiving@[j].step@)
    }

    proof fn lemma_sender_found(&self, i: int, peer: Role, path: Seq<u8>)
        requires
            self.senders_distinct(),
            self.sends_on(i, peer, path),
        ensures
            self.send_slot(peer, path) == Some(i),
    {
        let c = choose|c: int| self.sends_on(c, peer, path);
        assert(self.sends_on(c, peer, path));
        if c != i {
            assert(self.sending@[c].peer == self.sending@[i].peer);
        }
    }

    proof fn lemma_receiver_found(&self, i: int, peer: Role, path: Seq<u8>)
        requires
            self.receivers_distinct(),
            self.receives_on(i, peer, path),
        ensures
            self.receive_slot(peer, path) == Some(i),
    {
        let c = choose|c: int| self.receives_on(c, peer, path);
        assert(self.receives_on(c, peer, path));
        if c != i {
            assert(self.receiving@[c].peer == self.receiving@[i].peer);
        }
    }

    /// Between two states whose sending channels have the same peers and
    /// steps, a channel is found at the same place.
    proof fn lemma_send_slots_kept(&self, after: &Gateway)
        requires
            self.wf(),
            after.sending@.len() >= self.sending@.len(),
            forall|i: int|
                0 <= i < self.sending@.len() ==> (#[trigger] after.sending@[i]).peer
                    == self.sending@[i].peer && after.sending@[i].step@ == self.sending@[i].step@,
            after.senders_distinct(),
        ensures
            forall|peer: Role, path: Seq<u8>| #[trigger]
                self.send_slot(peer, path) is Some ==> after.send_slot(peer, path)
                    == self.send_slot(peer, path),
            forall|peer: Role, path: Seq<u8>|
                after.sending@.len() == self.sending@.len() ==> #[trigger] after.send_slot(
                    peer,
                    path,
                ) == self.send_slot(peer, path),
    {
        assert forall|peer: Role, path: Seq<u8>| #[trigger]
            self.send_slot(peer, path) is Some implies after.send_slot(peer, path)
            == self.send_slot(peer, path) by {
            let i = choose|i: int| self.sends_on(i, peer, path);
            assert(after.sends_on(i, peer, path));
            after.lemma_sender_found(i, peer, path);
        }
        assert forall|peer: Role, path: Seq<u8>|
            after.sending@.len() == self.sending@.len() implies #[trigger] after.send_slot(
            peer,
            path,
        ) == self.send_slot(peer, path) by {
            if after.send_slot(peer, path) is Some {
                let j = choose|j: int| after.sends_on(j, peer, path);
                assert(self.sends_on(j, peer, path));
                self.lemma_sender_found(j, peer, path);
            }
        }
    }

    proof fn lemma_receive_slots_kept(&self, after: &Gateway)
        requires
            self.wf(),
            after.receiving@.len() >= self.receiving@.len(),
            forall|i: int|
                0 <= i < self.receiving@.len() ==> (#[trigger] after.receiving@[i]).peer
                    == self.receiving@[i].peer && after.receiving@[i].step@
                    == self.receiving@[i].step@,
            after.receivers_distinct(),
        ensures
            forall|peer: Role, path: Seq<u8>| #[trigger]
                self.receive_slot(peer, path) is Some ==> after.receive_slot(peer, path)
                    == self.receive_slot(peer, path),
            forall|peer: Role, path: Seq<u8>|
                after.receiving@.len() == self.receiving@.len() ==> #[trigger] after.receive_slot(
                    peer,
                    path,
                ) == self.receive_slot(peer, path),
    {
        assert forall|peer: Role, path: Seq<u8>| #[trigger]
            self.receive_slot(peer, path) is Some implies after.receive_slot(peer, path)
            == self.receive_slot(peer, path) by {
            let i = choose|i: int| self.receives_on(i, peer, path);
            assert(after.receives_on(i, peer, path));
            after.lemma_receiver_found(i, peer, path);
        }
        assert forall|peer: Role, path: Seq<u8>|
            after.receiving@.len() == self.receiving@.len() implies #[trigger] after.receive_slot(
            peer,
            path,
        ) == self.receive_slot(peer, path) by {
            if after.receive_slot(peer, path) is Some {
                let j = choose|j: int| after.receives_on(j, peer, path);
                assert(self.receives_on(j, peer, path));
                self.lemma_receiver_found(j, peer, path);
            }
        }
    }

    /// When one sending channel changed its buffer and nothing else did,
    /// every channel is found where it was and the others are as they were.
    proof fn lemma_sending_touched(&self, after: &Gateway, i: int)
        requires
            self.wf(),
            0 <= i < self.sending@.len(),
            after.role == self.role,
            after.config == self.config,
            after.receiving@ == self.receiving@,
            after.sending@.len() == self.sending@.len(),
            forall|k: int|
                0 <= k < self.sending@.len() && k != i ==> #[trigger] after.sending@[k]
                    == self.sending@[k],
            after.sending@[i].peer == self.sending@[i].peer,
            after.sending@[i].step == self.sending@[i].step,
            after.sending@[i].buffer.wf(),
            after.sending@[i].buffer.capacity() == self.sending@[i].buffer.capacity(),
            after.sending@[i].buffer.batch() == self.sending@[i].buffer.batch(),
        ensures
            after.wf(),
            forall|p: Role, s: Seq<u8>| after.receiver(p, s) == self.receiver(p, s),
            forall|p: Role, s: Seq<u8>|
                !(p == self.sending@[i].peer && s == self.sending@[i].step@) ==> after.sender(p, s)
                    == self.sender(p, s),
            self.sender(self.sending@[i].peer, self.sending@[i].step@) == Some(
                self.sending@[i].buffer,
            ),
            after.sender(self.sending@[i].peer, self.sending@[i].step@) == Some(
                after.sending@[i].buffer,
            ),
    {
        assert(after.senders_distinct()) by {
            assert forall|a: int, b: int|
                0 <= a < after.sending@.len() && 0 <= b < after.sending@.len() && a
                    != b implies !((#[trigger] after.sending@[a]).peer == (
            #[trigger] after.sending@[b]).peer && after.sending@[a].step@
                == after.sending@[b].step@) by {
                assert(after.sending@[a].peer == self.sending@[a].peer);
                assert(after.sending@[b].peer == self.sending@[b].peer);
                assert(after.sending@[a].step@ == self.sending@[a].step@);
                assert(after.sending@[b].step@ == self.sending@[b].step@);
            }
        }
        assert(after.receivers_distinct());
        assert forall|k: int| 0 <= k < after.sending@.len() implies (
        #[trigger] after.sending@[k]).buffer.wf() && after.sending@[k].buffer.capacity()
            == after.config.send_buffer_config.capacity() && after.sending@[k].buffer.batch()
            == after.config.send_buffer_config.items_in_batch by {
            if k != i {
                assert(after.sending@[k] == self.sending@[k]);
            }
        }
        self.lemma_send_slots_kept(after);
        self.lemma_receive_slots_kept(after);
        let peer = self.sending@[i].peer;
        let path = self.sending@[i].step@;
        assert(self.sends_on(i, peer, path));
        assert(after.sends_on(i, peer, path));
        self.lemma_sender_found(i, peer, path);
        after.lemma_sender_found(i, peer, path);
        assert forall|p: Role, s: Seq<u8>| !(p == peer && s == path) implies after.sender(p, s)
            == self.sender(p, s) by {
            if self.send_slot(p, s) is Some {
                let j = choose|j: int| self.sends_on(j, p, s);
                assert(self.sends_on(j, p, s));
                assert(j != i);
            }
        }
    }

    /// When one receiving channel changed its buffer and nothing else did,
    /// every channel is found where it was and the others are as they were.
    proof fn lemma_receiving_touched(&self, after: &Gateway, i: int)
        requires
            self.wf(),
            0 <= i < self.receiving@.len(),
            after.role == self.role,
            after.config == self.config,
            after.sending@ == self.sending@,
            after.receiving@.len() == self.receiving@.len(),
            forall|k: int|
                0 <= k < self.receiving@.len() && k != i ==> #[trigger] after.receiving@[k]
                    == self.receiving@[k],
            after.receiving@[i].peer == self.receiving@[i].peer,
            after.receiving@[i].step == self.receiving@[i].step,
        ensures
            after.wf(),
            forall|p: Role, s: Seq<u8>| after.sender(p, s) == self.sender(p, s),
            forall|p: Role, s: Seq<u8>|
                !(p == self.receiving@[i].peer && s == self.receiving@[i].step@)
                    ==> after.receiver(p, s) == self.receiver(p, s),
            self.receiver(self.receiving@[i].peer, self.receiving@[i].step@) == Some(
                self.receiving@[i].buffer,
            ),
            after.receiver(self.receiving@[i].peer, self.receiving@[i].step@) == Some(
                after.receiving@[i].buffer,
            ),
    {
        assert(after.receivers_distinct()) by {
            assert forall|a: int, b: int|
                0 <= a < after.receiving@.len() && 0 <= b < after.receiving@.len() && a
                    != b implies !((#[trigger] after.receiving@[a]).peer == (
            #[trigger] after.receiving@[b]).peer && after.receiving@[a].step@
                == after.receiving@[b].step@) by {
                assert(after.receiving@[a].peer == self.receiving@[a].peer);
                assert(after.receiving@[b].peer == self.receiving@[b].peer);
                assert(after.receiving@[a].step@ == self.receiving@[a].step@);
                assert(after.receiving@[b].step@ == self.receiving@[b].step@);
            }
        }
        assert(after.senders_distinct());
        self.lemma_send_slots_kept(after);
        self.lemma_receive_slots_kept(after);
        let peer = self.receiving@[i].peer;
        let path = self.receiving@[i].step@;
        assert(self.receives_on(i, peer, path));
        assert(after.receives_on(i, peer, path));
        self.lemma_receiver_found(i, peer, path);
        after.lemma_receiver_found(i, peer, path);
        assert forall|p: Role, s: Seq<u8>| !(p == peer && s == path) implies after.receiver(p, s)
            == self.receiver(p, s) by {
            if self.receive_slot(p, s) is Some {
                let j = choose|j: int| self.receives_on(j, p, s);
                assert(self.receives_on(j, p, s));
                assert(j != i);
            }
        }
    }

    /// Accepts a message for `peer` at a record of a step. Returns when the
    /// message is in the window of its channel; a message that cannot be
    /// accepted changes nothing.
    pub fn send(
        &mut self,
        peer: Role,
        step: &Step,
        total: TotalRecords,
        record_id: RecordId,
        message: Vec<u8>,
    ) -> (r: Result<(), Error>)
        requires
            old(self).wf(),
        ensures
            final(self).wf(),
            Gateway::sent(
                *old(self),
                *final(self),
                peer,
                step@,
                total,
                record_id@,
                message@,
                r,
            ),
    {
        let record: u32 = record_id.as_u32();
        match self.find_sender(peer, step) {
            Some(i) => {
                let r = self.sending[i].buffer.insert(record, message);
                proof {
                    old(self).lemma_sending_touched(self, i as int);
                }
                r
            },
            None => {
                match total {
                    TotalRecords::Specified(n) => {
                        if record >= n {
                            return Err(Error::TotalRecordsExceeded);
                        }
                    },
                    TotalRecords::Indeterminate => {},
                }
                let mut buffer = SendBuffer::new(
                    self.config.send_buffer_config,
                    message.len(),
                    total,
                );
                let r = buffer.insert(record, message);
                match r {
                    Ok(()) => {
                        self.sending.push(SendChannel { peer, step: step.duplicate(), buffer });
                        proof {
                            let n = old(self).sending@.len() as int;
                            assert(self.sends_on(n, peer, step@));
                            assert(self.senders_distinct()) by {
                                assert forall|i: int, j: int|
                                    0 <= i < self.sending@.len() && 0 <= j < self.sending@.len()
                                        && i != j implies !((#[trigger] self.sending@[i]).peer == (
                                #[trigger] self.sending@[j]).peer && self.sending@[i].step@
                                    == self.sending@[j].step@) by {
                                    if i == n {
                                        assert(!old(self).sends_on(j, peer, step@));
                                    } else if j == n {
                                        assert(!old(self).sends_on(i, peer, step@));
                                    } else {
                                        assert(self.sending@[i] == old(self).sending@[i]);
                                        assert(self.sending@[j] == old(self).sending@[j]);
                                    }
                                }
                            }
                            self.lemma_sender_found(n, peer, step@);
                            old(self).lemma_send_slots_kept(self);
                            assert(self.receivers_distinct());
                            old(self).lemma_receive_slots_kept(self);
                            assert forall|p: Role, s: Seq<u8>| !(p == peer && s == step@) implies self.sender(
                                p,
                                s,
                            ) == old(self).sender(p, s) by {
                                if self.send_slot(p, s) is Some {
                                    let j = choose|j: int| self.sends_on(j, p, s);
                                    assert(self.sends_on(j, p, s));
                                    assert(j < n);
                                    assert(old(self).sends_on(j, p, s));
                                }
                            }
                        }
                        Ok(())
                    },
                    Err(e) => {
                        Err(e)
                    },
                }
            },
        }
    }

    /// Takes the next batch that is ready to leave, on any channel: a
    /// complete batch, or with `flush` whatever waits without a gap at the
    /// start of a window. The batch comes with the peer it is for.
    pub fn next_frame(&mut self, flush: bool) -> (out: Option<(Role, Frame)>)
        requires
            old(self).wf(),
        ensures
            final(self).wf(),
            final(self).spec_role() == old(self).spec_role(),
            final(self).spec_config() == old(self).spec_config(),
            forall|p: Role, s: Seq<u8>| final(self).receiver(p, s) == old(self).receiver(p, s),
            match out {
                Some((peer, frame)) => {
                    &&& old(self).sender(peer, frame.step@) matches Some(before)
                    &&& final(self).sender(peer, frame.step@) matches Some(after)
                    &&& before.leaving(flush) > 0
                    &&& frame.items@.len() == before.leaving(flush)
                    &&& frame.first_record == before.base()
                    &&& after.base() == before.base() + before.leaving(flush)
                    &&& forall|k: int|
                        0 <= k < frame.items@.len() ==> before.pending(before.base() + k) == Some(
                            (#[trigger] frame.items@[k])@,
                        )
                    &&& forall|r: int| r >= after.base() ==> after.pending(r) == before.pending(r)
                    &&& forall|r: int| r < after.base() ==> after.pending(r) is None
                    &&& forall|p: Role, s: Seq<u8>|
                        !(p == peer && s == frame.step@) ==> final(self).sender(p, s) == old(
                            self,
                        ).sender(p, s)
                },
                None => {
                    &&& forall|p: Role, s: Seq<u8>| final(self).sender(p, s) == old(self).sender(p, s)
                    &&& forall|p: Role, s: Seq<u8>|
                        (#[trigger] old(self).sender(p, s)) matches Some(b) ==> b.leaving(flush)
                            == 0
                },
            },
    {
        let mut i: usize = 0;
        while i < self.sending.len()
            invariant
                i <= self.sending@.len(),
                self.role == old(self).role,
                self.config == old(self).config,
                self.receiving@ == old(self).receiving@,
                self.sending@ == old(self).sending@,
                old(self).wf(),
                self.wf(),
                forall|k: int| 0 <= k < i ==> (#[trigger] self.sending@[k]).buffer.leaving(flush) == 0,
            decreases self.sending@.len() - i,
        {
            let first: u64 = self.sending[i].buffer.first();
            let ghost before = self.sending@[i as int].buffer;
            match self.sending[i].buffer.take(flush) {
                Some(items) => {
                    let peer: Role = self.sending[i].peer;
                    let step = self.sending[i].step.duplicate();
                    proof {
                        old(self).lemma_sending_touched(self, i as int);
                        assert(old(self).sends_on(i as int, peer, step@));
                        old(self).lemma_sender_found(i as int, peer, step@);
                        assert(before.pending(before.base() + 0) == Some(items@[0]@));
                        before.lemma_pending_in_range(before.base());
                    }
                    return Some((peer, Frame { step, first_record: first as u32, items }));
                },
                None => {
                    assert(self.sending@[i as int].buffer == before);
                    assert(self.sending@[i as int] == old(self).sending@[i as int]);
                    assert(self.sending@ =~= old(self).sending@);
                },
            }
            i = i + 1;
        }
        proof {
            old(self).lemma_send_slots_kept(self);
            old(self).lemma_receive_slots_kept(self);
            assert forall|p: Role, s: Seq<u8>| (#[trigger] old(self).sender(p, s)) is Some implies old(
                self,
            ).sender(p, s).unwrap().leaving(flush) == 0 by {
                let j = choose|j: int| old(self).sends_on(j, p, s);
                assert(old(self).sends_on(j, p, s));
                assert(self.sending@[j].buffer.leaving(flush) == 0);
            }
        }
        None
    }

    /// Takes in a frame that `peer` sent. Its messages arrive at the records
    /// `first_record`, `first_record + 1`, ... of the step of the frame; a
    /// frame that cannot be taken in changes nothing.
    pub fn deliver(&mut self, peer: Role, frame: Frame) -> (r: Result<(), Error>)
        requires
            old(self).wf(),
        ensures
            final(self).wf(),
            final(self).spec_role() == old(self).spec_role(),
            final(self).spec_config() == old(self).spec_config(),
            forall|p: Role, s: Seq<u8>| final(self).sender(p, s) == old(self).sender(p, s),
            forall|p: Role, s: Seq<u8>|
                !(p == peer && s == frame.step@) ==> final(self).receiver(p, s) == old(
                    self,
                ).receiver(p, s),
            forall|rec: int|
                final(self).consumed(peer, frame.step@, rec) == old(self).consumed(
                    peer,
                    frame.step@,
                    rec,
                ),
            match r {
                Ok(()) => {
                    &&& old(self).deliver_refusal(
                        peer,
                        frame.step@,
                        frame.first_record as int,
                        frame.items@.len() as int,
                    ) is None
                    &&& forall|k: int|
                        0 <= k < frame.items@.len() ==> final(self).arrived(
                            peer,
                            frame.step@,
                            frame.first_record + k,
                        ) == Some((#[trigger] frame.items@[k])@)
                    &&& forall|rec: int|
                        !(frame.first_record <= rec < frame.first_record + frame.items@.len())
                            ==> final(self).arrived(peer, frame.step@, rec) == old(self).arrived(
                            peer,
                            frame.step@,
                            rec,
                        )
                },
                Err(e) => {
                    &&& old(self).deliver_refusal(
                        peer,
                        frame.step@,
                        frame.first_record as int,
                        frame.items@.len() as int,
                    ) == Some(e)
                    &&& forall|rec: int|
                        final(self).arrived(peer, frame.step@, rec) == old(self).arrived(
                            peer,
                            frame.step@,
                            rec,
                        )
                },
            },
    {
        let Frame { step, first_record, items } = frame;
        match self.find_receiver(peer, &step) {
            Some(i) => {
                let r = self.receiving[i].buffer.deliver(first_record, items);
                proof {
                    old(self).lemma_receiving_touched(self, i as int);
                }
                r
            },
            None => {
                let mut buffer = ReceiveBuffer::new();
                let ghost fresh = buffer;
                let ghost len = items@.len() as int;
                let r = buffer.deliver(first_record, items);
                proof {
                    if first_record + len <= 0x1_0000_0000 {
                        assert(!exists|rec: int|
                            first_record <= rec < first_record + len && !#[trigger] fresh.free(
                                rec,
                            ));
                    }
                }
                match r {
                    Ok(()) => {
                        proof {
                            assert forall|rec: int| !buffer.consumed(rec) by {
                                assert(fresh.free(rec));
                            }
                            assert forall|rec: int|
                                !(first_record <= rec < first_record + len) implies buffer.arrived(
                                rec,
                            ) is None by {
                                assert(fresh.free(rec));
                            }
                        }
                        self.receiving.push(ReceiveChannel { peer, step, buffer });
                        proof {
                            let n = old(self).receiving@.len() as int;
                            assert(self.receives_on(n, peer, step@));
                            assert(self.receivers_distinct()) by {
                                assert forall|i: int, j: int|
                                    0 <= i < self.receiving@.len() && 0 <= j
                                        < self.receiving@.len() && i != j implies !((
                                #[trigger] self.receiving@[i]).peer == (
                                #[trigger] self.receiving@[j]).peer && self.receiving@[i].step@
                                    == self.receiving@[j].step@) by {
                                    if i == n {
                                        assert(!old(self).receives_on(j, peer, step@));
                                    } else if j == n {
                                        assert(!old(self).receives_on(i, peer, step@));
                                    } else {
                                        assert(self.receiving@[i] == old(self).receiving@[i]);
                                        assert(self.receiving@[j] == old(self).receiving@[j]);
                                    }
                                }
                            }
                            self.lemma_receiver_found(n, peer, step@);
                            old(self).lemma_receive_slots_kept(self);
                            assert(self.senders_distinct());
                            old(self).lemma_send_slots_kept(self);
                            assert forall|p: Role, s: Seq<u8>|
                                !(p == peer && s == step@) implies self.receiver(p, s) == old(
                                self,
                            ).receiver(p, s) by {
                                if self.receive_slot(p, s) is Some {
                                    let j = choose|j: int| self.receives_on(j, p, s);
                                    assert(self.receives_on(j, p, s));
                                    assert(j < n);
                                    assert(old(self).receives_on(j, p, s));
                                }
                            }
                        }
                        Ok(())
                    },
                    Err(e) => Err(e),
                }
            },
        }
    }

    /// Reads the message that `peer` sent at a record of a step.
    ///
    /// The message is exactly what was delivered at that slot. Reading a
    /// slot twice is a collision; a slot at which nothing has arrived means
    /// that the peer is gone.
    pub fn receive(&mut self, peer: Role, step: &Step, record_id: RecordId) -> (r: Result<
        Vec<u8>,
        Error,
    >)
        requires
            old(self).wf(),
        ensures
            final(self).wf(),
            Gateway::read(*old(self), *final(self), peer, step@, record_id@),
            match r {
                Ok(m) => old(self).awaited(peer, step@, record_id@) == Ok::<Seq<u8>, Error>(m@),
                Err(e) => old(self).awaited(peer, step@, record_id@) == Err::<Seq<u8>, Error>(e),
            },
    {
        match self.find_receiver(peer, step) {
            Some(i) => {
                let r = self.receiving[i].buffer.take(record_id.as_u32());
                proof {
                    old(self).lemma_receiving_touched(self, i as int);
                }
                r
            },
            None => Err(Error::PeerDisconnected),
        }
    }
}

} // verus!
