//! Three transports in one process, joined in a ring.
//!
//! The network owns the three transports. A helper refers to its transport
//! by a handle that owns nothing, so that the ring holds no cycle of
//! ownership.

use vstd::prelude::*;
use crate::error::Error;
use crate::helpers::gateway::{Frame, FrameView};
use crate::helpers::role::HelperIdentity;

verus! {

/// A frame in the inbox of a transport, with the helper that sent it.
pub struct Envelope {
    pub from: HelperIdentity,
    pub frame: Frame,
}

/// The transport of one helper: its identity and the frames that wait for
/// it, oldest first.
pub struct InMemoryTransport {
    identity: HelperIdentity,
    inbox: Vec<Envelope>,
}

impl InMemoryTransport {
    pub closed spec fn spec_identity(&self) -> HelperIdentity {
        self.identity
    }

    /// The frames that wait, oldest first, each with its sender.
    pub closed spec fn inbox(&self) -> Seq<(HelperIdentity, FrameView)> {
        Seq::new(self.inbox@.len(), |i: int| (self.inbox@[i].from, self.inbox@[i].frame@))
    }

    /// A transport with nothing waiting.
    pub fn with_stub_callbacks(identity: HelperIdentity) -> (t: InMemoryTransport)
        ensures
            t.spec_identity() == identity,
            t.inbox() == Seq::<(HelperIdentity, FrameView)>::empty(),
    {
        let t = InMemoryTransport { identity, inbox: Vec::new() };
        assert(t.inbox() =~= Seq::<(HelperIdentity, FrameView)>::empty());
        t
    }

    pub fn identity(&self) -> (id: HelperIdentity)
        ensures
            id == self.spec_identity(),
    {
        self.identity
    }

    fn push(&mut self, from: HelperIdentity, frame: Frame)
        ensures
            final(self).spec_identity() == old(self).spec_identity(),
            final(self).inbox() == old(self).inbox().push((from, frame@)),
    {
        self.inbox.push(Envelope { from, frame });
        assert(self.inbox() =~= old(self).inbox().push((from, frame@)));
    }

    fn pop(&mut self) -> (out: Option<(HelperIdentity, Frame)>)
        ensures
            final(self).spec_identity() == old(self).spec_identity(),
            match out {
                Some((from, frame)) => old(self).inbox().len() > 0 && old(self).inbox()[0] == (
                    from,
                    frame@,
                ) && final(self).inbox() == old(self).inbox().skip(1),
                None => old(self).inbox().len() == 0 && final(self).inbox() == old(self).inbox(),
            },
    {
        if self.inbox.len() == 0 {
            return None;
        }
        let Envelope { from, frame } = self.inbox.remove(0);
        assert(self.inbox() =~= old(self).inbox().skip(1));
        Some((from, frame))
    }
}

/// A reference to the transport of a helper that owns nothing.
#[derive(Debug, Clone, Copy, PartialEq, Eq, Structural)]
pub struct TransportHandle {
    pub identity: HelperIdentity,
}

/// Container for all active transports.
pub struct InMemoryNetwork {
    pub transports: [InMemoryTransport; 3],
}

impl InMemoryNetwork {
    /// The transports are those of the helpers 1, 2 and 3, in this order.
    pub open spec fn wf(&self) -> bool {
        forall|i: int| 0 <= i < 3 ==> (#[trigger] self.transports[i]).spec_identity().number() == i + 1
    }

    /// What waits for the helper at position `i`.
    pub open spec fn inbox(&self, i: int) -> Seq<(HelperIdentity, FrameView)> {
        self.transports[i].inbox()
    }

    /// Three transports with nothing waiting.
    pub fn new() -> (n: InMemoryNetwork)
        ensures
            n.wf(),
            forall|i: int| 0 <= i < 3 ==> n.inbox(i) == Seq::<(HelperIdentity, FrameView)>::empty(),
    {
        let first = InMemoryTransport::with_stub_callbacks(HelperIdentity::from_role(crate::helpers::Role::H1));
        let second = InMemoryTransport::with_stub_callbacks(HelperIdentity::from_role(crate::helpers::Role::H2));
        let third = InMemoryTransport::with_stub_callbacks(HelperIdentity::from_role(crate::helpers::Role::H3));
        InMemoryNetwork { transports: [first, second, third] }
    }

    /// The identities of the three helpers, in the order of their transports.
    #[must_use]
    pub fn helper_identities(&self) -> (ids: [HelperIdentity; 3])
        ensures
            forall|i: int| 0 <= i < 3 ==> ids[i] == (#[trigger] self.transports[i]).spec_identity(),
    {
        [
            self.transports[0].identity(),
            self.transports[1].identity(),
            self.transports[2].identity(),
        ]
    }

    /// The place of the first transport that goes by `id`, if there is one.
    pub open spec fn place_of(&self, id: HelperIdentity) -> Option<int> {
        if self.transports[0].spec_identity() == id {
            Some(0)
        } else if self.transports[1].spec_identity() == id {
            Some(1)
        } else if self.transports[2].spec_identity() == id {
            Some(2)
        } else {
            None
        }
    }

    fn find(&self, id: HelperIdentity) -> (place: Option<usize>)
        ensures
            match place {
                Some(i) => self.place_of(id) == Some(i as int) && i < 3,
                None => self.place_of(id) is None,
            },
    {
        if self.transports[0].identity().is(id) {
            Some(0)
        } else if self.transports[1].identity().is(id) {
            Some(1)
        } else if self.transports[2].identity().is(id) {
            Some(2)
        } else {
            None
        }
    }

    /// A handle to the transport of the helper `id`, if the network has one.
    #[must_use]
    pub fn transport(&self, id: HelperIdentity) -> (handle: Option<TransportHandle>)
        ensures
            handle is Some <==> self.place_of(id) is Some,
            handle matches Some(h) ==> h.identity == id,
    {
        match self.find(id) {
            Some(_) => Some(TransportHandle { identity: id }),
            None => None,
        }
    }

    /// Handles to the three transports, in their order.
    #[must_use]
    pub fn transports(&self) -> (handles: [TransportHandle; 3])
        ensures
            forall|i: int|
                0 <= i < 3 ==> (#[trigger] handles[i]).identity == self.transports[i].spec_identity(),
    {
        [
            TransportHandle { identity: self.transports[0].identity() },
            TransportHandle { identity: self.transports[1].identity() },
            TransportHandle { identity: self.transports[2].identity() },
        ]
    }

    /// Puts a frame into the inbox of the helper `to`, as sent by the holder
    /// of `from`. Nothing is lost and nothing else changes; a helper that
    /// the network does not know cannot be reached.
    pub fn send(&mut self, from: &TransportHandle, to: HelperIdentity, frame: Frame) -> (r: Result<
        (),
        Error,
    >)
        ensures
            forall|i: int|
                0 <= i < 3 ==> (#[trigger] final(self).transports[i]).spec_identity() == old(
                    self,
                ).transports[i].spec_identity(),
            match r {
                Ok(()) => {
                    &&& old(self).place_of(to) matches Some(place)
                    &&& final(self).inbox(place) == old(self).inbox(place).push(
                        (from.identity, frame@),
                    )
                    &&& forall|i: int|
                        0 <= i < 3 && i != place ==> final(self).inbox(i) == old(self).inbox(i)
                },
                Err(e) => {
                    &&& e == Error::PeerUnreachable
                    &&& old(self).place_of(to) is None
                    &&& forall|i: int| 0 <= i < 3 ==> final(self).inbox(i) == old(self).inbox(i)
                },
            },
    {
        match self.find(to) {
            Some(place) => {
                self.transports[place].push(from.identity, frame);
                Ok(())
            },
            None => Err(Error::PeerUnreachable),
        }
    }

    /// Takes the oldest frame that waits for the holder of `handle`, with
    /// its sender.
    pub fn receive(&mut self, handle: &TransportHandle) -> (out: Option<(HelperIdentity, Frame)>)
        ensures
            forall|i: int|
                0 <= i < 3 ==> (#[trigger] final(self).transports[i]).spec_identity() == old(
                    self,
                ).transports[i].spec_identity(),
            match old(self).place_of(handle.identity) {
                Some(place) => {
                    &&& forall|i: int|
                        0 <= i < 3 && i != place ==> final(self).inbox(i) == old(self).inbox(i)
                    &&& match out {
                        Some((from, frame)) => old(self).inbox(place).len() > 0 && old(self).inbox(
                            place,
                        )[0] == (from, frame@) && final(self).inbox(place) == old(self).inbox(
                            place,
                        ).skip(1),
                        None => old(self).inbox(place).len() == 0 && final(self).inbox(place)
                            == old(self).inbox(place),
                    }
                },
                None => out is None && forall|i: int|
                    0 <= i < 3 ==> final(self).inbox(i) == old(self).inbox(i),
            },
    {
        match self.find(handle.identity) {
            Some(place) => self.transports[place].pop(),
            None => None,
        }
    }
}

impl Default for InMemoryNetwork {
    /// The transports of the helpers 1, 2 and 3, with nothing waiting.
    fn default() -> (n: Self)
        ensures
            n.wf(),
            forall|i: int| 0 <= i < 3 ==> n.inbox(i) == Seq::<(HelperIdentity, FrameView)>::empty(),
    {
        InMemoryNetwork::new()
    }
}

} // verus!
