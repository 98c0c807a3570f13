//! The failures a protocol can surface to its caller.

use vstd::prelude::*;

verus! {

/// What went wrong. Protocols hand these to the caller unchanged; nothing is
/// retried locally, because every operation consumes its record id.
#[derive(Debug, Clone, Copy, PartialEq, Eq, Structural)]
pub enum Error {
    /// There is no peer of that name to send to.
    PeerUnreachable,
    /// A frame has the wrong length or does not decode to a value.
    MalformedFrame,
    /// A message was already sent or consumed at this record id.
    RecordCollision,
    /// The message awaited from a peer is not there.
    PeerDisconnected,
    /// Too many messages are outstanding on a channel.
    Backpressure,
    /// A record id lies beyond the total that the channel was opened with.
    TotalRecordsExceeded,
    /// The helpers disagree on a revealed value.
    RevealDisagreement,
    /// The accumulated MAC of a malicious computation does not match.
    MaliciousSecurityCheckFailed,
    /// The total number of records of a context was set a second time.
    TotalRecordsAlreadySet,
    /// All record ids of a step are used up.
    RecordIdsExhausted,
    /// Correlated randomness was requested twice for one record.
    PrssReuse,
}

} // verus!
