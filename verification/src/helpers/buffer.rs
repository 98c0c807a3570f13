//! The two ends of a channel: a window of slots on the sending side, a bag
//! of arrived messages on the receiving side.

use std::collections::{HashMap, HashSet};
use vstd::prelude::*;
use crate::error::Error;
use crate::protocol::step::TotalRecords;

verus! {

broadcast use vstd::std_specs::hash::group_hash_axioms;

/// How a channel groups its records: batches of `items_in_batch` records, at
/// most `batch_count` of them waiting at a time.
#[derive(Debug, Clone, Copy, PartialEq, Eq, Structural)]
pub struct SendBufferConfig {
    pub items_in_batch: usize,
    pub batch_count: usize,
}

impl SendBufferConfig {
    /// Both numbers are positive and their product is a number that the
    /// machine can hold.
    pub open spec fn valid(self) -> bool {
        &&& self.items_in_batch >= 1
        &&& self.batch_count >= 1
        &&& self.items_in_batch * self.batch_count <= usize::MAX
    }

    /// Whether the configuration is valid.
    pub fn is_valid(&self) -> (ok: bool)
        ensures
            ok == self.valid(),
    {
        self.items_in_batch >= 1 && self.batch_count >= 1 && self.items_in_batch.checked_mul(
            self.batch_count,
        ).is_some()
    }

    /// The number of records that may wait in a channel.
    pub open spec fn capacity(self) -> int {
        self.items_in_batch * self.batch_count
    }
}

/// The sending end of a channel. Records may be inserted in any order within
/// a window of `capacity` slots; the window moves on when its first batch
/// leaves.
pub struct SendBuffer {
    items_in_batch: usize,
    item_size: usize,
    total: TotalRecords,
    base: u64,
    slots: Vec<Option<Vec<u8>>>,
}

impl SendBuffer {
    /// The first record id that has not left yet.
    pub closed spec fn base(&self) -> int {
        self.base as int
    }

    /// The number of slots of the window.
    pub closed spec fn capacity(&self) -> int {
        self.slots@.len() as int
    }

    /// The number of records of a full batch.
    pub closed spec fn batch(&self) -> int {
        self.items_in_batch as int
    }

    /// The length every message of this channel has.
    pub closed spec fn item_size(&self) -> int {
        self.item_size as int
    }

    /// The number of records the channel will carry, where known.
    pub closed spec fn total(&self) -> TotalRecords {
        self.total
    }

    /// The message waiting at a record id, if there is one.
    pub closed spec fn pending(&self, record: int) -> Option<Seq<u8>> {
        if self.base <= record < self.base + self.slots@.len() {
            match self.slots@[record - self.base] {
                Some(m) => Some(m@),
                None => None,
            }
        } else {
            None
        }
    }

    /// The window holds at least one batch, and what waits in it has the
    /// length of the channel and a record id that the counter can hold.
    pub closed spec fn wf(&self) -> bool {
        &&& 1 <= self.items_in_batch <= self.slots@.len()
        &&& self.base <= 0x1_0000_0000
        &&& forall|k: int|
            0 <= k < self.slots@.len() ==> (#[trigger] self.slots@[k] matches Some(m) ==> m@.len()
                == self.item_size && self.base + k < 0x1_0000_0000)
    }

    /// Why a message cannot be accepted at a record id, if it cannot.
    pub open spec fn refusal(&self, record: int, len: int) -> Option<Error> {
        if len != self.item_size() {
            Some(Error::MalformedFrame)
        } else if self.total() matches TotalRecords::Specified(n) && record >= n {
            Some(Error::TotalRecordsExceeded)
        } else if record < self.base() || self.pending(record) is Some {
            Some(Error::RecordCollision)
        } else if record >= self.base() + self.capacity() {
            Some(Error::Backpressure)
        } else {
            None
        }
    }

    /// The number of records the next batch has: a full batch, or what is
    /// left below the total.
    pub open spec fn wanted(&self) -> int {
        match self.total() {
            TotalRecords::Specified(n) => if n - self.base() < self.batch() {
                if n - self.base() < 0 {
                    0
                } else {
                    n - self.base()
                }
            } else {
                self.batch()
            },
            TotalRecords::Indeterminate => self.batch(),
        }
    }

    /// Whether the first `k` slots of the window are taken.
    pub open spec fn filled(&self, k: int) -> bool {
        forall|r: int| self.base() <= r < self.base() + k ==> (#[trigger] self.pending(r)) is Some
    }

    /// What waits in the window has a record id that the counter can hold.
    pub proof fn lemma_pending_in_range(&self, record: int)
        requires
            self.wf(),
            self.pending(record) is Some,
        ensures
            self.base() <= record < 0x1_0000_0000,
    {
    }

    /// The first record id that has not left yet.
    pub fn first(&self) -> (base: u64)
        ensures
            base as int == self.base(),
    {
        self.base
    }

    /// An empty window for a channel whose messages have `item_size` bytes.
    pub fn new(config: SendBufferConfig, item_size: usize, total: TotalRecords) -> (b: SendBuffer)
        requires
            config.valid(),
        ensures
            b.wf(),
            b.base() == 0,
            b.capacity() == config.capacity(),
            b.batch() == config.items_in_batch,
            b.item_size() == item_size,
            b.total() == total,
            forall|r: int| b.pending(r) is None,
    {
        assert(config.items_in_batch * config.batch_count >= config.items_in_batch)
            by (nonlinear_arith)
            requires
                config.items_in_batch >= 1,
                config.batch_count >= 1,
        ;
        let capacity: usize = config.items_in_batch * config.batch_count;
        let mut slots: Vec<Option<Vec<u8>>> = Vec::new();
        let mut i: usize = 0;
        while i < capacity
            invariant
                i <= capacity,
                slots@.len() == i,
                forall|k: int| 0 <= k < i ==> slots@[k] is None,
            decreases capacity - i,
        {
            slots.push(None);
            i = i + 1;
        }
        SendBuffer { items_in_batch: config.items_in_batch, item_size, total, base: 0, slots }
    }

    /// Accepts `message` at the slot of `record`, or says why not. A refused
    /// message leaves the buffer as it was.
    pub fn insert(&mut self, record: u32, message: Vec<u8>) -> (r: Result<(), Error>)
        requires
            old(self).wf(),
        ensures
            final(self).wf(),
            final(self).base() == old(self).base(),
            final(self).capacity() == old(self).capacity(),
            final(self).batch() == old(self).batch(),
            final(self).item_size() == old(self).item_size(),
            final(self).total() == old(self).total(),
            match r {
                Ok(()) => {
                    &&& old(self).refusal(record as int, message@.len() as int) is None
                    &&& final(self).pending(record as int) == Some(message@)
                    &&& forall|other: int|
                        other != record ==> final(self).pending(other) == old(self).pending(other)
                },
                Err(e) => {
                    &&& old(self).refusal(record as int, message@.len() as int) == Some(e)
                    &&& *final(self) == *old(self)
                },
            },
    {
        if message.len() != self.item_size {
            return Err(Error::MalformedFrame);
        }
        match self.total {
            TotalRecords::Specified(n) => {
                if record >= n {
                    return Err(Error::TotalRecordsExceeded);
                }
            },
            TotalRecords::Indeterminate => {},
        }
        if (record as u64) < self.base {
            return Err(Error::RecordCollision);
        }
        let distance: u64 = record as u64 - self.base;
        if distance >= self.slots.len() as u64 {
            return Err(Error::Backpressure);
        }
        let offset: usize = distance as usize;
        if self.slots[offset].is_some() {
            return Err(Error::RecordCollision);
        }
        self.slots.set(offset, Some(message));
        Ok(())
    }

    /// The number of slots taken without a gap at the start of the window,
    /// counted up to `limit`.
    fn filled_prefix(&self, limit: usize) -> (k: usize)
        requires
            self.wf(),
            limit <= self.capacity(),
        ensures
            k <= limit,
            self.filled(k as int),
            k < limit ==> self.pending(self.base() + k) is None,
    {
        let mut k: usize = 0;
        while k < limit
            invariant
                k <= limit,
                limit <= self.slots@.len(),
                self.filled(k as int),
            decreases limit - k,
        {
            if self.slots[k].is_none() {
                assert(self.pending(self.base() + k) is None);
                return k;
            }
            assert(self.pending(self.base() + k) is Some);
            k = k + 1;
        }
        k
    }

    /// The records that leave when the buffer is asked for a batch: the whole
    /// next batch if it is complete; with `flush`, whatever is there without
    /// a gap; else none.
    pub open spec fn leaving(&self, flush: bool) -> int {
        if self.wanted() > 0 && self.filled(self.wanted()) {
            self.wanted()
        } else if flush {
            self.gapless(self.wanted())
        } else {
            0
        }
    }

    /// The number of slots taken without a gap at the start of the window,
    /// counted up to `limit`.
    pub open spec fn gapless(&self, limit: int) -> int
        decreases limit,
    {
        if limit <= 0 {
            0
        } else if self.filled(limit) {
            limit
        } else {
            self.gapless(limit - 1)
        }
    }

    proof fn lemma_gapless(&self, limit: int, k: int)
        requires
            0 <= k <= limit,
            self.filled(k),
            k < limit ==> self.pending(self.base() + k) is None,
        ensures
            self.gapless(limit) == k,
        decreases limit,
    {
        if limit > 0 {
            if k == limit {
            } else {
                assert(!self.filled(limit)) by {
                    if self.filled(limit) {
                        assert(self.pending(self.base() + k) is Some);
                    }
                }
                self.lemma_gapless(limit - 1, k);
            }
        }
    }

    /// Takes the next batch out of the window, if there is one to take (see
    /// `leaving`). The messages come in the order of their record ids,
    /// starting at the old base; the window moves on by their number.
    pub fn take(&mut self, flush: bool) -> (batch: Option<Vec<Vec<u8>>>)
        requires
            old(self).wf(),
        ensures
            final(self).wf(),
            final(self).capacity() == old(self).capacity(),
            final(self).batch() == old(self).batch(),
            final(self).item_size() == old(self).item_size(),
            final(self).total() == old(self).total(),
            final(self).base() == old(self).base() + old(self).leaving(flush),
            batch is None ==> *final(self) == *old(self),
            forall|r: int|
                r >= final(self).base() ==> final(self).pending(r) == old(self).pending(r),
            forall|r: int| r < final(self).base() ==> final(self).pending(r) is None,
            batch is Some <==> old(self).leaving(flush) > 0,
            batch matches Some(items) ==> {
                &&& items@.len() == old(self).leaving(flush)
                &&& forall|k: int|
                    0 <= k < items@.len() ==> old(self).pending(old(self).base() + k) == Some(
                        (#[trigger] items@[k])@,
                    )
            },
    {
        let wanted: usize = match self.total {
            TotalRecords::Specified(n) => {
                if n as u64 <= self.base {
                    0
                } else if n as u64 - self.base < self.items_in_batch as u64 {
                    (n as u64 - self.base) as usize
                } else {
                    self.items_in_batch
                }
            },
            TotalRecords::Indeterminate => self.items_in_batch,
        };
        let have: usize = self.filled_prefix(wanted);
        proof {
            self.lemma_gapless(wanted as int, have as int);
            if have < wanted {
                assert(!self.filled(wanted as int)) by {
                    if self.filled(wanted as int) {
                        assert(self.pending(self.base() + have) is Some);
                    }
                }
            }
        }
        let count: usize = if have == wanted {
            wanted
        } else if flush {
            have
        } else {
            0
        };
        assert(count == self.leaving(flush));
        if count == 0 {
            return None;
        }
        let capacity: usize = self.slots.len();
        let mut items: Vec<Vec<u8>> = Vec::new();
        let mut rest: Vec<Option<Vec<u8>>> = Vec::new();
        let mut i: usize = 0;
        while i < capacity
            invariant
                i <= capacity,
                capacity == self.slots@.len(),
                self.slots@.len() == old(self).slots@.len(),
                count <= capacity,
                old(self).filled(count as int),
                old(self).wf(),
                self.base == old(self).base,
                self.item_size == old(self).item_size,
                self.items_in_batch == old(self).items_in_batch,
                self.total == old(self).total,
                forall|k: int| i <= k < capacity ==> self.slots@[k] == old(self).slots@[k],
                i <= count ==> items@.len() == i && rest@.len() == 0,
                i > count ==> items@.len() == count && rest@.len() == i - count,
                forall|k: int|
                    0 <= k < items@.len() ==> old(self).slots@[k] == Some(#[trigger] items@[k]),
                forall|k: int| 0 <= k < rest@.len() ==> rest@[k] == old(self).slots@[count + k],
            decreases capacity - i,
        {
            let mut slot: Option<Vec<u8>> = None;
            std::mem::swap(&mut slot, &mut self.slots[i]);
            if i < count {
                assert(old(self).pending(old(self).base() + i) is Some);
                match slot {
                    Some(m) => {
                        items.push(m);
                    },
                    None => {},
                }
            } else {
                rest.push(slot);
            }
            i = i + 1;
        }
        let mut j: usize = 0;
        while j < count
            invariant
                j <= count,
                count <= capacity,
                capacity == old(self).slots@.len(),
                rest@.len() == capacity - count + j,
                forall|k: int|
                    0 <= k < capacity - count ==> rest@[k] == old(self).slots@[count + k],
                forall|k: int| capacity - count <= k < rest@.len() ==> rest@[k] is None,
            decreases count - j,
        {
            rest.push(None);
            j = j + 1;
        }
        assert(old(self).pending(old(self).base() + count - 1) is Some);
        self.slots = rest;
        self.base = self.base + count as u64;
        Some(items)
    }
}

/// The receiving end of a channel: what has arrived and waits to be read,
/// and which record ids were read already.
pub struct ReceiveBuffer {
    arrived: HashMap<u32, Vec<u8>>,
    consumed: HashSet<u32>,
}

impl ReceiveBuffer {
    /// The message that waits at a record id, if there is one.
    pub closed spec fn arrived(&self, record: int) -> Option<Seq<u8>> {
        if 0 <= record <= u32::MAX && self.arrived@.contains_key(record as u32) {
            Some(self.arrived@[record as u32]@)
        } else {
            None
        }
    }

    /// Whether the message at a record id was read already.
    pub closed spec fn consumed(&self, record: int) -> bool {
        0 <= record <= u32::MAX && self.consumed@.contains(record as u32)
    }

    /// The slot of a record id is free: nothing waits there and nothing was
    /// read from it.
    pub open spec fn free(&self, record: int) -> bool {
        self.arrived(record) is None && !self.consumed(record)
    }

    /// A receiving end at which nothing has arrived.
    pub fn new() -> (b: ReceiveBuffer)
        ensures
            forall|r: int| b.free(r),
    {
        ReceiveBuffer { arrived: HashMap::new(), consumed: HashSet::new() }
    }

    /// Why a batch that starts at `first` and has `len` records cannot be
    /// taken in, if it cannot.
    pub open spec fn refusal(&self, first: int, len: int) -> Option<Error> {
        if first + len > 0x1_0000_0000 {
            Some(Error::MalformedFrame)
        } else if exists|rec: int| first <= rec < first + len && !#[trigger] self.free(rec) {
            Some(Error::RecordCollision)
        } else {
            None
        }
    }

    /// Takes in a batch: its `k`-th message arrives at record `first + k`. A
    /// batch that would land on a slot that is not free is refused whole.
    pub fn deliver(&mut self, first: u32, items: Vec<Vec<u8>>) -> (r: Result<(), Error>)
        ensures
            forall|rec: int| final(self).consumed(rec) == old(self).consumed(rec),
            match r {
                Ok(()) => {
                    &&& old(self).refusal(first as int, items@.len() as int) is None
                    &&& forall|k: int|
                        0 <= k < items@.len() ==> final(self).arrived(first + k) == Some(
                            (#[trigger] items@[k])@,
                        )
                    &&& forall|rec: int|
                        !(first <= rec < first + items@.len()) ==> final(self).arrived(rec) == old(
                            self,
                        ).arrived(rec)
                },
                Err(e) => {
                    &&& old(self).refusal(first as int, items@.len() as int) == Some(e)
                    &&& *final(self) == *old(self)
                },
            },
    {
        let n: usize = items.len();
        if n as u64 > 0x1_0000_0000 || n as u64 + first as u64 > 0x1_0000_0000 {
            return Err(Error::MalformedFrame);
        }
        let mut k: usize = 0;
        while k < n
            invariant
                k <= n,
                n == items@.len(),
                first + n <= 0x1_0000_0000,
                forall|rec: int| first <= rec < first + k ==> #[trigger] self.free(rec),
            decreases n - k,
        {
            let id: u32 = (first as u64 + k as u64) as u32;
            if self.arrived.contains_key(&id) || self.consumed.contains(&id) {
                assert(!self.free(first + k));
                return Err(Error::RecordCollision);
            }
            k = k + 1;
        }
        let mut items = items;
        let ghost all = items@;
        let mut i: usize = n;
        while i > 0
            invariant
                i <= n,
                n == all.len(),
                items@ == all.take(i as int),
                first + n <= 0x1_0000_0000,
                self.consumed@ == old(self).consumed@,
                forall|k: int| i <= k < n ==> self.arrived(first + k) == Some((#[trigger] all[k])@),
                forall|rec: int|
                    !(first + i <= rec < first + n) ==> self.arrived(rec) == old(self).arrived(rec),
            decreases i,
        {
            i = i - 1;
            let id: u32 = (first as u64 + i as u64) as u32;
            let ghost before = *self;
            match items.pop() {
                Some(m) => {
                    assert(m == all[i as int]);
                    self.arrived.insert(id, m);
                },
                None => {},
            }
            assert(items@ =~= all.take(i as int));
            assert forall|k: int| i <= k < n implies self.arrived(first + k) == Some(
                (#[trigger] all[k])@,
            ) by {
                if k > i {
                    assert(before.arrived(first + k) == Some(all[k]@));
                }
            }
            assert forall|rec: int| !(first + i <= rec < first + n) implies self.arrived(rec)
                == old(self).arrived(rec) by {
                assert(before.arrived(rec) == old(self).arrived(rec));
            }
        }
        Ok(())
    }

    /// Reads the message at a record id and marks the id as read.
    ///
    /// A second read of the same id is a collision; an id at which nothing
    /// has arrived means the peer is gone.
    pub fn take(&mut self, record: u32) -> (r: Result<Vec<u8>, Error>)
        ensures
            forall|other: int|
                other != record ==> final(self).arrived(other) == old(self).arrived(other)
                    && final(self).consumed(other) == old(self).consumed(other),
            match r {
                Ok(m) => {
                    &&& old(self).arrived(record as int) == Some(m@)
                    &&& final(self).arrived(record as int) is None
                    &&& final(self).consumed(record as int)
                },
                Err(e) => {
                    &&& old(self).arrived(record as int) is None
                    &&& *final(self) == *old(self)
                    &&& e == if old(self).consumed(record as int) {
                        Error::RecordCollision
                    } else {
                        Error::PeerDisconnected
                    }
                },
            },
    {
        if !self.arrived.contains_key(&record) {
            if self.consumed.contains(&record) {
                return Err(Error::RecordCollision);
            } else {
                return Err(Error::PeerDisconnected);
            }
        }
        match self.arrived.remove(&record) {
            Some(m) => {
                self.consumed.insert(record);
                Ok(m)
            },
            None => Err(Error::PeerDisconnected),
        }
    }
}

} // verus!
