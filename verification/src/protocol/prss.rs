//! Pseudo-random secret sharing: correlated randomness from pairwise keys.
//!
//! Every helper shares one key with its left neighbour and one with its right
//! neighbour. For a step and a record, the helper derives one value from each
//! key; the value from the key shared with a neighbour is the same on both
//! sides, so the three helpers together hold a replicated sharing of an
//! unknown value without exchanging a message.
//!
//! The values come from the ChaCha20 key stream of `rand_chacha`. That
//! generator is named outright, rather than reached through the standard
//! generator of `rand`, because the helpers run on different machines and
//! must derive the same values from the same key: `rand_chacha` gives the
//! same stream for the same seed on every platform and in every release,
//! which `rand` does not promise of its standard generator.

use rand::{RngCore, SeedableRng};
use rand_chacha::ChaCha20Rng;
use vstd::prelude::*;
use crate::error::Error;
use crate::ff::Field;
use crate::protocol::step::{RecordId, Step};

verus! {

/// The first 16 bytes of the ChaCha20 key stream under the 32-byte seed whose
/// low half is `key` and whose high half is `block`, both little-endian.
pub uninterp spec fn chacha_block(key: u128, block: u128) -> u128;

/// Runs `rand_chacha::ChaCha20Rng::from_seed` on `key || block` (little-endian,
/// 16 bytes each) and reads the first 16 bytes of its stream with
/// `RngCore::fill_bytes`, as a little-endian number.
///
/// The generator is a pure function of its seed, which is all the contract
/// claims: the result is `chacha_block(key, block)`.
#[verifier::external_body]
fn keystream_block(key: u128, block: u128) -> (out: u128)
    ensures
        out == chacha_block(key, block),
{
    let mut seed = [0u8; 32];
    seed[..16].copy_from_slice(&key.to_le_bytes());
    seed[16..].copy_from_slice(&block.to_le_bytes());
    let mut rng = ChaCha20Rng::from_seed(seed);
    let mut out = [0u8; 16];
    rng.fill_bytes(&mut out);
    u128::from_le_bytes(out)
}

/// The value that a key gives for an index below `2^32`.
pub fn draw(key: u128, index: u32) -> (out: u128)
    ensures
        out == chacha_block(key, index as u128),
{
    keystream_block(key, index as u128)
}

/// Blocks from this mark on choose the places of a permutation. They lie
/// above the record ids and above the blocks that absorb a step, so that a
/// permutation shares no value with a record of its step.
pub const PERMUTE: u128 = 0x2_0000_0000;

/// The value that a key gives for the place `index` of a permutation.
pub fn draw_place(key: u128, index: u32) -> (out: u128)
    ensures
        out == chacha_block(key, (PERMUTE + index) as u128),
{
    keystream_block(key, PERMUTE + index as u128)
}

/// Blocks from this mark on absorb a byte of a step: the byte is added to
/// the mark. Blocks below it are record ids, so the two uses of a key never
/// meet.
pub const ABSORB: u128 = 0x1_0000_0000;

/// The key for a path: the root key, with the bytes of the path absorbed one
/// after the other.
pub open spec fn derived_key(key: u128, path: Seq<u8>) -> u128
    decreases path.len(),
{
    if path.len() == 0 {
        key
    } else {
        chacha_block(derived_key(key, path.drop_last()), (ABSORB + path.last()) as u128)
    }
}

/// Absorbing a path and then a suffix is absorbing the two joined.
pub proof fn lemma_derived_key_concat(key: u128, path: Seq<u8>, suffix: Seq<u8>)
    ensures
        derived_key(derived_key(key, path), suffix) == derived_key(key, path + suffix),
    decreases suffix.len(),
{
    if suffix.len() == 0 {
        assert(path + suffix =~= path);
    } else {
        lemma_derived_key_concat(key, path, suffix.drop_last());
        assert((path + suffix).drop_last() =~= path + suffix.drop_last());
        assert((path + suffix).last() == suffix.last());
    }
}

/// Absorbs `bytes` into `key`.
pub fn absorb(key: u128, bytes: &[u8]) -> (out: u128)
    ensures
        out == derived_key(key, bytes@),
{
    let mut k: u128 = key;
    let mut i: usize = 0;
    while i < bytes.len()
        invariant
            i <= bytes@.len(),
            k == derived_key(key, bytes@.take(i as int)),
        decreases bytes@.len() - i,
    {
        proof {
            let next = bytes@.take(i + 1);
            assert(next.drop_last() =~= bytes@.take(i as int));
            assert(next.last() == bytes@[i as int]);
        }
        k = keystream_block(k, ABSORB + bytes[i] as u128);
        i = i + 1;
    }
    assert(bytes@.take(i as int) =~= bytes@);
    k
}

/// The two keys of one helper: the one it shares with its left neighbour and
/// the one it shares with its right neighbour.
#[derive(Debug, Clone, Copy, PartialEq, Eq, Structural)]
pub struct PrssEndpoint {
    pub left: u128,
    pub right: u128,
}

/// The pair of values a helper derives for a record: from its left key and
/// from its right key.
pub open spec fn record_values(keys: PrssEndpoint, record: int) -> (u128, u128) {
    (chacha_block(keys.left, record as u128), chacha_block(keys.right, record as u128))
}

impl PrssEndpoint {
    pub fn new(left: u128, right: u128) -> (e: PrssEndpoint)
        ensures
            e.left == left,
            e.right == right,
    {
        PrssEndpoint { left, right }
    }

    /// The keys of this helper for the step below `path` that `label` names.
    pub open spec fn spec_narrow(self, label: Seq<u8>) -> PrssEndpoint {
        PrssEndpoint {
            left: derived_key(self.left, label),
            right: derived_key(self.right, label),
        }
    }

    /// Absorbs `label` into both keys.
    pub fn narrow(&self, label: &[u8]) -> (e: PrssEndpoint)
        ensures
            e == self.spec_narrow(label@),
    {
        PrssEndpoint { left: absorb(self.left, label), right: absorb(self.right, label) }
    }

    /// The two raw values for a record.
    pub fn generate_values(&self, record_id: RecordId) -> (pair: (u128, u128))
        ensures
            pair == record_values(*self, record_id@),
    {
        let r: u128 = record_id.as_u32() as u128;
        (keystream_block(self.left, r), keystream_block(self.right, r))
    }

    /// The two values for a record, as field elements.
    pub fn generate_fields<F: Field>(&self, record_id: RecordId) -> (pair: (F, F))
        ensures
            pair.0.as_int() == record_values(*self, record_id@).0 as int % F::prime(),
            pair.1.as_int() == record_values(*self, record_id@).1 as int % F::prime(),
    {
        let (l, r) = self.generate_values(record_id);
        (F::truncate_from(l), F::truncate_from(r))
    }
}

/// One draw that a ledger has noted.
struct Entry {
    step: Step,
    record: u32,
}

/// The record of what a helper has drawn: for which records of which steps
/// it took its correlated pair. A pair must be taken once; a ledger notices
/// the second time.
pub struct PrssLedger {
    used: Vec<Entry>,
}

impl PrssLedger {
    /// Whether the pair of a record of a step was drawn.
    pub closed spec fn drawn(&self, path: Seq<u8>, record: int) -> bool {
        exists|i: int|
            0 <= i < self.used@.len() && (#[trigger] self.used@[i]).step@ == path
                && self.used@[i].record == record
    }

    /// What noting a draw does to a ledger. A draw that is new is noted and
    /// nothing else changes; a draw that was noted before changes nothing.
    pub open spec fn noted(
        before: PrssLedger,
        after: PrssLedger,
        path: Seq<u8>,
        record: int,
        fresh: bool,
    ) -> bool {
        &&& fresh == !before.drawn(path, record)
        &&& forall|p: Seq<u8>, r: int|
            #![trigger after.drawn(p, r)]
            after.drawn(p, r) == (before.drawn(p, r) || (fresh && p == path && r == record))
    }

    /// What noting the draws of one record on two steps does to a ledger.
    /// The two are noted together or not at all: if either was noted before,
    /// or the two steps are one, nothing changes.
    pub open spec fn noted_both(
        before: PrssLedger,
        after: PrssLedger,
        first: Seq<u8>,
        second: Seq<u8>,
        record: int,
        fresh: bool,
    ) -> bool {
        &&& fresh == (!before.drawn(first, record) && !before.drawn(second, record) && first
            != second)
        &&& forall|p: Seq<u8>, r: int|
            #![trigger after.drawn(p, r)]
            after.drawn(p, r) == (before.drawn(p, r) || (fresh && r == record && (p == first || p
                == second)))
    }

    /// A ledger in which nothing is noted.
    pub fn new() -> (ledger: PrssLedger)
        ensures
            forall|p: Seq<u8>, r: int| !ledger.drawn(p, r),
    {
        PrssLedger { used: Vec::new() }
    }

    fn find(&self, step: &Step, record: u32) -> (found: bool)
        ensures
            found == self.drawn(step@, record as int),
    {
        let mut i: usize = 0;
        while i < self.used.len()
            invariant
                i <= self.used@.len(),
                forall|k: int|
                    0 <= k < i ==> !((#[trigger] self.used@[k]).step@ == step@
                        && self.used@[k].record == record),
            decreases self.used@.len() - i,
        {
            if self.used[i].record == record && self.used[i].step.same(step) {
                return true;
            }
            i = i + 1;
        }
        false
    }

    /// Notes the draws of one record on two steps, both or neither.
    pub fn note_both(&mut self, first: &Step, second: &Step, record_id: RecordId) -> (r: Result<
        (),
        Error,
    >)
        ensures
            PrssLedger::noted_both(
                *old(self),
                *final(self),
                first@,
                second@,
                record_id@,
                r is Ok,
            ),
            r matches Err(e) ==> e == Error::PrssReuse,
    {
        let record: u32 = record_id.as_u32();
        if first.same(second) || self.find(first, record) || self.find(second, record) {
            return Err(Error::PrssReuse);
        }
        let ghost before = *self;
        let one = self.note(first, record_id);
        let ghost between = *self;
        let two = self.note(second, record_id);
        proof {
            assert(one is Ok);
            assert(between.drawn(second@, record_id@) == before.drawn(second@, record_id@));
            assert(two is Ok);
            assert forall|p: Seq<u8>, r: int| #![trigger self.drawn(p, r)] self.drawn(p, r) == (
            before.drawn(p, r) || (r == record_id@ && (p == first@ || p == second@))) by {
                assert(between.drawn(p, r) == (before.drawn(p, r) || (p == first@ && r
                    == record_id@)));
            }
        }
        Ok(())
    }

    /// Notes the draw of the pair of a record of a step. A draw that was
    /// noted before is refused, and the ledger stays as it was.
    pub fn note(&mut self, step: &Step, record_id: RecordId) -> (r: Result<(), Error>)
        ensures
            PrssLedger::noted(*old(self), *final(self), step@, record_id@, r is Ok),
            r matches Err(e) ==> e == Error::PrssReuse,
    {
        let record: u32 = record_id.as_u32();
        if self.find(step, record) {
            return Err(Error::PrssReuse);
        }
        self.used.push(Entry { step: step.duplicate(), record });
        proof {
            let n = old(self).used@.len() as int;
            assert forall|p: Seq<u8>, r: int| #![trigger self.drawn(p, r)] self.drawn(p, r) == (old(
                self,
            ).drawn(p, r) || (p == step@ && r == record_id@)) by {
                if old(self).drawn(p, r) {
                    let i = choose|i: int|
                        0 <= i < old(self).used@.len() && (#[trigger] old(self).used@[i]).step@
                            == p && old(self).used@[i].record == r;
                    assert(self.used@[i] == old(self).used@[i]);
                }
                if p == step@ && r == record_id@ {
                    assert(self.used@[n].step@ == p && self.used@[n].record == r);
                }
                if self.drawn(p, r) {
                    let i = choose|i: int|
                        0 <= i < self.used@.len() && (#[trigger] self.used@[i]).step@ == p
                            && self.used@[i].record == r;
                    if i < n {
                        assert(old(self).used@[i] == self.used@[i]);
                    }
                }
            }
        }
        Ok(())
    }
}

/// What two neighbours derive from the key they share is the same value: the
/// right-hand value of the one is the left-hand value of the other, for every
/// step and every record.
pub proof fn lemma_neighbours_agree(
    a: PrssEndpoint,
    b: PrssEndpoint,
    path: Seq<u8>,
    record: int,
)
    requires
        a.right == b.left,
    ensures
        record_values(a.spec_narrow(path), record).1 == record_values(
            b.spec_narrow(path),
            record,
        ).0,
{
}

} // verus!
