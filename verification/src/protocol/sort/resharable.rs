//! Records that can be reshared: what is made of shares is reshared field
//! by field, each field under a step of its own, and put together again.

use vstd::prelude::*;
use crate::ff::Field;
use crate::helpers::role::{role_at, role_index, Role};
use crate::protocol::basics::mul::masks;
use crate::protocol::context::Context;
use crate::protocol::malicious::MaliciousReplicated;
use crate::protocol::prss::PrssEndpoint;
use crate::protocol::sort::apply::{applied, apply, is_permutation};
use crate::protocol::sort::shuffle::{
    arranged, shuffle_for_helper, spec_shuffle_for_helper, ShuffleStep,
};
use crate::protocol::step::narrowed;
use crate::protocol::sort::reshare::{
    lemma_reshare_keeps_secret, lemma_rounds_reshare, reshared, Reshare, ReshareRound,
};
use crate::protocol::step::{RecordId, Substep};
use crate::secret_sharing::replicated::{consistent, opened, Replicated};

verus! {

/// The level of one field of a record: `f` followed by the number of the
/// field, as one byte.
#[derive(Debug, Clone, Copy, PartialEq, Eq, Structural)]
pub struct FieldStep {
    pub index: u8,
}

impl Substep for FieldStep {
    open spec fn label(&self) -> Seq<u8> {
        seq![102u8, self.index]
    }

    fn to_bytes(&self) -> (out: Vec<u8>) {
        let mut out: Vec<u8> = Vec::new();
        out.push(102);
        out.push(self.index);
        assert(out@ =~= seq![102u8, self.index]);
        out
    }
}

/// The keys of a helper for the step of field `k` of a record, below the
/// step `path`.
pub open spec fn field_keys(root: PrssEndpoint, path: Seq<u8>, k: int) -> PrssEndpoint {
    root.spec_narrow(narrowed(path, (FieldStep { index: k as u8 }).label()))
}

/// Whether `rounds` is where the helper `role` stands after the first half
/// of the reshare of a record at the step `path`: field `k` is being
/// reshared towards the target under the step of field `k`, below `path`.
pub open spec fn record_begun<F: Field>(
    rounds: Seq<ReshareRound<F>>,
    role: Role,
    root: PrssEndpoint,
    path: Seq<u8>,
    record: int,
    to_helper: Role,
    fields: Seq<(int, int)>,
) -> bool {
    &&& rounds.len() == fields.len()
    &&& forall|k: int|
        0 <= k < fields.len() ==> (#[trigger] rounds[k]).begun(
            role,
            to_helper,
            fields[k],
            masks(field_keys(root, path, k), record, F::prime()),
        )
}

/// The fields that a helper ends the reshare of a record with, when
/// `received[k]` is the part that arrived for field `k`.
pub open spec fn record_completed<F: Field>(rounds: Seq<ReshareRound<F>>, received: Seq<F>) -> Seq<
    (int, int),
> {
    Seq::new(rounds.len(), |k: int| rounds[k].completed(received[k].as_int()))
}

/// A record made of shares of one field. Resharing it gives a new record
/// of the same kind, made of fresh shares of the same secrets.
pub trait Resharable<F: Field>: Sized {
    /// The number of shares that a record is made of.
    spec fn width() -> nat;

    /// The coordinates of the shares that the record is made of.
    spec fn fields(&self) -> Seq<(int, int)>;

    /// A record has as many fields as its kind says, and at most 256.
    proof fn lemma_width(&self)
        ensures
            self.fields().len() == Self::width(),
            Self::width() <= 256,
    ;

    /// Starts the reshare of the record towards `to_helper`, for one
    /// record id: every field is reshared under the step of its number.
    fn reshare(&self, ctx: &Context, record_id: RecordId, to_helper: Role) -> (rounds: Vec<
        ReshareRound<F>,
    >)
        requires
            ctx.wf(),
        ensures
            record_begun(
                rounds@,
                ctx.spec_role(),
                ctx.root_keys(),
                ctx.path(),
                record_id@,
                to_helper,
                self.fields(),
            ),
    ;

    /// The new record, from where the reshare of every field stands and the
    /// part that arrived for it.
    fn reshared(rounds: Vec<ReshareRound<F>>, received: &[F]) -> (record: Self)
        requires
            rounds@.len() == Self::width(),
            received@.len() == rounds@.len(),
        ensures
            record.fields() == record_completed(rounds@, received@),
    ;
}

impl<F: Field> Resharable<F> for Replicated<F> {
    open spec fn width() -> nat {
        1
    }

    open spec fn fields(&self) -> Seq<(int, int)> {
        seq![self.ints()]
    }

    proof fn lemma_width(&self) {
    }

    fn reshare(&self, ctx: &Context, record_id: RecordId, to_helper: Role) -> (rounds: Vec<
        ReshareRound<F>,
    >) {
        let mut rounds: Vec<ReshareRound<F>> = Vec::new();
        rounds.push(
            Reshare::new(*self).execute(&ctx.narrow(&FieldStep { index: 0 }), record_id, to_helper),
        );
        rounds
    }

    fn reshared(rounds: Vec<ReshareRound<F>>, received: &[F]) -> (record: Self) {
        let record = rounds[0].finish(received[0]);
        assert(record.fields() =~= record_completed(rounds@, received@));
        record
    }
}

impl<F: Field> Resharable<F> for MaliciousReplicated<F> {
    open spec fn width() -> nat {
        2
    }

    /// The share of the value, then the share of the MAC.
    open spec fn fields(&self) -> Seq<(int, int)> {
        seq![self.spec_x().ints(), self.spec_rx().ints()]
    }

    proof fn lemma_width(&self) {
    }

    fn reshare(&self, ctx: &Context, record_id: RecordId, to_helper: Role) -> (rounds: Vec<
        ReshareRound<F>,
    >) {
        let mut rounds: Vec<ReshareRound<F>> = Vec::new();
        rounds.push(
            Reshare::new(self.x()).execute(
                &ctx.narrow(&FieldStep { index: 0 }),
                record_id,
                to_helper,
            ),
        );
        rounds.push(
            Reshare::new(self.rx()).execute(
                &ctx.narrow(&FieldStep { index: 1 }),
                record_id,
                to_helper,
            ),
        );
        rounds
    }

    fn reshared(rounds: Vec<ReshareRound<F>>, received: &[F]) -> (record: Self) {
        let record = MaliciousReplicated::new(
            rounds[0].finish(received[0]),
            rounds[1].finish(received[1]),
        );
        assert(record.fields() =~= record_completed(rounds@, received@));
        record
    }
}

/// Resharing a record keeps every field: when the three helpers have begun
/// the reshare of field `k` of their records, whose shares fit together,
/// with pairs that fit together, and the two neighbours of the target swap
/// their parts, the shares of field `k` that they end with fit together
/// and open to what the field opened to before.
pub proof fn lemma_field_keeps_secret<F: Field>(
    rounds: Seq<ReshareRound<F>>,
    x: Seq<(int, int)>,
    r: Seq<(int, int)>,
    to: Role,
)
    requires
        rounds.len() == 3,
        consistent(x),
        consistent(r),
        forall|h: int| 0 <= h < 3 ==> (#[trigger] rounds[h]).begun(role_at(h), to, x[h], r[h]),
    ensures
        ({
            let t = role_index(to);
            let l = (t + 2) % 3;
            let n = (t + 1) % 3;
            let z = reshared(x, r, t, F::prime());
            &&& rounds[l] matches ReshareRound::Exchange(left)
            &&& rounds[n] matches ReshareRound::Exchange(right)
            &&& rounds[t].completed(0) == z[t]
            &&& rounds[l].completed(right.spec_part().as_int()) == z[l]
            &&& rounds[n].completed(left.spec_part().as_int()) == z[n]
            &&& consistent(z)
            &&& opened(z, F::prime()) == opened(x, F::prime())
        }),
{
    F::lemma_modulus();
    lemma_rounds_reshare(rounds, x, r, to, 0);
    lemma_reshare_keeps_secret(x, r, to, F::prime());
}

/// The fields of a list of records.
pub open spec fn fields_of<F: Field, I: Resharable<F>>(records: Seq<I>) -> Seq<Seq<(int, int)>> {
    Seq::new(records.len(), |i: int| records[i].fields())
}

/// The first half of one round of the shuffle of records at this helper.
/// Unless it is the target of the round, the helper permutes its records;
/// then record `i` is reshared towards the target, field by field, under
/// record id `i` of the step of the round.
pub fn shuffle_records_once<F: Field, I: Resharable<F> + Copy>(
    input: Vec<I>,
    random_permutations: (&[u32], &[u32]),
    which_step: ShuffleStep,
    ctx: &Context,
) -> (rounds: Vec<Vec<ReshareRound<F>>>)
    requires
        ctx.wf(),
        input@.len() <= u32::MAX,
        random_permutations.0@.len() == input@.len(),
        random_permutations.1@.len() == input@.len(),
        is_permutation(random_permutations.0@),
        is_permutation(random_permutations.1@),
    ensures
        rounds@.len() == input@.len(),
        forall|i: int|
            0 <= i < input@.len() ==> record_begun(
                (#[trigger] rounds@[i])@,
                ctx.spec_role(),
                ctx.root_keys(),
                narrowed(ctx.path(), which_step.label()),
                i,
                spec_shuffle_for_helper(which_step),
                arranged(
                    ctx.spec_role(),
                    spec_shuffle_for_helper(which_step),
                    (random_permutations.0@, random_permutations.1@),
                    fields_of::<F, I>(input@),
                )[i],
            ),
{
    let to_helper = shuffle_for_helper(which_step);
    let mut records = input;
    if !ctx.role().is(to_helper) {
        if to_helper.peer(crate::helpers::role::Direction::Left).is(ctx.role()) {
            apply(random_permutations.0, &mut records);
        } else {
            apply(random_permutations.1, &mut records);
        }
    }
    proof {
        let perms = (random_permutations.0@, random_permutations.1@);
        assert(fields_of::<F, I>(records@) =~= arranged(
            ctx.spec_role(),
            to_helper,
            perms,
            fields_of::<F, I>(input@),
        ));
    }
    let child = ctx.narrow(&which_step);
    let mut rounds: Vec<Vec<ReshareRound<F>>> = Vec::new();
    let mut i: usize = 0;
    while i < records.len()
        invariant
            i <= records@.len(),
            records@.len() <= u32::MAX,
            child.wf(),
            rounds@.len() == i,
            forall|k: int|
                0 <= k < i ==> record_begun(
                    (#[trigger] rounds@[k])@,
                    child.spec_role(),
                    child.root_keys(),
                    child.path(),
                    k,
                    to_helper,
                    fields_of::<F, I>(records@)[k],
                ),
        decreases records@.len() - i,
    {
        let round = records[i].reshare(&child, RecordId::from(i as u32), to_helper);
        rounds.push(round);
        i = i + 1;
    }
    rounds
}

/// Whether the rounds of a record and the parts that arrived for it are as
/// many as the record has fields.
pub open spec fn fits<F: Field, I: Resharable<F>>(rounds: Vec<ReshareRound<F>>, received: Vec<F>)
    -> bool {
    rounds@.len() == I::width() && received@.len() == I::width()
}

/// Whether there are parts for every record, as many as it has fields.
pub open spec fn rounds_fit<F: Field, I: Resharable<F>>(
    rounds: Seq<Vec<ReshareRound<F>>>,
    received: Seq<Vec<F>>,
) -> bool {
    &&& received.len() == rounds.len()
    &&& forall|i: int| 0 <= i < rounds.len() ==> #[trigger] fits::<F, I>(rounds[i], received[i])
}

/// The second half of a round of the shuffle of records: every record is
/// put together from where the reshare of its fields stands and the parts
/// that arrived for them.
pub fn finish_records<F: Field, I: Resharable<F>>(
    rounds: &Vec<Vec<ReshareRound<F>>>,
    received: &Vec<Vec<F>>,
) -> (records: Vec<I>)
    requires
        rounds_fit::<F, I>(rounds@, received@),
    ensures
        records@.len() == rounds@.len(),
        forall|i: int|
            0 <= i < rounds@.len() ==> (#[trigger] records@[i]).fields() == record_completed(
                rounds@[i]@,
                received@[i]@,
            ),
{
    let mut records: Vec<I> = Vec::new();
    let mut i: usize = 0;
    while i < rounds.len()
        invariant
            i <= rounds@.len(),
            rounds_fit::<F, I>(rounds@, received@),
            records@.len() == i,
            forall|k: int|
                0 <= k < i ==> (#[trigger] records@[k]).fields() == record_completed(
                    rounds@[k]@,
                    received@[k]@,
                ),
        decreases rounds@.len() - i,
    {
        let item = &rounds[i];
        assert(fits::<F, I>(rounds@[i as int], received@[i as int]));
        let mut copy: Vec<ReshareRound<F>> = Vec::new();
        let mut k: usize = 0;
        while k < item.len()
            invariant
                k <= item@.len(),
                copy@ == item@.take(k as int),
            decreases item@.len() - k,
        {
            copy.push(item[k]);
            assert(copy@ =~= item@.take(k + 1));
            k = k + 1;
        }
        assert(item@.take(k as int) =~= item@);
        records.push(I::reshared(copy, received[i].as_slice()));
        i = i + 1;
    }
    records
}

} // verus!
