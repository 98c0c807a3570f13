//! Applying a sort permutation that was revealed on shuffled inputs.
//!
//! The permutation that sorts the inputs must stay hidden, so it is revealed
//! only after it went through a shuffle. Put through the same shuffle, the
//! inputs are then in the order in which the revealed permutation speaks of
//! them, and applying it is local.

use vstd::prelude::*;
use vstd::string::StringSliceAdditionalSpecFns;
use crate::error::Error;
use crate::ff::Field;
use crate::protocol::context::Context;
use crate::protocol::sort::apply::{apply_inv, is_applied_inv, is_permutation};
use crate::protocol::sort::shuffle::{
    coordinates, round_completed, shuffle_shares, Shuffle, ShuffleProgress, ShuffleStep,
};
use crate::protocol::step::{label_bytes, narrowed, Substep};
use crate::secret_sharing::replicated::Replicated;

verus! {

/// The levels below the step of applying a sort permutation.
#[derive(Debug, Clone, Copy, PartialEq, Eq, Structural)]
pub enum ApplyInvStep {
    /// Where the inputs are shuffled.
    ShuffleInputs,
}

impl Substep for ApplyInvStep {
    open spec fn label(&self) -> Seq<u8> {
        match self {
            ApplyInvStep::ShuffleInputs => "shuffle-inputs".spec_bytes(),
        }
    }

    fn to_bytes(&self) -> (out: Vec<u8>) {
        match self {
            ApplyInvStep::ShuffleInputs => label_bytes("shuffle-inputs"),
        }
    }
}

/// A sort permutation as the helpers hold it: revealed, but on inputs that
/// were shuffled by the two random permutations that go with it.
#[derive(Debug)]
pub struct RevealedAndRandomPermutations {
    pub revealed: Vec<u32>,
    pub randoms_for_shuffle: (Vec<u32>, Vec<u32>),
}

impl RevealedAndRandomPermutations {
    /// All three are permutations of `n` items.
    pub open spec fn valid_for(&self, n: nat) -> bool {
        &&& self.revealed@.len() == n
        &&& self.randoms_for_shuffle.0@.len() == n
        &&& self.randoms_for_shuffle.1@.len() == n
        &&& is_permutation(self.revealed@)
        &&& is_permutation(self.randoms_for_shuffle.0@)
        &&& is_permutation(self.randoms_for_shuffle.1@)
    }

    /// The two random permutations, as sequences.
    pub open spec fn randoms(&self) -> (Seq<u32>, Seq<u32>) {
        (self.randoms_for_shuffle.0@, self.randoms_for_shuffle.1@)
    }
}

/// The application of a sort permutation under way at one helper: the
/// shuffle of the inputs is running.
#[derive(Debug)]
pub struct ApplySort<F> {
    shuffle: Shuffle<F>,
}

/// Where the application stands once a round of the shuffle has ended.
#[derive(Debug)]
pub enum ApplySortProgress<F> {
    /// The next round of the shuffle has begun and has parts to swap.
    Exchange(ApplySort<F>),
    /// The shuffle has ended and the revealed permutation was applied.
    Done(Vec<Replicated<F>>),
}

impl<F: Field> ApplySort<F> {
    /// The shuffle of the inputs.
    pub closed spec fn spec_shuffle(&self) -> Shuffle<F> {
        self.shuffle
    }

    /// The shuffle of the inputs, whose rounds say what is to be sent.
    pub fn shuffle(&self) -> (shuffle: &Shuffle<F>)
        ensures
            *shuffle == self.spec_shuffle(),
    {
        &self.shuffle
    }

    /// Whether `progress` is where the application stands once the current
    /// round of the shuffle has ended with the parts `received`: the next
    /// round has begun, or, after the third round, the revealed permutation
    /// was applied to the shuffled shares.
    pub open spec fn advanced(
        self,
        received: Seq<F>,
        sort_permutation: &RevealedAndRandomPermutations,
        progress: ApplySortProgress<F>,
    ) -> bool {
        match self.spec_shuffle().spec_step() {
            ShuffleStep::Step1 => progress matches ApplySortProgress::Exchange(next)
                && next.spec_shuffle().at(
                ShuffleStep::Step2,
                sort_permutation.randoms(),
                round_completed(self.spec_shuffle().spec_rounds(), received),
            ) && next.spec_shuffle().context() == self.spec_shuffle().context(),
            ShuffleStep::Step2 => progress matches ApplySortProgress::Exchange(next)
                && next.spec_shuffle().at(
                ShuffleStep::Step3,
                sort_permutation.randoms(),
                round_completed(self.spec_shuffle().spec_rounds(), received),
            ) && next.spec_shuffle().context() == self.spec_shuffle().context(),
            ShuffleStep::Step3 => progress matches ApplySortProgress::Done(shares)
                && is_applied_inv(
                sort_permutation.revealed@,
                round_completed(self.spec_shuffle().spec_rounds(), received),
                coordinates(shares@),
            ),
        }
    }

    /// Takes what the exchange of the current round of the shuffle ended
    /// with. An error ends the application: it is handed on as it is, the
    /// revealed permutation is not applied and no shares come out. Parts
    /// that arrived end the round as `advance` does.
    pub fn proceed(
        self,
        received: Result<Vec<F>, Error>,
        sort_permutation: &RevealedAndRandomPermutations,
    ) -> (r: Result<ApplySortProgress<F>, Error>)
        requires
            self.spec_shuffle().context().wf(),
            self.spec_shuffle().spec_rounds().len() <= u32::MAX,
            received matches Ok(parts) ==> parts@.len() == self.spec_shuffle().spec_rounds().len(),
            sort_permutation.valid_for(self.spec_shuffle().spec_rounds().len()),
        ensures
            match received {
                Err(e) => r == Err::<ApplySortProgress<F>, Error>(e),
                Ok(parts) => r matches Ok(progress) && self.advanced(
                    parts@,
                    sort_permutation,
                    progress,
                ),
            },
    {
        match received {
            Err(e) => Err(e),
            Ok(parts) => Ok(self.advance(parts.as_slice(), sort_permutation)),
        }
    }

    /// Ends the current round of the shuffle with the parts that arrived.
    /// After the last round, the old `i`-th item of the shuffled shares
    /// becomes the new `revealed[i]`-th.
    pub fn advance(self, received: &[F], sort_permutation: &RevealedAndRandomPermutations) -> (progress:
        ApplySortProgress<F>)
        requires
            self.spec_shuffle().context().wf(),
            self.spec_shuffle().spec_rounds().len() <= u32::MAX,
            received@.len() == self.spec_shuffle().spec_rounds().len(),
            sort_permutation.valid_for(self.spec_shuffle().spec_rounds().len()),
        ensures
            self.advanced(received@, sort_permutation, progress),
    {
        let randoms = (
            sort_permutation.randoms_for_shuffle.0.as_slice(),
            sort_permutation.randoms_for_shuffle.1.as_slice(),
        );
        match self.shuffle.advance(received, randoms) {
            ShuffleProgress::Exchange(shuffle) => ApplySortProgress::Exchange(ApplySort { shuffle }),
            ShuffleProgress::Done(shuffled) => {
                let mut shuffled_objects = shuffled;
                let ghost before = shuffled_objects@;
                apply_inv(sort_permutation.revealed.as_slice(), &mut shuffled_objects);
                proof {
                    let perm = sort_permutation.revealed@;
                    let a = coordinates(before);
                    let b = coordinates(shuffled_objects@);
                    assert forall|i: int| 0 <= i < a.len() implies b[(#[trigger] perm[i]) as int]
                        == a[i] by {
                        assert(shuffled_objects@[perm[i] as int] == before[i]);
                    }
                }
                ApplySortProgress::Done(shuffled_objects)
            },
        }
    }
}

/// Begins the application of a sort permutation to `input` at this helper:
/// the inputs are shuffled with the random permutations of
/// `sort_permutation` under the step `shuffle-inputs`; once the shuffle has
/// ended, the revealed permutation is applied without further messages.
pub fn apply_sort_permutation<F: Field>(
    ctx: Context,
    input: Vec<Replicated<F>>,
    sort_permutation: &RevealedAndRandomPermutations,
) -> (state: ApplySort<F>)
    requires
        ctx.wf(),
        input@.len() <= u32::MAX,
        sort_permutation.valid_for(input@.len()),
    ensures
        state.spec_shuffle().at(
            ShuffleStep::Step1,
            sort_permutation.randoms(),
            coordinates(input@),
        ),
        state.spec_shuffle().context().spec_role() == ctx.spec_role(),
        state.spec_shuffle().context().root_keys() == ctx.root_keys(),
        state.spec_shuffle().context().path() == narrowed(
            ctx.path(),
            ApplyInvStep::ShuffleInputs.label(),
        ),
{
    let shuffle = shuffle_shares(
        input,
        (
            sort_permutation.randoms_for_shuffle.0.as_slice(),
            sort_permutation.randoms_for_shuffle.1.as_slice(),
        ),
        ctx.narrow(&ApplyInvStep::ShuffleInputs),
    );
    ApplySort { shuffle }
}

/// The application is correct on what the shares open to. Let `v` be the
/// secrets, `w1`, `w2`, `w3` the secrets after the three rounds of the
/// shuffle, each the one before seen through the permutation of its round,
/// and `result` the secrets after the revealed permutation was applied. Then
/// the item that the shuffle brought to place `i` ends at place
/// `revealed[i]`. Where `revealed` is a sort permutation `sigma` seen
/// through the same shuffle, every such item therefore ends where `sigma`
/// sends it.
pub proof fn lemma_sort_applies(
    v: Seq<int>,
    w1: Seq<int>,
    w2: Seq<int>,
    w3: Seq<int>,
    result: Seq<int>,
    p1: Seq<u32>,
    p2: Seq<u32>,
    p3: Seq<u32>,
    revealed: Seq<u32>,
    sigma: Seq<u32>,
    i: int,
)
    requires
        is_permutation(p1) && p1.len() == v.len(),
        is_permutation(p2) && p2.len() == v.len(),
        is_permutation(p3) && p3.len() == v.len(),
        is_permutation(revealed) && revealed.len() == v.len(),
        w1 == crate::protocol::sort::apply::applied(p1, v),
        w2 == crate::protocol::sort::apply::applied(p2, w1),
        w3 == crate::protocol::sort::apply::applied(p3, w2),
        is_applied_inv(revealed, w3, result),
        0 <= i < v.len(),
    ensures
        ({
            let source = p1[p2[p3[i] as int] as int] as int;
            &&& 0 <= source < v.len()
            &&& result[revealed[i] as int] == v[source]
            &&& (sigma.len() == v.len() && revealed[i] == sigma[source] ==> result[sigma[source] as int]
                == v[source])
        }),
{
    assert(w3[i] == w2[p3[i] as int]);
    assert(w2[p3[i] as int] == w1[p2[p3[i] as int] as int]);
}

/// The application sorts place by place. Let `out` hold at place
/// `revealed[i]` what `v` holds at place `sources[i]`, as the application
/// of a sort permutation leaves it, and let `revealed` be the permutation
/// `sigma` seen through the same shuffle: `revealed[i] == sigma[sources[i]]`.
/// Then `out` is `v` with every item moved to the place that `sigma` gives
/// it; no place of `out` is left open, since a permutation lists every
/// place.
pub proof fn lemma_sort_is_place_by_place(
    v: Seq<int>,
    out: Seq<int>,
    sources: Seq<u32>,
    revealed: Seq<u32>,
    sigma: Seq<u32>,
)
    requires
        is_permutation(sources) && sources.len() == v.len(),
        is_permutation(revealed) && revealed.len() == v.len(),
        is_permutation(sigma) && sigma.len() == v.len(),
        out.len() == v.len(),
        forall|i: int| 0 <= i < v.len() ==> out[(#[trigger] revealed[i]) as int] == v[sources[i] as int],
        forall|i: int| 0 <= i < v.len() ==> (#[trigger] revealed[i]) == sigma[sources[i] as int],
    ensures
        is_applied_inv(sigma, v, out),
{
    assert forall|s: int| 0 <= s < v.len() implies out[(#[trigger] sigma[s]) as int] == v[s] by {
        crate::protocol::sort::apply::lemma_permutation_onto(sources, s);
        let i = choose|i: int| 0 <= i < sources.len() && #[trigger] sources[i] == s;
        assert(out[revealed[i] as int] == v[sources[i] as int]);
    }
}

} // verus!
