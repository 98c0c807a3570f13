//! The three-helper shuffle: three rounds, in each of which two helpers
//! permute their shares by a permutation that the third does not know, and
//! reshare them towards the third.

use vstd::prelude::*;
use vstd::string::StringSliceAdditionalSpecFns;
use crate::error::Error;
use crate::ff::Field;
use crate::helpers::role::{role_at, role_index, spec_peer, Direction, Role};
use crate::protocol::basics::mul::masks;
use crate::protocol::basics::sum_of_product::{all_consistent, column};
use crate::protocol::context::Context;
use crate::protocol::prss::{chacha_block, draw_place, PrssEndpoint, PERMUTE};
use crate::protocol::sort::apply::{applied, apply, is_permutation};
use crate::protocol::sort::reshare::{
    lemma_reshare_keeps_secret, reshared, Reshare, ReshareRound,
};
use crate::protocol::step::{label_bytes, RecordId, Substep};
use crate::secret_sharing::replicated::{consistent, opened, Replicated};

verus! {

/// The three rounds of a shuffle.
#[derive(Debug, Clone, Copy, PartialEq, Eq, Structural)]
pub enum ShuffleStep {
    Step1,
    Step2,
    Step3,
}

impl Substep for ShuffleStep {
    open spec fn label(&self) -> Seq<u8> {
        match self {
            ShuffleStep::Step1 => "reshare-step-1".spec_bytes(),
            ShuffleStep::Step2 => "reshare-step-2".spec_bytes(),
            ShuffleStep::Step3 => "reshare-step-3".spec_bytes(),
        }
    }

    fn to_bytes(&self) -> (out: Vec<u8>) {
        match self {
            ShuffleStep::Step1 => label_bytes("reshare-step-1"),
            ShuffleStep::Step2 => label_bytes("reshare-step-2"),
            ShuffleStep::Step3 => label_bytes("reshare-step-3"),
        }
    }
}

/// The helper that a round reshares towards: the one that does not know the
/// permutation of that round.
pub open spec fn spec_shuffle_for_helper(which_step: ShuffleStep) -> Role {
    match which_step {
        ShuffleStep::Step1 => Role::H1,
        ShuffleStep::Step2 => Role::H2,
        ShuffleStep::Step3 => Role::H3,
    }
}

pub fn shuffle_for_helper(which_step: ShuffleStep) -> (role: Role)
    ensures
        role == spec_shuffle_for_helper(which_step),
{
    match which_step {
        ShuffleStep::Step1 => Role::H1,
        ShuffleStep::Step2 => Role::H2,
        ShuffleStep::Step3 => Role::H3,
    }
}

/// The numbers below `n`, in order.
pub open spec fn identity(n: nat) -> Seq<u32> {
    Seq::new(n, |i: int| i as u32)
}

/// `s` with the items at `i` and `j` exchanged.
pub open spec fn swapped(s: Seq<u32>, i: int, j: int) -> Seq<u32> {
    s.update(i, s[j]).update(j, s[i])
}

/// The permutation of `n` items that a key gives, after `done` steps of the
/// shuffle that walks from the last place down and exchanges each place `i`
/// with a place at or below it, chosen by the value of the key for `i`.
pub open spec fn drawn_permutation(key: u128, n: int, done: int) -> Seq<u32>
    decreases done,
{
    if done <= 0 {
        identity(n as nat)
    } else {
        let i = n - done;
        let j = chacha_block(key, (PERMUTE + i) as u128) as int % (i + 1);
        swapped(drawn_permutation(key, n, done - 1), i, j)
    }
}

proof fn lemma_swapped_permutation(s: Seq<u32>, i: int, j: int)
    requires
        is_permutation(s),
        0 <= i < s.len(),
        0 <= j < s.len(),
    ensures
        is_permutation(swapped(s, i, j)),
        swapped(s, i, j).len() == s.len(),
{
    let t = swapped(s, i, j);
    assert forall|a: int, b: int| 0 <= a < t.len() && 0 <= b < t.len() && a != b implies #[trigger] t[a]
        != #[trigger] t[b] by {
        let sa = if a == i {
            j
        } else if a == j {
            i
        } else {
            a
        };
        let sb = if b == i {
            j
        } else if b == j {
            i
        } else {
            b
        };
        assert(t[a] == s[sa]);
        assert(t[b] == s[sb]);
    }
    assert forall|a: int| 0 <= a < t.len() implies (#[trigger] t[a]) < t.len() by {
        let sa = if a == i {
            j
        } else if a == j {
            i
        } else {
            a
        };
        assert(t[a] == s[sa]);
    }
}

/// The permutation of `n` items that a key gives.
pub fn random_permutation(key: u128, n: u32) -> (perm: Vec<u32>)
    ensures
        perm@ == drawn_permutation(key, n as int, n - 1),
        perm@.len() == n,
        is_permutation(perm@),
{
    let mut perm: Vec<u32> = Vec::new();
    let mut k: u32 = 0;
    while k < n
        invariant
            k <= n,
            perm@ == identity(k as nat),
        decreases n - k,
    {
        perm.push(k);
        assert(perm@ =~= identity((k + 1) as nat));
        k = k + 1;
    }
    if n == 0 {
        return perm;
    }
    let mut done: u32 = 0;
    while done < n - 1
        invariant
            n >= 1,
            done <= n - 1,
            perm@.len() == n,
            perm@ == drawn_permutation(key, n as int, done as int),
            is_permutation(perm@),
        decreases n - 1 - done,
    {
        done = done + 1;
        let i: u32 = n - done;
        let j: u32 = (draw_place(key, i) % (i as u128 + 1)) as u32;
        let at_i: u32 = perm[i as usize];
        let at_j: u32 = perm[j as usize];
        proof {
            lemma_swapped_permutation(perm@, i as int, j as int);
        }
        let ghost before = perm@;
        perm.set(i as usize, at_j);
        perm.set(j as usize, at_i);
        assert(perm@ =~= swapped(before, i as int, j as int));
    }
    perm
}

/// The two permutations of `n` items that a helper shares with its
/// neighbours in a step: the one it shares with the left-hand neighbour and
/// the one it shares with the right-hand neighbour.
pub fn random_permutations(ctx: &Context, n: u32) -> (perms: (Vec<u32>, Vec<u32>))
    ensures
        perms.0@ == drawn_permutation(ctx.keys().left, n as int, n - 1),
        perms.1@ == drawn_permutation(ctx.keys().right, n as int, n - 1),
        perms.0@.len() == n,
        perms.1@.len() == n,
        is_permutation(perms.0@),
        is_permutation(perms.1@),
{
    let keys = ctx.prss();
    (random_permutation(keys.left, n), random_permutation(keys.right, n))
}

/// The permutation that a helper applies in the round towards `to_helper`:
/// none if it is the target, the one it shares with its left-hand neighbour
/// if it is the left-hand neighbour of the target, and the one it shares
/// with its right-hand neighbour otherwise. Either way it is the one that
/// the two neighbours of the target have in common.
pub open spec fn arranged<T>(
    role: Role,
    to_helper: Role,
    permutations: (Seq<u32>, Seq<u32>),
    input: Seq<T>,
) -> Seq<T> {
    if role == to_helper {
        input
    } else if role == spec_peer(to_helper, Direction::Left) {
        applied(permutations.0, input)
    } else {
        applied(permutations.1, input)
    }
}

/// Whether `rounds` is where a helper stands after the first half of a
/// round of the shuffle: item `i` of the arranged input is being reshared
/// towards the target under record `i` of the step of the round.
pub open spec fn round_begun<F: Field>(
    rounds: Seq<ReshareRound<F>>,
    role: Role,
    to_helper: Role,
    keys: PrssEndpoint,
    input: Seq<(int, int)>,
) -> bool {
    &&& rounds.len() == input.len()
    &&& forall|i: int|
        0 <= i < input.len() ==> (#[trigger] rounds[i]).begun(
            role,
            to_helper,
            input[i],
            masks(keys, i, F::prime()),
        )
}

/// The coordinates of a vector of shares.
pub open spec fn coordinates<F: Field>(shares: Seq<Replicated<F>>) -> Seq<(int, int)> {
    Seq::new(shares.len(), |i: int| shares[i].ints())
}

/// The shares that a helper ends a round with, when `received[i]` is the
/// part that arrived for item `i`.
pub open spec fn round_completed<F: Field>(rounds: Seq<ReshareRound<F>>, received: Seq<F>) -> Seq<
    (int, int),
> {
    Seq::new(rounds.len(), |i: int| rounds[i].completed(received[i].as_int()))
}

/// The first half of one round of the shuffle at this helper. Unless it is
/// the target of the round, the helper permutes its shares; then every item
/// is reshared towards the target.
pub fn shuffle_once<F: Field>(
    input: Vec<Replicated<F>>,
    random_permutations: (&[u32], &[u32]),
    which_step: ShuffleStep,
    ctx: &Context,
) -> (rounds: Vec<ReshareRound<F>>)
    requires
        ctx.wf(),
        input@.len() <= u32::MAX,
        random_permutations.0@.len() == input@.len(),
        random_permutations.1@.len() == input@.len(),
        is_permutation(random_permutations.0@),
        is_permutation(random_permutations.1@),
    ensures
        round_begun(
            rounds@,
            ctx.spec_role(),
            spec_shuffle_for_helper(which_step),
            ctx.child_keys(which_step.label()),
            arranged(
                ctx.spec_role(),
                spec_shuffle_for_helper(which_step),
                (random_permutations.0@, random_permutations.1@),
                coordinates(input@),
            ),
        ),
{
    let to_helper = shuffle_for_helper(which_step);
    let mut values = input;
    if !ctx.role().is(to_helper) {
        if to_helper.peer(Direction::Left).is(ctx.role()) {
            apply(random_permutations.0, &mut values);
        } else {
            apply(random_permutations.1, &mut values);
        }
    }
    proof {
        let perms = (random_permutations.0@, random_permutations.1@);
        assert(coordinates(values@) =~= arranged(
            ctx.spec_role(),
            to_helper,
            perms,
            coordinates(input@),
        ));
    }
    let child = ctx.narrow(&which_step);
    let mut rounds: Vec<ReshareRound<F>> = Vec::new();
    let mut i: usize = 0;
    while i < values.len()
        invariant
            i <= values@.len(),
            values@.len() <= u32::MAX,
            rounds@.len() == i,
            forall|k: int|
                0 <= k < i ==> (#[trigger] rounds@[k]).begun(
                    child.spec_role(),
                    to_helper,
                    coordinates(values@)[k],
                    masks(child.keys(), k, F::prime()),
                ),
        decreases values@.len() - i,
    {
        let round = Reshare::new(values[i]).execute(&child, RecordId::from(i as u32), to_helper);
        rounds.push(round);
        i = i + 1;
    }
    rounds
}

/// The second half of a round of the shuffle: every reshare is finished
/// with the part that arrived for it. The target of the round received
/// nothing and may pass anything of the right length.
pub fn finish_round<F: Field>(rounds: Vec<ReshareRound<F>>, received: &[F]) -> (shares: Vec<
    Replicated<F>,
>)
    requires
        received@.len() == rounds@.len(),
    ensures
        shares@.len() == rounds@.len(),
        coordinates(shares@) == round_completed(rounds@, received@),
{
    let mut shares: Vec<Replicated<F>> = Vec::new();
    let mut i: usize = 0;
    while i < rounds.len()
        invariant
            i <= rounds@.len(),
            received@.len() == rounds@.len(),
            shares@.len() == i,
            forall|k: int|
                0 <= k < i ==> (#[trigger] shares@[k]).ints() == rounds@[k].completed(
                    received@[k].as_int(),
                ),
        decreases rounds@.len() - i,
    {
        shares.push(rounds[i].finish(received[i]));
        i = i + 1;
    }
    assert(coordinates(shares@) =~= round_completed(rounds@, received@));
    shares
}

/// A shuffle under way at one helper: the round it is in, and where every
/// item stands in that round.
#[derive(Debug)]
pub struct Shuffle<F> {
    which_step: ShuffleStep,
    rounds: Vec<ReshareRound<F>>,
    ctx: Context,
}

/// Where a shuffle stands once a round has ended.
#[derive(Debug)]
pub enum ShuffleProgress<F> {
    /// The next round has begun and has parts to swap.
    Exchange(Shuffle<F>),
    /// The last round has ended: these are the shuffled shares.
    Done(Vec<Replicated<F>>),
}

impl<F: Field> Shuffle<F> {
    /// The round the shuffle is in.
    pub closed spec fn spec_step(&self) -> ShuffleStep {
        self.which_step
    }

    /// Where every item stands in the current round.
    pub closed spec fn spec_rounds(&self) -> Seq<ReshareRound<F>> {
        self.rounds@
    }

    /// The handle the shuffle runs under.
    pub closed spec fn context(&self) -> Context {
        self.ctx
    }

    /// Whether the shuffle has begun the round `which_step` on `input`.
    pub open spec fn at(
        &self,
        which_step: ShuffleStep,
        permutations: (Seq<u32>, Seq<u32>),
        input: Seq<(int, int)>,
    ) -> bool {
        &&& self.spec_step() == which_step
        &&& self.context().wf()
        &&& round_begun(
            self.spec_rounds(),
            self.context().spec_role(),
            spec_shuffle_for_helper(which_step),
            self.context().child_keys(which_step.label()),
            arranged(
                self.context().spec_role(),
                spec_shuffle_for_helper(which_step),
                permutations,
                input,
            ),
        )
    }

    /// The round the shuffle is in.
    pub fn step(&self) -> (which_step: ShuffleStep)
        ensures
            which_step == self.spec_step(),
    {
        self.which_step
    }

    /// Where every item stands in the current round. Item `i` is exchanged
    /// under record `i` of the step of the round.
    pub fn rounds(&self) -> (rounds: &Vec<ReshareRound<F>>)
        ensures
            rounds@ == self.spec_rounds(),
    {
        &self.rounds
    }

    /// Whether `progress` is where the shuffle stands once the current round
    /// has ended with the parts `received`: after the first and the second
    /// round the next round has begun on the shares that the round ended
    /// with; after the third round those shares are the result.
    pub open spec fn advanced(
        self,
        received: Seq<F>,
        permutations: (Seq<u32>, Seq<u32>),
        progress: ShuffleProgress<F>,
    ) -> bool {
        match self.spec_step() {
            ShuffleStep::Step1 => progress matches ShuffleProgress::Exchange(next) && next.at(
                ShuffleStep::Step2,
                permutations,
                round_completed(self.spec_rounds(), received),
            ) && next.context() == self.context(),
            ShuffleStep::Step2 => progress matches ShuffleProgress::Exchange(next) && next.at(
                ShuffleStep::Step3,
                permutations,
                round_completed(self.spec_rounds(), received),
            ) && next.context() == self.context(),
            ShuffleStep::Step3 => progress matches ShuffleProgress::Done(shares) && shares@.len()
                == self.spec_rounds().len() && coordinates(shares@) == round_completed(
                self.spec_rounds(),
                received,
            ),
        }
    }

    /// Takes what the exchange of the current round ended with. An error
    /// ends the shuffle: it is handed on as it is, and no shares come out.
    /// Parts that arrived end the round as `advance` does.
    pub fn proceed(
        self,
        received: Result<Vec<F>, Error>,
        random_permutations: (&[u32], &[u32]),
    ) -> (r: Result<ShuffleProgress<F>, Error>)
        requires
            self.context().wf(),
            self.spec_rounds().len() <= u32::MAX,
            received matches Ok(parts) ==> parts@.len() == self.spec_rounds().len(),
            random_permutations.0@.len() == self.spec_rounds().len(),
            random_permutations.1@.len() == self.spec_rounds().len(),
            is_permutation(random_permutations.0@),
            is_permutation(random_permutations.1@),
        ensures
            match received {
                Err(e) => r == Err::<ShuffleProgress<F>, Error>(e),
                Ok(parts) => r matches Ok(progress) && self.advanced(
                    parts@,
                    (random_permutations.0@, random_permutations.1@),
                    progress,
                ),
            },
    {
        match received {
            Err(e) => Err(e),
            Ok(parts) => Ok(self.advance(parts.as_slice(), random_permutations)),
        }
    }

    /// Ends the current round with the parts that arrived, and begins the
    /// next one if there is one.
    pub fn advance(self, received: &[F], random_permutations: (&[u32], &[u32])) -> (progress:
        ShuffleProgress<F>)
        requires
            self.context().wf(),
            self.spec_rounds().len() <= u32::MAX,
            received@.len() == self.spec_rounds().len(),
            random_permutations.0@.len() == self.spec_rounds().len(),
            random_permutations.1@.len() == self.spec_rounds().len(),
            is_permutation(random_permutations.0@),
            is_permutation(random_permutations.1@),
        ensures
            self.advanced(received@, (random_permutations.0@, random_permutations.1@), progress),
    {
        let Shuffle { which_step, rounds, ctx } = self;
        let shares = finish_round(rounds, received);
        match which_step {
            ShuffleStep::Step1 => {
                let rounds = shuffle_once(shares, random_permutations, ShuffleStep::Step2, &ctx);
                ShuffleProgress::Exchange(Shuffle { which_step: ShuffleStep::Step2, rounds, ctx })
            },
            ShuffleStep::Step2 => {
                let rounds = shuffle_once(shares, random_permutations, ShuffleStep::Step3, &ctx);
                ShuffleProgress::Exchange(Shuffle { which_step: ShuffleStep::Step3, rounds, ctx })
            },
            ShuffleStep::Step3 => ShuffleProgress::Done(shares),
        }
    }
}

/// Begins the shuffle of `input` at this helper, with the two permutations
/// that the helper shares with its left-hand and right-hand neighbour. The
/// shuffle takes three rounds; in each, the helper that does not know the
/// permutation of the round is the one that the others reshare towards.
pub fn shuffle_shares<F: Field>(
    input: Vec<Replicated<F>>,
    random_permutations: (&[u32], &[u32]),
    ctx: Context,
) -> (shuffle: Shuffle<F>)
    requires
        ctx.wf(),
        input@.len() <= u32::MAX,
        random_permutations.0@.len() == input@.len(),
        random_permutations.1@.len() == input@.len(),
        is_permutation(random_permutations.0@),
        is_permutation(random_permutations.1@),
    ensures
        shuffle.context() == ctx,
        shuffle.at(
            ShuffleStep::Step1,
            (random_permutations.0@, random_permutations.1@),
            coordinates(input@),
        ),
{
    let rounds = shuffle_once(input, random_permutations, ShuffleStep::Step1, &ctx);
    Shuffle { which_step: ShuffleStep::Step1, rounds, ctx }
}

/// What the three helpers hold of item `i` after the round towards the
/// helper at position `t`: the neighbours of the target reshare item
/// `perm[i]` of what they held, with the pairs of record `i`.
pub open spec fn shuffled_column(
    x: Seq<Seq<(int, int)>>,
    perm: Seq<u32>,
    r: Seq<Seq<(int, int)>>,
    t: int,
    p: int,
    i: int,
) -> Seq<(int, int)> {
    reshared(
        Seq::new(
            3,
            |h: int|
                if h == t {
                    x[h][i]
                } else {
                    x[h][perm[i] as int]
                },
        ),
        column(r, i),
        t,
        p,
    )
}

/// A round of the shuffle permutes the secrets: when the two neighbours of
/// the target apply the same permutation to consistent shares, item `i` of
/// what the three helpers end with is a consistent sharing of item
/// `perm[i]` of what they began with. The target never learns `perm`, and
/// what it held before does not count.
pub proof fn lemma_round_permutes(
    x: Seq<Seq<(int, int)>>,
    perm: Seq<u32>,
    r: Seq<Seq<(int, int)>>,
    to: Role,
    n: int,
    p: int,
    i: int,
)
    requires
        p > 0,
        all_consistent(x, n),
        all_consistent(r, n),
        is_permutation(perm),
        perm.len() == n,
        0 <= i < n,
    ensures
        consistent(shuffled_column(x, perm, r, role_index(to), p, i)),
        opened(shuffled_column(x, perm, r, role_index(to), p, i), p) == opened(
            column(x, perm[i] as int),
            p,
        ),
{
    let t = role_index(to);
    let source = column(x, perm[i] as int);
    let actual = Seq::new(
        3,
        |h: int|
            if h == t {
                x[h][i]
            } else {
                x[h][perm[i] as int]
            },
    );
    assert(consistent(source));
    assert(consistent(column(r, i)));
    assert(reshared(actual, column(r, i), t, p) =~= reshared(source, column(r, i), t, p));
    lemma_reshare_keeps_secret(source, column(r, i), to, p);
}

} // verus!
