//! The shuffle and the application of a sort permutation, on three helpers
//! in step.

use vstd::prelude::*;
use crate::ff::Field;
use crate::helpers::role::{role_at, role_index, Role};
use crate::protocol::basics::mul::masks;
use crate::protocol::basics::sum_of_product::{all_consistent, column};
use crate::protocol::sort::apply::{composed, is_permutation, lemma_composed};
use crate::protocol::sort::apply_sort::{
    apply_sort_permutation, ApplyInvStep, ApplySort, ApplySortProgress,
    RevealedAndRandomPermutations,
};
use crate::protocol::sort::reshare::{lemma_rounds_reshare, reshared, ReshareRound};
use crate::protocol::sort::shuffle::{
    arranged, coordinates, lemma_round_permutes, round_begun, round_completed,
    shuffle_for_helper, shuffle_shares, shuffled_column, spec_shuffle_for_helper, Shuffle,
    ShuffleProgress, ShuffleStep,
};
use crate::protocol::step::Substep;
use crate::secret_sharing::replicated::{consistent, opened, Replicated};
use crate::test_fixture::world::TestWorld;

verus! {

/// What the three helpers hold of item `i`.
pub open spec fn held<F: Field>(x: [Vec<Replicated<F>>; 3], i: int) -> Seq<(int, int)> {
    seq![x[0]@[i].ints(), x[1]@[i].ints(), x[2]@[i].ints()]
}

/// Whether every helper holds `n` shares and the shares of every item fit
/// together.
pub open spec fn all_valid<F: Field>(x: [Vec<Replicated<F>>; 3], n: int) -> bool {
    &&& forall|h: int| 0 <= h < 3 ==> (#[trigger] x[h])@.len() == n
    &&& forall|i: int| 0 <= i < n ==> consistent(#[trigger] held(x, i))
}

/// The secret behind item `i`.
pub open spec fn secret_at<F: Field>(x: [Vec<Replicated<F>>; 3], i: int) -> int {
    opened(held(x, i), F::prime())
}

/// Whether the permutations of the three helpers fit together and are
/// permutations of `n` items: what a helper shares with its right-hand
/// neighbour is what that neighbour shares with its left-hand one.
pub open spec fn permutations_fit(perms: [(Vec<u32>, Vec<u32>); 3], n: int) -> bool {
    &&& forall|h: int|
        0 <= h < 3 ==> (#[trigger] perms[h]).0@.len() == n && perms[h].1@.len() == n
            && is_permutation(perms[h].0@) && is_permutation(perms[h].1@)
    &&& perms[0].1@ == perms[1].0@
    &&& perms[1].1@ == perms[2].0@
    &&& perms[2].1@ == perms[0].0@
}

/// The permutation of the round towards the helper at position `t`: the one
/// that its two neighbours share.
pub open spec fn round_permutation(perms: [(Vec<u32>, Vec<u32>); 3], t: int) -> Seq<u32> {
    perms[(t + 2) % 3].0@
}

/// A copy of a vector of shares.
fn copy_of<F: Field>(shares: &Vec<Replicated<F>>) -> (out: Vec<Replicated<F>>)
    ensures
        out@ == shares@,
{
    let mut out: Vec<Replicated<F>> = Vec::new();
    let mut i: usize = 0;
    while i < shares.len()
        invariant
            i <= shares@.len(),
            out@ == shares@.take(i as int),
        decreases shares@.len() - i,
    {
        out.push(shares[i]);
        assert(out@ =~= shares@.take(i + 1));
        i = i + 1;
    }
    assert(shares@.take(i as int) =~= shares@);
    out
}

/// The part that a helper sends for an item of a round; zero if it has none.
fn part_at<F: Field>(rounds: &Vec<ReshareRound<F>>, i: usize) -> (part: F)
    requires
        i < rounds@.len(),
    ensures
        rounds@[i as int] matches ReshareRound::Exchange(e) ==> part == e.spec_part(),
{
    match rounds[i].outgoing() {
        Some((_, part)) => part,
        None => F::zero(),
    }
}

/// The parts of all items of a round, in order.
fn parts_of<F: Field>(rounds: &Vec<ReshareRound<F>>) -> (parts: Vec<F>)
    ensures
        parts@.len() == rounds@.len(),
        forall|i: int|
            0 <= i < rounds@.len() ==> (rounds@[i] matches ReshareRound::Exchange(e) ==> (
            #[trigger] parts@[i]) == e.spec_part()),
{
    let mut parts: Vec<F> = Vec::new();
    let mut i: usize = 0;
    while i < rounds.len()
        invariant
            i <= rounds@.len(),
            parts@.len() == i,
            forall|k: int|
                0 <= k < i ==> (rounds@[k] matches ReshareRound::Exchange(e) ==> (
                #[trigger] parts@[k]) == e.spec_part()),
        decreases rounds@.len() - i,
    {
        parts.push(part_at(rounds, i));
        i = i + 1;
    }
    parts
}

/// A copy of a permutation.
fn copy_of_places(places: &Vec<u32>) -> (out: Vec<u32>)
    ensures
        out@ == places@,
{
    let mut out: Vec<u32> = Vec::new();
    let mut i: usize = 0;
    while i < places.len()
        invariant
            i <= places@.len(),
            out@ == places@.take(i as int),
        decreases places@.len() - i,
    {
        out.push(places[i]);
        assert(out@ =~= places@.take(i + 1));
        i = i + 1;
    }
    assert(places@.take(i as int) =~= places@);
    out
}

/// Whether the parts of a round towards the helper at position `t` went
/// where they belong: each neighbour of the target received, for every
/// item, the part of the other neighbour.
pub open spec fn swapped<F: Field>(
    rounds: Seq<Seq<ReshareRound<F>>>,
    received: Seq<Seq<F>>,
    t: int,
    n: int,
) -> bool {
    let l = (t + 2) % 3;
    let r = (t + 1) % 3;
    &&& received.len() == 3
    &&& forall|h: int| 0 <= h < 3 ==> (#[trigger] received[h]).len() == n
    &&& forall|i: int|
        0 <= i < n ==> ((#[trigger] rounds[r][i]) matches ReshareRound::Exchange(e)
            ==> received[l][i] == e.spec_part())
    &&& forall|i: int|
        0 <= i < n ==> ((#[trigger] rounds[l][i]) matches ReshareRound::Exchange(e)
            ==> received[r][i] == e.spec_part())
}

/// Hands the parts of a round to the helpers they are for. What the target
/// of the round is handed does not count.
fn exchange<F: Field>(
    r0: &Vec<ReshareRound<F>>,
    r1: &Vec<ReshareRound<F>>,
    r2: &Vec<ReshareRound<F>>,
    to_helper: Role,
) -> (q: (Vec<F>, Vec<F>, Vec<F>))
    requires
        r0@.len() == r1@.len(),
        r1@.len() == r2@.len(),
    ensures
        swapped(
            seq![r0@, r1@, r2@],
            seq![q.0@, q.1@, q.2@],
            role_index(to_helper),
            r0@.len() as int,
        ),
{
    let p0 = parts_of(r0);
    let p1 = parts_of(r1);
    let p2 = parts_of(r2);
    // the part of each neighbour of the target goes to the other one
    match to_helper {
        Role::H1 => (p0, p2, p1),
        Role::H2 => (p2, p1, p0),
        Role::H3 => (p1, p0, p2),
    }
}

/// The correlated pairs of the three helpers for the records of the round
/// `which_step`, below the step of `world`.
pub open spec fn round_pairs(world: &TestWorld, which_step: ShuffleStep, n: int, p: int) -> Seq<
    Seq<(int, int)>,
> {
    Seq::new(
        3,
        |h: int|
            Seq::new(
                n as nat,
                |i: int| masks(world.context(h).child_keys(which_step.label()), i, p),
            ),
    )
}

/// A round run by the three state machines permutes the secrets. Let the
/// three helpers of `world` stand in the round `which_step` on consistent
/// shares `x`, each with its own two permutations, and let the parts of the
/// round go where they belong. Then the shares that the helpers end the
/// round with are consistent, and item `i` is a sharing of the item that
/// the permutation of the round reads at `i`.
proof fn lemma_round_in_step<F: Field>(
    world: &TestWorld,
    which_step: ShuffleStep,
    states: Seq<Shuffle<F>>,
    perms: [(Vec<u32>, Vec<u32>); 3],
    x: Seq<Seq<(int, int)>>,
    received: Seq<Seq<F>>,
    n: int,
)
    requires
        world.wf(),
        states.len() == 3,
        forall|h: int|
            0 <= h < 3 ==> (#[trigger] states[h]).at(
                which_step,
                (perms[h].0@, perms[h].1@),
                x[h],
            ) && states[h].context().spec_role() == world.context(h).spec_role()
                && states[h].context().path() == world.context(h).path()
                && states[h].context().root_keys() == world.context(h).root_keys(),
        all_consistent(x, n),
        permutations_fit(perms, n),
        swapped(
            Seq::new(3, |h: int| states[h].spec_rounds()),
            received,
            role_index(spec_shuffle_for_helper(which_step)),
            n,
        ),
    ensures
        ({
            let y = Seq::new(3, |h: int| round_completed(states[h].spec_rounds(), received[h]));
            let perm = round_permutation(perms, role_index(spec_shuffle_for_helper(which_step)));
            &&& all_consistent(y, n)
            &&& forall|i: int|
                0 <= i < n ==> opened(#[trigger] column(y, i), F::prime()) == opened(
                    column(x, perm[i] as int),
                    F::prime(),
                )
        }),
{
    let p = F::prime();
    let to = spec_shuffle_for_helper(which_step);
    let t = role_index(to);
    let perm = round_permutation(perms, t);
    let rounds = Seq::new(3, |h: int| states[h].spec_rounds());
    let y = Seq::new(3, |h: int| round_completed(states[h].spec_rounds(), received[h]));
    let r = round_pairs(world, which_step, n, p);
    F::lemma_modulus();
    assert(world.context(0).wf() && world.context(1).wf() && world.context(2).wf());
    assert(states[0].at(which_step, (perms[0].0@, perms[0].1@), x[0]));
    assert(states[1].at(which_step, (perms[1].0@, perms[1].1@), x[1]));
    assert(states[2].at(which_step, (perms[2].0@, perms[2].1@), x[2]));
    assert(perms[0].0@.len() == n && perms[1].0@.len() == n && perms[2].0@.len() == n);
    assert(x[0].len() == n && x[1].len() == n && x[2].len() == n);
    assert(received[0].len() == n && received[1].len() == n && received[2].len() == n);
    assert(all_consistent(r, n)) by {
        assert forall|k: int| 0 <= k < n implies consistent(#[trigger] column(r, k)) by {
            assert(r[0][k] == masks(world.context(0).child_keys(which_step.label()), k, p));
            assert(r[1][k] == masks(world.context(1).child_keys(which_step.label()), k, p));
            assert(r[2][k] == masks(world.context(2).child_keys(which_step.label()), k, p));
        }
    }
    assert forall|i: int| 0 <= i < n implies consistent(#[trigger] column(y, i)) && opened(
        column(y, i),
        p,
    ) == opened(column(x, perm[i] as int), p) by {
        let actual = Seq::new(
            3,
            |h: int|
                if h == t {
                    x[h][i]
                } else {
                    x[h][perm[i] as int]
                },
        );
        let here = seq![rounds[0][i], rounds[1][i], rounds[2][i]];
        assert forall|h: int| 0 <= h < 3 implies (#[trigger] here[h]).begun(
            role_at(h),
            to,
            actual[h],
            column(r, i)[h],
        ) by {
            assert(world.context(h).spec_role() == role_at(h));
            let a = arranged(role_at(h), to, (perms[h].0@, perms[h].1@), x[h]);
            assert(round_begun(
                states[h].spec_rounds(),
                role_at(h),
                to,
                states[h].context().child_keys(which_step.label()),
                a,
            ));
            assert(states[h].context().child_keys(which_step.label()) == world.context(
                h,
            ).child_keys(which_step.label()));
            assert(states[h].spec_rounds()[i].begun(
                role_at(h),
                to,
                a[i],
                masks(states[h].context().child_keys(which_step.label()), i, p),
            ));
            assert(a[i] == actual[h]);
            assert(column(r, i)[h] == r[h][i]);
        }
        lemma_rounds_reshare(here, actual, column(r, i), to, 0);
        lemma_round_permutes(x, perm, r, to, n, p, i);
        let z = shuffled_column(x, perm, r, t, p, i);
        let l = (t + 2) % 3;
        let o = (t + 1) % 3;
        assert(rounds[o][i] == here[o] && rounds[l][i] == here[l] && rounds[t][i] == here[t]);
        assert(y[0][i] == rounds[0][i].completed(received[0][i].as_int()));
        assert(y[1][i] == rounds[1][i].completed(received[1][i].as_int()));
        assert(y[2][i] == rounds[2][i].completed(received[2][i].as_int()));
        assert(column(y, i) =~= z);
    }
}

/// The state that a round left behind, where another round follows.
fn following<F: Field>(progress: ShuffleProgress<F>) -> (next: Shuffle<F>)
    requires
        progress is Exchange,
    ensures
        progress == ShuffleProgress::Exchange(next),
{
    match progress {
        ShuffleProgress::Exchange(next) => next,
        ShuffleProgress::Done(_) => vstd::pervasive::unreached(),
    }
}

/// The shares that the last round left behind.
fn finished<F: Field>(progress: ShuffleProgress<F>) -> (shares: Vec<Replicated<F>>)
    requires
        progress is Done,
    ensures
        progress == ShuffleProgress::Done(shares),
{
    match progress {
        ShuffleProgress::Done(shares) => shares,
        ShuffleProgress::Exchange(_) => vstd::pervasive::unreached(),
    }
}

/// The state that a round of the shuffle of a sort application left behind,
/// where another round follows.
fn following_sort<F: Field>(progress: ApplySortProgress<F>) -> (next: ApplySort<F>)
    requires
        progress is Exchange,
    ensures
        progress == ApplySortProgress::Exchange(next),
{
    match progress {
        ApplySortProgress::Exchange(next) => next,
        ApplySortProgress::Done(_) => vstd::pervasive::unreached(),
    }
}

/// The shares that a sort application left behind.
fn finished_sort<F: Field>(progress: ApplySortProgress<F>) -> (shares: Vec<Replicated<F>>)
    requires
        progress is Done,
    ensures
        progress == ApplySortProgress::Done(shares),
{
    match progress {
        ApplySortProgress::Done(shares) => shares,
        ApplySortProgress::Exchange(_) => vstd::pervasive::unreached(),
    }
}

/// The shuffle: every helper runs its shuffle from `shuffle_shares` through
/// its three rounds, towards H1, H2 and H3 in turn, and the parts of every
/// round are handed to the helpers they are for. Item `i` of the result is
/// a sharing of the item that the three permutations, read one through the
/// other, lead to. Every helper knows two of the three, so none knows where
/// an item went.
pub fn shuffle<F: Field>(
    world: &TestWorld,
    inputs: [Vec<Replicated<F>>; 3],
    perms: &[(Vec<u32>, Vec<u32>); 3],
) -> (out: [Vec<Replicated<F>>; 3])
    requires
        world.wf(),
        inputs[0]@.len() <= u32::MAX,
        all_valid(inputs, inputs[0]@.len() as int),
        permutations_fit(*perms, inputs[0]@.len() as int),
    ensures
        all_valid(out, inputs[0]@.len() as int),
        forall|i: int|
            0 <= i < inputs[0]@.len() ==> #[trigger] secret_at(out, i) == secret_at(
                inputs,
                source(*perms, i),
            ) && 0 <= source(*perms, i) < inputs[0]@.len(),
        is_permutation(sources(*perms, inputs[0]@.len() as int)),
{
    let ghost n = inputs[0]@.len() as int;
    let ghost p = F::prime();
    let ghost x0 = Seq::new(3, |h: int| coordinates(inputs[h]@));
    proof {
        lemma_sources_permutation(*perms, n);
        assert(world.context(0).wf() && world.context(1).wf() && world.context(2).wf());
        assert(perms[0].0@.len() == n && perms[1].0@.len() == n && perms[2].0@.len() == n);
        assert(perms[0].1@.len() == n && perms[1].1@.len() == n && perms[2].1@.len() == n);
        assert(inputs[0]@.len() == n && inputs[1]@.len() == n && inputs[2]@.len() == n);
        assert(all_consistent(x0, n)) by {
            assert forall|k: int| 0 <= k < n implies consistent(#[trigger] column(x0, k)) by {
                assert(consistent(held(inputs, k)));
                assert(column(x0, k) =~= held(inputs, k));
            }
        }
    }
    let a0 = shuffle_shares(
        copy_of(&inputs[0]),
        (perms[0].0.as_slice(), perms[0].1.as_slice()),
        world.helper(0).duplicate(),
    );
    let a1 = shuffle_shares(
        copy_of(&inputs[1]),
        (perms[1].0.as_slice(), perms[1].1.as_slice()),
        world.helper(1).duplicate(),
    );
    let a2 = shuffle_shares(
        copy_of(&inputs[2]),
        (perms[2].0.as_slice(), perms[2].1.as_slice()),
        world.helper(2).duplicate(),
    );
    // the round towards H1
    let q = exchange(a0.rounds(), a1.rounds(), a2.rounds(), Role::H1);
    let ghost x1 = Seq::new(
        3,
        |h: int| round_completed(seq![a0, a1, a2][h].spec_rounds(), seq![q.0@, q.1@, q.2@][h]),
    );
    proof {
        assert(Seq::new(3, |h: int| seq![a0, a1, a2][h].spec_rounds()) =~= seq![
            a0.spec_rounds(),
            a1.spec_rounds(),
            a2.spec_rounds(),
        ]);
        lemma_round_in_step(
            world,
            ShuffleStep::Step1,
            seq![a0, a1, a2],
            *perms,
            x0,
            seq![q.0@, q.1@, q.2@],
            n,
        );
    }
    let b0 = following(a0.advance(q.0.as_slice(), (perms[0].0.as_slice(), perms[0].1.as_slice())));
    let b1 = following(a1.advance(q.1.as_slice(), (perms[1].0.as_slice(), perms[1].1.as_slice())));
    let b2 = following(a2.advance(q.2.as_slice(), (perms[2].0.as_slice(), perms[2].1.as_slice())));
    // the round towards H2
    let q = exchange(b0.rounds(), b1.rounds(), b2.rounds(), Role::H2);
    let ghost x2 = Seq::new(
        3,
        |h: int| round_completed(seq![b0, b1, b2][h].spec_rounds(), seq![q.0@, q.1@, q.2@][h]),
    );
    proof {
        assert(Seq::new(3, |h: int| seq![b0, b1, b2][h].spec_rounds()) =~= seq![
            b0.spec_rounds(),
            b1.spec_rounds(),
            b2.spec_rounds(),
        ]);
        lemma_round_in_step(
            world,
            ShuffleStep::Step2,
            seq![b0, b1, b2],
            *perms,
            x1,
            seq![q.0@, q.1@, q.2@],
            n,
        );
    }
    let c0 = following(b0.advance(q.0.as_slice(), (perms[0].0.as_slice(), perms[0].1.as_slice())));
    let c1 = following(b1.advance(q.1.as_slice(), (perms[1].0.as_slice(), perms[1].1.as_slice())));
    let c2 = following(b2.advance(q.2.as_slice(), (perms[2].0.as_slice(), perms[2].1.as_slice())));
    // the round towards H3
    let q = exchange(c0.rounds(), c1.rounds(), c2.rounds(), Role::H3);
    let ghost x3 = Seq::new(
        3,
        |h: int| round_completed(seq![c0, c1, c2][h].spec_rounds(), seq![q.0@, q.1@, q.2@][h]),
    );
    proof {
        assert(Seq::new(3, |h: int| seq![c0, c1, c2][h].spec_rounds()) =~= seq![
            c0.spec_rounds(),
            c1.spec_rounds(),
            c2.spec_rounds(),
        ]);
        lemma_round_in_step(
            world,
            ShuffleStep::Step3,
            seq![c0, c1, c2],
            *perms,
            x2,
            seq![q.0@, q.1@, q.2@],
            n,
        );
    }
    let out = [
        finished(c0.advance(q.0.as_slice(), (perms[0].0.as_slice(), perms[0].1.as_slice()))),
        finished(c1.advance(q.1.as_slice(), (perms[1].0.as_slice(), perms[1].1.as_slice()))),
        finished(c2.advance(q.2.as_slice(), (perms[2].0.as_slice(), perms[2].1.as_slice()))),
    ];
    proof {
        assert forall|i: int| 0 <= i < n implies consistent(#[trigger] held(out, i)) && secret_at(
            out,
            i,
        ) == secret_at(inputs, source(*perms, i)) && 0 <= source(*perms, i) < n by {
            let a = round_permutation(*perms, 2)[i] as int;
            let b = round_permutation(*perms, 1)[a] as int;
            let c = round_permutation(*perms, 0)[b] as int;
            assert(coordinates(out[0]@)[i] == out[0]@[i].ints());
            assert(coordinates(out[1]@)[i] == out[1]@[i].ints());
            assert(coordinates(out[2]@)[i] == out[2]@[i].ints());
            assert(held(out, i) =~= column(x3, i));
            assert(opened(column(x3, i), p) == opened(column(x2, a), p));
            assert(opened(column(x2, a), p) == opened(column(x1, b), p));
            assert(opened(column(x1, b), p) == opened(column(x0, c), p));
            assert(column(x0, c) =~= held(inputs, c));
        }
    }
    out
}

/// The place in the input of the item that a shuffle brings to place `i`:
/// the permutation of the last round is read first.
pub open spec fn source(perms: [(Vec<u32>, Vec<u32>); 3], i: int) -> int {
    round_permutation(perms, 0)[round_permutation(perms, 1)[round_permutation(perms, 2)[i] as int] as int] as int
}

/// The places in the input of the items that a shuffle of `n` items brings
/// to the places 0, 1, ..., in this order.
pub open spec fn sources(perms: [(Vec<u32>, Vec<u32>); 3], n: int) -> Seq<u32> {
    Seq::new(n as nat, |i: int| source(perms, i) as u32)
}

/// A shuffle loses nothing and doubles nothing: the places that its items
/// come from are a permutation of the places.
pub proof fn lemma_sources_permutation(perms: [(Vec<u32>, Vec<u32>); 3], n: int)
    requires
        0 <= n,
        permutations_fit(perms, n),
    ensures
        is_permutation(sources(perms, n)),
        sources(perms, n).len() == n,
        forall|i: int| 0 <= i < n ==> (#[trigger] sources(perms, n)[i]) as int == source(perms, i),
{
    let p0 = round_permutation(perms, 0);
    let p1 = round_permutation(perms, 1);
    let p2 = round_permutation(perms, 2);
    assert(perms[0].0@.len() == n && perms[1].0@.len() == n && perms[2].0@.len() == n);
    assert(is_permutation(perms[0].0@) && is_permutation(perms[1].0@) && is_permutation(
        perms[2].0@,
    ));
    let dummy = Seq::new(n as nat, |i: int| i);
    lemma_composed(p0, p1, dummy);
    lemma_composed(composed(p0, p1), p2, dummy);
    assert forall|i: int| 0 <= i < n implies sources(perms, n)[i] == composed(
        composed(p0, p1),
        p2,
    )[i] by {
        assert(p2[i] < n);
        assert(p1[p2[i] as int] < n);
    }
    assert(sources(perms, n) =~= composed(composed(p0, p1), p2));
}

/// The application of a sort permutation: every helper runs its
/// application from `apply_sort_permutation` through the three rounds of
/// the shuffle, under the step `shuffle-inputs`, and the parts of every
/// round are handed to the helpers they are for. After the last round every
/// helper has moved the item at place `i` of the shuffled shares to place
/// `revealed[i]`. The item that the shuffle brought to place `i` thus ends
/// at place `revealed[i]`.
pub fn apply_sort<F: Field>(
    world: &TestWorld,
    inputs: [Vec<Replicated<F>>; 3],
    revealed: &Vec<u32>,
    perms: &[(Vec<u32>, Vec<u32>); 3],
) -> (out: [Vec<Replicated<F>>; 3])
    requires
        world.wf(),
        inputs[0]@.len() <= u32::MAX,
        all_valid(inputs, inputs[0]@.len() as int),
        permutations_fit(*perms, inputs[0]@.len() as int),
        revealed@.len() == inputs[0]@.len(),
        is_permutation(revealed@),
    ensures
        forall|h: int| 0 <= h < 3 ==> (#[trigger] out[h])@.len() == inputs[0]@.len(),
        forall|i: int|
            0 <= i < inputs[0]@.len() ==> consistent(#[trigger] held(out, revealed@[i] as int))
                && secret_at(out, revealed@[i] as int) == secret_at(inputs, source(*perms, i)),
        is_permutation(sources(*perms, inputs[0]@.len() as int)),
        all_valid(out, inputs[0]@.len() as int),
{
    let ghost n = inputs[0]@.len() as int;
    let ghost p = F::prime();
    let ghost x0 = Seq::new(3, |h: int| coordinates(inputs[h]@));
    let base = world.narrow(&ApplyInvStep::ShuffleInputs);
    proof {
        lemma_sources_permutation(*perms, n);
        assert(world.context(0).wf() && world.context(1).wf() && world.context(2).wf());
        assert(base.context(0).wf() && base.context(1).wf() && base.context(2).wf());
        assert(perms[0].0@.len() == n && perms[1].0@.len() == n && perms[2].0@.len() == n);
        assert(perms[0].1@.len() == n && perms[1].1@.len() == n && perms[2].1@.len() == n);
        assert(is_permutation(perms[0].0@) && is_permutation(perms[0].1@));
        assert(is_permutation(perms[1].0@) && is_permutation(perms[1].1@));
        assert(is_permutation(perms[2].0@) && is_permutation(perms[2].1@));
        assert(inputs[0]@.len() == n && inputs[1]@.len() == n && inputs[2]@.len() == n);
        assert(all_consistent(x0, n)) by {
            assert forall|k: int| 0 <= k < n implies consistent(#[trigger] column(x0, k)) by {
                assert(consistent(held(inputs, k)));
                assert(column(x0, k) =~= held(inputs, k));
            }
        }
    }
    let s0 = RevealedAndRandomPermutations {
        revealed: copy_of_places(revealed),
        randoms_for_shuffle: (copy_of_places(&perms[0].0), copy_of_places(&perms[0].1)),
    };
    let s1 = RevealedAndRandomPermutations {
        revealed: copy_of_places(revealed),
        randoms_for_shuffle: (copy_of_places(&perms[1].0), copy_of_places(&perms[1].1)),
    };
    let s2 = RevealedAndRandomPermutations {
        revealed: copy_of_places(revealed),
        randoms_for_shuffle: (copy_of_places(&perms[2].0), copy_of_places(&perms[2].1)),
    };
    let a0 = apply_sort_permutation(world.helper(0).duplicate(), copy_of(&inputs[0]), &s0);
    let a1 = apply_sort_permutation(world.helper(1).duplicate(), copy_of(&inputs[1]), &s1);
    let a2 = apply_sort_permutation(world.helper(2).duplicate(), copy_of(&inputs[2]), &s2);
    let ghost g0 = seq![a0.spec_shuffle(), a1.spec_shuffle(), a2.spec_shuffle()];
    // the round towards H1
    let q = exchange(
        a0.shuffle().rounds(),
        a1.shuffle().rounds(),
        a2.shuffle().rounds(),
        Role::H1,
    );
    let ghost x1 = Seq::new(
        3,
        |h: int| round_completed(g0[h].spec_rounds(), seq![q.0@, q.1@, q.2@][h]),
    );
    proof {
        assert(Seq::new(3, |h: int| g0[h].spec_rounds()) =~= seq![
            a0.spec_shuffle().spec_rounds(),
            a1.spec_shuffle().spec_rounds(),
            a2.spec_shuffle().spec_rounds(),
        ]);
        lemma_round_in_step(
            &base,
            ShuffleStep::Step1,
            g0,
            *perms,
            x0,
            seq![q.0@, q.1@, q.2@],
            n,
        );
    }
    let b0 = following_sort(a0.advance(q.0.as_slice(), &s0));
    let b1 = following_sort(a1.advance(q.1.as_slice(), &s1));
    let b2 = following_sort(a2.advance(q.2.as_slice(), &s2));
    let ghost g1 = seq![b0.spec_shuffle(), b1.spec_shuffle(), b2.spec_shuffle()];
    // the round towards H2
    let q = exchange(
        b0.shuffle().rounds(),
        b1.shuffle().rounds(),
        b2.shuffle().rounds(),
        Role::H2,
    );
    let ghost x2 = Seq::new(
        3,
        |h: int| round_completed(g1[h].spec_rounds(), seq![q.0@, q.1@, q.2@][h]),
    );
    proof {
        assert(Seq::new(3, |h: int| g1[h].spec_rounds()) =~= seq![
            b0.spec_shuffle().spec_rounds(),
            b1.spec_shuffle().spec_rounds(),
            b2.spec_shuffle().spec_rounds(),
        ]);
        lemma_round_in_step(
            &base,
            ShuffleStep::Step2,
            g1,
            *perms,
            x1,
            seq![q.0@, q.1@, q.2@],
            n,
        );
    }
    let c0 = following_sort(b0.advance(q.0.as_slice(), &s0));
    let c1 = following_sort(b1.advance(q.1.as_slice(), &s1));
    let c2 = following_sort(b2.advance(q.2.as_slice(), &s2));
    let ghost g2 = seq![c0.spec_shuffle(), c1.spec_shuffle(), c2.spec_shuffle()];
    // the round towards H3
    let q = exchange(
        c0.shuffle().rounds(),
        c1.shuffle().rounds(),
        c2.shuffle().rounds(),
        Role::H3,
    );
    let ghost x3 = Seq::new(
        3,
        |h: int| round_completed(g2[h].spec_rounds(), seq![q.0@, q.1@, q.2@][h]),
    );
    proof {
        assert(Seq::new(3, |h: int| g2[h].spec_rounds()) =~= seq![
            c0.spec_shuffle().spec_rounds(),
            c1.spec_shuffle().spec_rounds(),
            c2.spec_shuffle().spec_rounds(),
        ]);
        lemma_round_in_step(
            &base,
            ShuffleStep::Step3,
            g2,
            *perms,
            x2,
            seq![q.0@, q.1@, q.2@],
            n,
        );
    }
    // the last round ends with the revealed permutation applied
    let out = [
        finished_sort(c0.advance(q.0.as_slice(), &s0)),
        finished_sort(c1.advance(q.1.as_slice(), &s1)),
        finished_sort(c2.advance(q.2.as_slice(), &s2)),
    ];
    proof {
        assert forall|h: int| 0 <= h < 3 implies (#[trigger] out[h])@.len() == n by {
            assert(coordinates(out[h]@).len() == x3[h].len());
        }
        assert forall|i: int| 0 <= i < n implies consistent(
            #[trigger] held(out, revealed@[i] as int),
        ) && secret_at(out, revealed@[i] as int) == secret_at(inputs, source(*perms, i)) by {
            let a = round_permutation(*perms, 2)[i] as int;
            let b = round_permutation(*perms, 1)[a] as int;
            let c = round_permutation(*perms, 0)[b] as int;
            let j = revealed@[i] as int;
            assert(coordinates(out[0]@)[j] == x3[0][i]);
            assert(coordinates(out[1]@)[j] == x3[1][i]);
            assert(coordinates(out[2]@)[j] == x3[2][i]);
            assert(held(out, j) =~= column(x3, i));
            assert(opened(column(x3, i), p) == opened(column(x2, a), p));
            assert(opened(column(x2, a), p) == opened(column(x1, b), p));
            assert(opened(column(x1, b), p) == opened(column(x0, c), p));
            assert(column(x0, c) =~= held(inputs, c));
        }
        assert forall|j: int| 0 <= j < n implies consistent(#[trigger] held(out, j)) by {
            crate::protocol::sort::apply::lemma_permutation_onto(revealed@, j);
            let i = choose|i: int| 0 <= i < revealed@.len() && #[trigger] revealed@[i] == j;
            assert(consistent(held(out, revealed@[i] as int)));
        }
    }
    out
}

} // verus!
