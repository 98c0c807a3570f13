use ipa::error::Error;
use ipa::ff::{Field, Fp31, Fp32BitPrime};
use ipa::helpers::Role;
use ipa::protocol::context::Context;
use ipa::protocol::prss::PrssEndpoint;
use ipa::protocol::sort::apply::{apply, apply_inv, check_permutation};
use ipa::protocol::sort::apply_sort::{
    apply_sort_permutation, ApplySort, ApplySortProgress, RevealedAndRandomPermutations,
};
use ipa::protocol::sort::reshare::ReshareRound;
use ipa::protocol::sort::shuffle::{
    random_permutation, random_permutations, shuffle_for_helper, shuffle_shares, Shuffle,
    ShuffleProgress, ShuffleStep,
};
use ipa::protocol::step::Named;
use ipa::secret_sharing::Replicated;
use ipa::test_fixture::{share, validate_and_reconstruct};
use rand::Rng;

fn contexts(seed: u128) -> [Context; 3] {
    let (k12, k23, k31) = (seed, seed + 1, seed + 2);
    [
        Context::new(Role::H1, PrssEndpoint::new(k31, k12)),
        Context::new(Role::H2, PrssEndpoint::new(k12, k23)),
        Context::new(Role::H3, PrssEndpoint::new(k23, k31)),
    ]
}

fn share_all<F: Field>(values: &[u128]) -> [Vec<Replicated<F>>; 3] {
    let mut out: [Vec<Replicated<F>>; 3] = [Vec::new(), Vec::new(), Vec::new()];
    for v in values {
        let s = share(F::truncate_from(*v));
        for h in 0..3 {
            out[h].push(s[h]);
        }
    }
    out
}

fn open_all<F: Field>(shares: &[Vec<Replicated<F>>; 3]) -> Vec<u128> {
    (0..shares[0].len())
        .map(|i| {
            validate_and_reconstruct(&[shares[0][i], shares[1][i], shares[2][i]])
                .unwrap()
                .as_u128()
        })
        .collect()
}

/// What every helper receives in a round: the part of the helper that its
/// own rounds name as the peer.
fn swap_parts<F: Field>(rounds: [&Vec<ReshareRound<F>>; 3]) -> [Vec<F>; 3] {
    let mut received: [Vec<F>; 3] = [Vec::new(), Vec::new(), Vec::new()];
    for h in 0..3 {
        for i in 0..rounds[h].len() {
            let value = match rounds[h][i].outgoing() {
                Some((peer, _)) => match rounds[peer.index()][i].outgoing() {
                    Some((back, part)) => {
                        assert_eq!(back.index(), h);
                        part
                    }
                    None => panic!("the peer has nothing to send"),
                },
                None => F::zero(),
            };
            received[h].push(value);
        }
    }
    received
}

fn run_shuffle<F: Field>(
    mut states: [Shuffle<F>; 3],
    perms: &[(Vec<u32>, Vec<u32>); 3],
) -> [Vec<Replicated<F>>; 3] {
    loop {
        let received = swap_parts([states[0].rounds(), states[1].rounds(), states[2].rounds()]);
        let [s0, s1, s2] = states;
        let progress = [
            s0.advance(&received[0], (&perms[0].0, &perms[0].1)),
            s1.advance(&received[1], (&perms[1].0, &perms[1].1)),
            s2.advance(&received[2], (&perms[2].0, &perms[2].1)),
        ];
        let mut next = Vec::new();
        let mut done = Vec::new();
        for p in progress {
            match p {
                ShuffleProgress::Exchange(s) => next.push(s),
                ShuffleProgress::Done(v) => done.push(v),
            }
        }
        if done.len() == 3 {
            let c = done.pop().unwrap();
            let b = done.pop().unwrap();
            let a = done.pop().unwrap();
            return [a, b, c];
        }
        let c = next.pop().unwrap();
        let b = next.pop().unwrap();
        let a = next.pop().unwrap();
        states = [a, b, c];
    }
}

fn shuffle_values<F: Field>(values: &[u128], seed: u128) -> Vec<u128> {
    let ctx = contexts(seed);
    let n = values.len() as u32;
    let perms = [
        random_permutations(&ctx[0], n),
        random_permutations(&ctx[1], n),
        random_permutations(&ctx[2], n),
    ];
    let [i0, i1, i2] = share_all::<F>(values);
    let [c0, c1, c2] = ctx;
    let states = [
        shuffle_shares(i0, (&perms[0].0, &perms[0].1), c0),
        shuffle_shares(i1, (&perms[1].0, &perms[1].1), c1),
        shuffle_shares(i2, (&perms[2].0, &perms[2].1), c2),
    ];
    assert_eq!(states[0].step(), ShuffleStep::Step1);
    open_all(&run_shuffle(states, &perms))
}

#[test]
fn apply_reads_through_the_permutation() {
    let mut values = vec!['A', 'B', 'C', 'D'];
    apply(&[2, 3, 1, 0], &mut values);
    assert_eq!(values, vec!['C', 'D', 'B', 'A']);
    let mut none: Vec<u8> = Vec::new();
    apply(&[], &mut none);
    assert!(none.is_empty());
}

#[test]
fn apply_inv_moves_to_the_permutation() {
    let mut values = vec!['A', 'B', 'C', 'D'];
    apply_inv(&[2, 3, 1, 0], &mut values);
    assert_eq!(values, vec!['D', 'C', 'A', 'B']);
    apply(&[2, 3, 1, 0], &mut values);
    assert_eq!(values, vec!['A', 'B', 'C', 'D']);
}

#[test]
fn permutations_are_told_from_other_lists() {
    assert!(check_permutation(&[]));
    assert!(check_permutation(&[0]));
    assert!(check_permutation(&[2, 0, 1]));
    assert!(!check_permutation(&[1]));
    assert!(!check_permutation(&[0, 0]));
    assert!(!check_permutation(&[0, 1, 3]));
    assert!(!check_permutation(&[2, 1, 2]));
}

#[test]
fn a_key_gives_a_permutation() {
    for n in [0u32, 1, 2, 5, 100] {
        let perm = random_permutation(42, n);
        assert_eq!(perm.len(), n as usize);
        assert!(check_permutation(&perm));
        assert_eq!(perm, random_permutation(42, n));
    }
    assert_ne!(random_permutation(42, 20), random_permutation(43, 20));
    let identity: Vec<u32> = (0..20).collect();
    assert_ne!(random_permutation(42, 20), identity);
}

#[test]
fn neighbours_share_a_permutation() {
    let ctx = contexts(7);
    let perms = [
        random_permutations(&ctx[0], 10),
        random_permutations(&ctx[1], 10),
        random_permutations(&ctx[2], 10),
    ];
    assert_eq!(perms[0].1, perms[1].0);
    assert_eq!(perms[1].1, perms[2].0);
    assert_eq!(perms[2].1, perms[0].0);
    assert_eq!(shuffle_for_helper(ShuffleStep::Step1), Role::H1);
    assert_eq!(shuffle_for_helper(ShuffleStep::Step2), Role::H2);
    assert_eq!(shuffle_for_helper(ShuffleStep::Step3), Role::H3);
}

#[test]
fn shuffle_gives_a_permutation_of_the_input() {
    let values = [0u128, 1, 2, 3, 4];
    let mut moved = false;
    for seed in 0..20u128 {
        let mut out = shuffle_values::<Fp31>(&values, seed * 10);
        if out != values {
            moved = true;
        }
        out.sort();
        assert_eq!(out, values);
    }
    assert!(moved);
}

#[test]
fn shuffle_follows_the_three_permutations() {
    let ctx = contexts(99);
    let values: Vec<u128> = (10..26).collect();
    let n = values.len() as u32;
    let perms = [
        random_permutations(&ctx[0], n),
        random_permutations(&ctx[1], n),
        random_permutations(&ctx[2], n),
    ];
    let out = shuffle_values::<Fp32BitPrime>(&values, 99);
    // the round towards H1 goes by what H2 and H3 share, and so on
    let mut expected = values.clone();
    apply(&perms[1].1, &mut expected);
    apply(&perms[2].1, &mut expected);
    apply(&perms[0].1, &mut expected);
    assert_eq!(out, expected);
}

#[test]
fn every_permutation_of_three_comes_up() {
    let values = [0u128, 1, 2];
    let mut counts = std::collections::HashMap::new();
    let trials = 150u128;
    for seed in 0..trials {
        let out = shuffle_values::<Fp31>(&values, 1000 + seed * 3);
        *counts.entry(out).or_insert(0u32) += 1;
    }
    assert_eq!(counts.len(), 6);
    // 25 expected each; the standard deviation is about 4.6
    for (order, count) in counts {
        assert!(count > 8 && count < 42, "{:?} came up {} times", order, count);
    }
}

fn run_apply_sort<F: Field>(
    mut states: [ApplySort<F>; 3],
    perms: &[RevealedAndRandomPermutations; 3],
) -> [Vec<Replicated<F>>; 3] {
    loop {
        let received = swap_parts([
            states[0].shuffle().rounds(),
            states[1].shuffle().rounds(),
            states[2].shuffle().rounds(),
        ]);
        let [s0, s1, s2] = states;
        let [p0, p1, p2] = received;
        let progress = [
            s0.proceed(Ok(p0), &perms[0]).unwrap(),
            s1.proceed(Ok(p1), &perms[1]).unwrap(),
            s2.proceed(Ok(p2), &perms[2]).unwrap(),
        ];
        let mut next = Vec::new();
        let mut done = Vec::new();
        for p in progress {
            match p {
                ApplySortProgress::Exchange(s) => next.push(s),
                ApplySortProgress::Done(v) => done.push(v),
            }
        }
        if done.len() == 3 {
            let c = done.pop().unwrap();
            let b = done.pop().unwrap();
            let a = done.pop().unwrap();
            return [a, b, c];
        }
        let c = next.pop().unwrap();
        let b = next.pop().unwrap();
        let a = next.pop().unwrap();
        states = [a, b, c];
    }
}

#[test]
fn mod_semi_honest() {
    const COUNT: usize = 5;
    let mut rng = rand::thread_rng();

    let mut match_keys: Vec<u64> = Vec::with_capacity(COUNT);
    match_keys.resize_with(COUNT, || rng.gen::<u64>());

    // the place that every record takes once the keys are sorted
    let mut order: Vec<usize> = (0..COUNT).collect();
    order.sort_by_key(|i| match_keys[*i]);
    let mut sigma = vec![0u32; COUNT];
    for (place, i) in order.iter().enumerate() {
        sigma[*i] = place as u32;
    }

    let mut sidecar: Vec<u128> = Vec::with_capacity(COUNT);
    sidecar.resize_with(COUNT, || rng.gen::<u8>() as u128);
    let expected: Vec<u128> = order.iter().map(|i| sidecar[*i]).collect();

    let ctx = contexts(2024);
    let sort_ctx = [
        ctx[0].narrow(&Named("sort")),
        ctx[1].narrow(&Named("sort")),
        ctx[2].narrow(&Named("sort")),
    ];
    let randoms = [
        random_permutations(&sort_ctx[0], COUNT as u32),
        random_permutations(&sort_ctx[1], COUNT as u32),
        random_permutations(&sort_ctx[2], COUNT as u32),
    ];
    // the sort permutation is revealed only after it went through the shuffle
    let mut revealed = sigma.clone();
    apply(&randoms[1].1, &mut revealed);
    apply(&randoms[2].1, &mut revealed);
    apply(&randoms[0].1, &mut revealed);

    let [r0, r1, r2] = randoms;
    let perms = [
        RevealedAndRandomPermutations {
            revealed: revealed.clone(),
            randoms_for_shuffle: r0,
        },
        RevealedAndRandomPermutations {
            revealed: revealed.clone(),
            randoms_for_shuffle: r1,
        },
        RevealedAndRandomPermutations {
            revealed: revealed.clone(),
            randoms_for_shuffle: r2,
        },
    ];
    let [i0, i1, i2] = share_all::<Fp32BitPrime>(&sidecar);
    let [c0, c1, c2] = ctx;
    let states = [
        apply_sort_permutation(c0, i0, &perms[0]),
        apply_sort_permutation(c1, i1, &perms[1]),
        apply_sort_permutation(c2, i2, &perms[2]),
    ];
    let result = open_all(&run_apply_sort(states, &perms));

    assert_eq!(&expected[..], &result[..]);
}

#[test]
fn an_error_ends_the_shuffle_and_the_sort() {
    let ctx = contexts(5);
    let n = 4u32;
    let perms = random_permutations(&ctx[0], n);
    let [input, _, _] = share_all::<Fp31>(&[1, 2, 3, 4]);
    let [c0, _, _] = ctx;
    let shuffle = shuffle_shares(input.clone(), (&perms.0, &perms.1), c0.duplicate());
    match shuffle.proceed(Err(Error::PeerDisconnected), (&perms.0, &perms.1)) {
        Err(e) => assert_eq!(e, Error::PeerDisconnected),
        Ok(_) => panic!("an error ends the shuffle"),
    }
    let sort = RevealedAndRandomPermutations {
        revealed: vec![3, 2, 1, 0],
        randoms_for_shuffle: perms,
    };
    let state = apply_sort_permutation(c0, input, &sort);
    match state.proceed(Err(Error::RecordCollision), &sort) {
        Err(e) => assert_eq!(e, Error::RecordCollision),
        Ok(_) => panic!("an error ends the application"),
    }
}
