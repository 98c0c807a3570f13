use ipa::error::Error;
use ipa::ff::{Field, Fp31, Fp32BitPrime};
use ipa::helpers::gateway::Frame;
use ipa::helpers::HelperIdentity;
use ipa::protocol::sort::apply::apply;
use ipa::protocol::sort::shuffle::random_permutations;
use ipa::protocol::step::{Named, Step};
use ipa::secret_sharing::Replicated;
use ipa::test_fixture::shuffle::{apply_sort, shuffle};
use ipa::test_fixture::{
    share, validate_and_reconstruct, InMemoryNetwork, InMemoryTransport, TestWorld,
};

fn share_all<F: Field>(values: &[u128]) -> [Vec<Replicated<F>>; 3] {
    let mut out: [Vec<Replicated<F>>; 3] = [Vec::new(), Vec::new(), Vec::new()];
    for v in values {
        let s = share(F::truncate_from(*v));
        for h in 0..3 {
            out[h].push(s[h]);
        }
    }
    out
}

fn open_all<F: Field>(shares: &[Vec<Replicated<F>>; 3]) -> Vec<u128> {
    (0..shares[0].len())
        .map(|i| {
            validate_and_reconstruct(&[shares[0][i], shares[1][i], shares[2][i]])
                .unwrap()
                .as_u128()
        })
        .collect()
}

fn permutations(world: &TestWorld, n: u32) -> [(Vec<u32>, Vec<u32>); 3] {
    [
        random_permutations(world.helper(0), n),
        random_permutations(world.helper(1), n),
        random_permutations(world.helper(2), n),
    ]
}

#[test]
fn the_world_shuffles() {
    let values = [0u128, 1, 2, 3, 4];
    let mut orders = std::collections::HashSet::new();
    for seed in 0..30u128 {
        let world = TestWorld::with_seeds(seed, seed + 1000, seed + 2000);
        let perms = permutations(&world, 5);
        let out = open_all(&shuffle(&world, share_all::<Fp32BitPrime>(&values), &perms));
        let mut expected = values.to_vec();
        apply(&perms[2].0, &mut expected);
        apply(&perms[0].0, &mut expected);
        apply(&perms[1].0, &mut expected);
        assert_eq!(out, expected);
        let mut sorted = out.clone();
        sorted.sort();
        assert_eq!(sorted, values);
        orders.insert(out);
    }
    assert!(orders.len() > 20);
    let world = TestWorld::new();
    let none = shuffle(&world, share_all::<Fp31>(&[]), &permutations(&world, 0));
    assert!(none[0].is_empty() && none[1].is_empty() && none[2].is_empty());
}

#[test]
fn the_world_sorts_by_a_revealed_permutation() {
    let world = TestWorld::with_seeds(41, 42, 43).narrow(&Named("sort"));
    let keys = [50u64, 10, 40, 20, 30, 60];
    let sidecar = [5u128, 1, 4, 2, 3, 6];
    // the place that every record takes once the keys are sorted
    let mut order: Vec<usize> = (0..keys.len()).collect();
    order.sort_by_key(|i| keys[*i]);
    let mut sigma = vec![0u32; keys.len()];
    for (place, i) in order.iter().enumerate() {
        sigma[*i] = place as u32;
    }
    let perms = permutations(&world, keys.len() as u32);
    // the sort permutation as it is revealed: seen through the shuffle
    let mut revealed = sigma.clone();
    apply(&perms[2].0, &mut revealed);
    apply(&perms[0].0, &mut revealed);
    apply(&perms[1].0, &mut revealed);
    let out = apply_sort(&world, share_all::<Fp31>(&sidecar), &revealed, &perms);
    assert_eq!(open_all(&out), vec![1, 2, 3, 4, 5, 6]);
}

#[test]
fn a_helper_that_the_network_lacks_cannot_be_reached() {
    let one = HelperIdentity::try_from(1).unwrap();
    let two = HelperIdentity::try_from(2).unwrap();
    let three = HelperIdentity::try_from(3).unwrap();
    let mut network = InMemoryNetwork {
        transports: [
            InMemoryTransport::with_stub_callbacks(one),
            InMemoryTransport::with_stub_callbacks(two),
            InMemoryTransport::with_stub_callbacks(two),
        ],
    };
    assert!(network.transport(three).is_none());
    let handle = network.transport(one).unwrap();
    let frame = |first_record| Frame {
        step: Step::root(),
        first_record,
        items: vec![vec![1u8]],
    };
    assert_eq!(
        network.send(&handle, three, frame(0)),
        Err(Error::PeerUnreachable)
    );
    assert_eq!(network.send(&handle, two, frame(7)), Ok(()));
    // the first transport of that name takes the frame
    let second = network.transports()[1];
    assert_eq!(network.receive(&second).unwrap().1.first_record, 7);
    assert!(network.receive(&second).is_none());
}

#[test]
fn a_thousand_shuffles_of_five_are_spread_evenly() {
    let values = [0u128, 1, 2, 3, 4];
    let trials = 1000u128;
    let mut counts = std::collections::HashMap::new();
    for trial in 0..trials {
        let world = TestWorld::with_seeds(3 * trial, 3 * trial + 1, 3 * trial + 2);
        let perms = permutations(&world, 5);
        // where a shuffle with these permutations takes the values
        let mut out = values.to_vec();
        apply(&perms[2].0, &mut out);
        apply(&perms[0].0, &mut out);
        apply(&perms[1].0, &mut out);
        if trial % 100 == 0 {
            let shuffled = shuffle(&world, share_all::<Fp31>(&values), &perms);
            assert_eq!(open_all(&shuffled), out);
        }
        let mut sorted = out.clone();
        sorted.sort();
        assert_eq!(sorted, values);
        *counts.entry(out).or_insert(0u32) += 1;
    }
    // 120 orders, 8.3 expected each; the standard deviation is about 2.9
    let mean = trials as f64 / 120.0;
    let sigma = (trials as f64 * (1.0 / 120.0) * (119.0 / 120.0)).sqrt();
    for (order, count) in &counts {
        assert!(
            (*count as f64 - mean).abs() <= 3.0 * sigma,
            "{:?} came up {} times",
            order,
            count
        );
    }
    assert!(counts.len() >= 115);
}
