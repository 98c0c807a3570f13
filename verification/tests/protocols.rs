use ipa::error::Error;
use ipa::ff::{Field, Fp31, Fp32BitPrime};
use ipa::helpers::buffer::SendBufferConfig;
use ipa::helpers::gateway::{Gateway, GatewayConfig};
use ipa::helpers::mesh::{receive_field, send_field};
use ipa::helpers::{Direction, HelperIdentity, Role};
use ipa::protocol::basics::check_zero::CheckZero;
use ipa::protocol::basics::mul::multiply;
use ipa::protocol::basics::reveal_share::reveal_share;
use ipa::protocol::basics::share_known_value::share_known_value;
use ipa::protocol::basics::sum_of_product::sum_of_products;
use ipa::protocol::basics::{BasicProtocols, MulRound};
use ipa::protocol::context::Context;
use ipa::protocol::prss::PrssEndpoint;
use ipa::protocol::sort::reshare::{Reshare, ReshareRound};
use ipa::protocol::step::{Named, RecordId, Step};
use ipa::secret_sharing::Replicated;
use ipa::test_fixture::{
    reconstruct, share, share_with, validate_and_reconstruct, InMemoryNetwork,
};
use rand::rngs::mock::StepRng;
use rand::Rng;

struct World {
    contexts: [Context; 3],
    gateways: [Gateway; 3],
    network: InMemoryNetwork,
}

fn make_world() -> World {
    let (k12, k23, k31) = (11u128, 22u128, 33u128);
    let config = GatewayConfig {
        send_buffer_config: SendBufferConfig {
            items_in_batch: 1,
            batch_count: 40,
        },
    };
    World {
        contexts: [
            Context::new(Role::H1, PrssEndpoint::new(k31, k12)),
            Context::new(Role::H2, PrssEndpoint::new(k12, k23)),
            Context::new(Role::H3, PrssEndpoint::new(k23, k31)),
        ],
        gateways: [
            Gateway::new(Role::H1, config),
            Gateway::new(Role::H2, config),
            Gateway::new(Role::H3, config),
        ],
        network: InMemoryNetwork::default(),
    }
}

fn route(world: &mut World) {
    let handles = world.network.transports();
    for i in 0..3 {
        while let Some((peer, frame)) = world.gateways[i].next_frame(true) {
            world
                .network
                .send(&handles[i], HelperIdentity::from_role(peer), frame)
                .unwrap();
        }
    }
    for i in 0..3 {
        while let Some((from, frame)) = world.network.receive(&handles[i]) {
            world.gateways[i].deliver(from.role(), frame).unwrap();
        }
    }
}

fn finish_multiplications<F: Field>(
    world: &mut World,
    contexts: &[Context; 3],
    record_id: RecordId,
    rounds: [MulRound<F>; 3],
) -> [Replicated<F>; 3] {
    for i in 0..3 {
        rounds[i]
            .send(&mut world.gateways[i], &contexts[i], record_id)
            .unwrap();
    }
    route(world);
    let mut out = Vec::new();
    for i in 0..3 {
        out.push(
            rounds[i]
                .receive(&mut world.gateways[i], &contexts[i], record_id)
                .unwrap(),
        );
    }
    [out[0], out[1], out[2]]
}

fn secure_multiply<F: Field>(
    world: &mut World,
    contexts: &[Context; 3],
    record_id: RecordId,
    a: &[Replicated<F>; 3],
    b: &[Replicated<F>; 3],
) -> [Replicated<F>; 3] {
    let rounds = [
        multiply(&a[0], &b[0], &contexts[0], record_id),
        multiply(&a[1], &b[1], &contexts[1], record_id),
        multiply(&a[2], &b[2], &contexts[2], record_id),
    ];
    finish_multiplications(world, contexts, record_id, rounds)
}

fn open<F: Field>(
    world: &mut World,
    contexts: &[Context; 3],
    record_id: RecordId,
    shares: &[Replicated<F>; 3],
) -> [F; 3] {
    let rounds = [
        reveal_share(&contexts[0], &shares[0]),
        reveal_share(&contexts[1], &shares[1]),
        reveal_share(&contexts[2], &shares[2]),
    ];
    for i in 0..3 {
        rounds[i]
            .send(&mut world.gateways[i], &contexts[i], record_id)
            .unwrap();
    }
    route(world);
    let mut out = Vec::new();
    for i in 0..3 {
        out.push(
            rounds[i]
                .receive(&mut world.gateways[i], &contexts[i], record_id)
                .unwrap(),
        );
    }
    [out[0], out[1], out[2]]
}

fn narrowed(world: &World, label: &'static str) -> [Context; 3] {
    [
        world.contexts[0].narrow(&Named(label)),
        world.contexts[1].narrow(&Named(label)),
        world.contexts[2].narrow(&Named(label)),
    ]
}

fn run_reshare<F: Field>(
    world: &mut World,
    contexts: &[Context; 3],
    record_id: RecordId,
    shares: &[Replicated<F>; 3],
    to_helper: Role,
) -> [Replicated<F>; 3] {
    let rounds = [
        Reshare::new(shares[0]).execute(&contexts[0], record_id, to_helper),
        Reshare::new(shares[1]).execute(&contexts[1], record_id, to_helper),
        Reshare::new(shares[2]).execute(&contexts[2], record_id, to_helper),
    ];
    for i in 0..3 {
        rounds[i]
            .send(&mut world.gateways[i], &contexts[i], record_id)
            .unwrap();
    }
    route(world);
    let mut out = Vec::new();
    for i in 0..3 {
        out.push(
            rounds[i]
                .receive(&mut world.gateways[i], &contexts[i], record_id)
                .unwrap(),
        );
    }
    [out[0], out[1], out[2]]
}

#[test]
fn sharing_opens_to_the_secret() {
    for secret in 0..31u128 {
        let input = Fp31::truncate_from(secret);
        let shares = share(input);
        assert_eq!(reconstruct(&shares), input);
        assert_eq!(validate_and_reconstruct(&shares), Some(input));
    }
    let input = Fp32BitPrime::truncate_from(4_000_000_000);
    let shares = share_with(
        input,
        Fp32BitPrime::truncate_from(4_294_967_290),
        Fp32BitPrime::truncate_from(123),
    );
    assert_eq!(shares[0].left().as_u128(), 4_294_967_290);
    assert_eq!(shares[0].right().as_u128(), 123);
    assert_eq!(shares[1].right().as_u128(), 4_000_000_000 - 122);
    assert_eq!(reconstruct(&shares), input);
}

#[test]
fn shares_that_do_not_fit_are_not_reconstructed() {
    let shares = share_with(
        Fp31::truncate_from(5),
        Fp31::truncate_from(1),
        Fp31::truncate_from(2),
    );
    let broken = [
        shares[0],
        Replicated::new(Fp31::truncate_from(3), shares[1].right()),
        shares[2],
    ];
    assert_eq!(validate_and_reconstruct(&broken), None);
}

#[test]
fn multiply_fp31() {
    let mut world = make_world();
    let contexts = narrowed(&world, "multiply");
    let inputs = [(2u128, 3u128), (5, 7), (0, 9)];
    let expected = [6u128, 35, 0];
    for (i, (x, y)) in inputs.iter().enumerate() {
        let a = share(Fp31::truncate_from(*x));
        let b = share(Fp31::truncate_from(*y));
        let record_id = RecordId::from(i as u32);
        let z = secure_multiply(&mut world, &contexts, record_id, &a, &b);
        assert_eq!(
            validate_and_reconstruct(&z),
            Some(Fp31::truncate_from(expected[i]))
        );
        let open_contexts = narrowed(&world, "open");
        let opened = open(&mut world, &open_contexts, record_id, &z);
        for value in opened {
            assert_eq!(value.as_u128(), expected[i] % 31);
        }
    }
}

#[test]
fn multiply_is_correct_for_every_pair_of_fp31() {
    let mut world = make_world();
    let contexts = narrowed(&world, "all-pairs");
    let mut record = 0u32;
    for x in 0..31u128 {
        for y in 0..31u128 {
            let a = share(Fp31::truncate_from(x));
            let b = share(Fp31::truncate_from(y));
            let rounds = [
                a[0].multiply(&b[0], &contexts[0], RecordId::from(record)),
                a[1].multiply(&b[1], &contexts[1], RecordId::from(record)),
                a[2].multiply(&b[2], &contexts[2], RecordId::from(record)),
            ];
            let z = [
                rounds[0].finish(rounds[2].message()),
                rounds[1].finish(rounds[0].message()),
                rounds[2].finish(rounds[1].message()),
            ];
            assert_eq!(
                validate_and_reconstruct(&z),
                Some(Fp31::truncate_from(x * y))
            );
            record += 1;
        }
    }
    let _ = &mut world;
}

#[test]
fn multiply_fp32_bit_prime() {
    let mut world = make_world();
    let contexts = narrowed(&world, "multiply");
    let a = share(Fp32BitPrime::truncate_from(4_294_967_290));
    let b = share(Fp32BitPrime::truncate_from(4_294_967_289));
    let z = secure_multiply(&mut world, &contexts, RecordId::from(0), &a, &b);
    assert_eq!(reconstruct(&z).as_u128(), 2);
}

#[test]
fn sum_of_products_is_the_inner_product() {
    let mut world = make_world();
    let contexts = narrowed(&world, "sop");
    let xs = [3u128, 5, 30, 0];
    let ys = [4u128, 6, 30, 9];
    let mut a: [Vec<Replicated<Fp31>>; 3] = [Vec::new(), Vec::new(), Vec::new()];
    let mut b: [Vec<Replicated<Fp31>>; 3] = [Vec::new(), Vec::new(), Vec::new()];
    for k in 0..4 {
        let x = share(Fp31::truncate_from(xs[k]));
        let y = share(Fp31::truncate_from(ys[k]));
        for h in 0..3 {
            a[h].push(x[h]);
            b[h].push(y[h]);
        }
    }
    let record_id = RecordId::from(0);
    let rounds = [
        sum_of_products(&a[0], &b[0], &contexts[0], record_id),
        sum_of_products(&a[1], &b[1], &contexts[1], record_id),
        sum_of_products(&a[2], &b[2], &contexts[2], record_id),
    ];
    let z = finish_multiplications(&mut world, &contexts, record_id, rounds);
    // 12 + 30 + 900 + 0 = 942 = 30 * 31 + 12
    assert_eq!(validate_and_reconstruct(&z).unwrap().as_u128(), 12);
}

#[test]
fn sum_of_nothing_is_zero() {
    let mut world = make_world();
    let contexts = narrowed(&world, "sop-empty");
    let empty: Vec<Replicated<Fp31>> = Vec::new();
    let record_id = RecordId::from(0);
    let rounds = [
        sum_of_products(&empty, &empty, &contexts[0], record_id),
        sum_of_products(&empty, &empty, &contexts[1], record_id),
        sum_of_products(&empty, &empty, &contexts[2], record_id),
    ];
    let z = finish_multiplications(&mut world, &contexts, record_id, rounds);
    assert_eq!(validate_and_reconstruct(&z).unwrap().as_u128(), 0);
}

#[test]
fn reshare() {
    let mut rand = StepRng::new(100, 1);
    let mut rng = rand::thread_rng();
    let mut new_reshares_atleast_once = false;
    let mut world = make_world();
    for round in 0..10 {
        let secret = rng.gen::<u128>();

        let input = Fp31::from(secret);
        let share = share_with(
            input,
            Fp31::from(rand.gen::<u128>()),
            Fp31::from(rand.gen::<u128>()),
        );
        let record_id = RecordId::from(round as u32);
        let contexts = narrowed(&world, "reshare");

        let f = run_reshare(&mut world, &contexts, record_id, &share, Role::H2);
        let output_share = validate_and_reconstruct(&f).unwrap();
        assert_eq!(output_share, input);

        if share[0] != f[0] && share[1] != f[1] && share[2] != f[2] {
            new_reshares_atleast_once = true;
            break;
        }
    }
    assert!(new_reshares_atleast_once);
}

#[test]
fn reshare_seventeen_to_h3() {
    let mut world = make_world();
    let contexts = narrowed(&world, "reshare");
    let input = Fp31::truncate_from(17);
    let shares = share_with(input, Fp31::truncate_from(3), Fp31::truncate_from(29));
    let f = run_reshare(&mut world, &contexts, RecordId::from(0), &shares, Role::H3);
    assert_eq!(validate_and_reconstruct(&f), Some(input));
    assert!(shares[0] != f[0] || shares[1] != f[1] || shares[2] != f[2]);
    // the target holds its correlated pair
    let pair = contexts[2].generate_fields::<Fp31>(RecordId::from(0));
    assert_eq!(f[2].as_tuple(), pair);
}

#[test]
fn reshare_keeps_the_secret_for_every_target() {
    let mut world = make_world();
    let labels = ["towards-h1", "towards-h2", "towards-h3"];
    for (t, to_helper) in Role::all().iter().enumerate() {
        let contexts = narrowed(&world, labels[t]);
        for secret in 0..31u128 {
            let input = Fp31::truncate_from(secret);
            let shares = share(input);
            let record_id = RecordId::from(secret as u32);
            let f = run_reshare(&mut world, &contexts, record_id, &shares, *to_helper);
            assert_eq!(validate_and_reconstruct(&f), Some(input));
        }
    }
}

#[test]
fn reshare_rounds_name_the_other_neighbour() {
    let world = make_world();
    let shares = share(Fp31::truncate_from(9));
    let round = Reshare::new(shares[0]).execute(&world.contexts[0], RecordId::from(0), Role::H2);
    match round {
        ReshareRound::Exchange(e) => assert_eq!(e.peer(), Role::H3),
        ReshareRound::Done(_) => panic!("H1 is a neighbour of H2"),
    }
    let round = Reshare::new(shares[1]).execute(&world.contexts[1], RecordId::from(0), Role::H2);
    assert!(matches!(round, ReshareRound::Done(_)));
    let round = Reshare::new(shares[2]).execute(&world.contexts[2], RecordId::from(0), Role::H2);
    match round {
        ReshareRound::Exchange(e) => assert_eq!(e.peer(), Role::H1),
        ReshareRound::Done(_) => panic!("H3 is a neighbour of H2"),
    }
}

#[test]
fn known_values_are_shared_without_messages() {
    let world = make_world();
    let c = Fp31::truncate_from(23);
    let shares: [Replicated<Fp31>; 3] = [
        share_known_value(&world.contexts[0], c),
        share_known_value(&world.contexts[1], c),
        share_known_value(&world.contexts[2], c),
    ];
    assert_eq!(shares[0].as_tuple(), (c, Fp31::zero()));
    assert_eq!(shares[1].as_tuple(), (Fp31::zero(), Fp31::zero()));
    assert_eq!(shares[2].as_tuple(), (Fp31::zero(), c));
    assert_eq!(validate_and_reconstruct(&shares), Some(c));
}

#[test]
fn reveal_gives_every_helper_the_secret() {
    let mut world = make_world();
    let contexts = narrowed(&world, "reveal");
    for (record, secret) in [0u128, 1, 17, 30].into_iter().enumerate() {
        let shares = share(Fp31::truncate_from(secret));
        let opened = open(&mut world, &contexts, RecordId::from(record as u32), &shares);
        for value in opened {
            assert_eq!(value.as_u128(), secret);
        }
    }
}

#[test]
fn checked_reveal_notices_a_changed_share() {
    let world = make_world();
    let shares = share(Fp31::truncate_from(12));
    let round = reveal_share(&world.contexts[0], &shares[0]);
    // the right neighbour (H2) sends its right coordinate, the left one (H3) too
    let honest = round.finish_checked(shares[1].right(), shares[2].right());
    assert_eq!(honest.unwrap().as_u128(), 12);
    let round = reveal_share(&world.contexts[0], &shares[0]);
    let tampered = round.finish_checked(
        shares[1].right(),
        shares[2].right().add(Fp31::one()),
    );
    assert_eq!(tampered, Err(Error::RevealDisagreement));
}

#[test]
fn check_zero_finds_zero_and_only_rarely_anything_else() {
    let mut world = make_world();
    let contexts = narrowed(&world, "check-zero");
    let mut zeros = 0;
    for record in 0..62u32 {
        let secret = (record % 31) as u128;
        let shares = share(Fp31::truncate_from(secret));
        let record_id = RecordId::from(record);
        let rounds = [
            CheckZero::multiply(&contexts[0], record_id, &shares[0]),
            CheckZero::multiply(&contexts[1], record_id, &shares[1]),
            CheckZero::multiply(&contexts[2], record_id, &shares[2]),
        ];
        let multiply_contexts = narrowed(&world, "check-zero-multiply");
        let product = finish_multiplications(&mut world, &multiply_contexts, record_id, rounds);
        let factor: [Replicated<Fp31>; 3] = [
            CheckZero::random_factor(&contexts[0], record_id),
            CheckZero::random_factor(&contexts[1], record_id),
            CheckZero::random_factor(&contexts[2], record_id),
        ];
        let r = validate_and_reconstruct(&factor).unwrap();
        let reveal_contexts = narrowed(&world, "check-zero-reveal");
        let opened = open(&mut world, &reveal_contexts, record_id, &product);
        assert_eq!(opened[0].as_u128(), (r.as_u128() * secret) % 31);
        let zero = CheckZero::decide(opened[0]);
        if secret == 0 {
            assert!(zero);
        } else {
            assert_eq!(zero, r.as_u128() == 0);
        }
        if zero {
            zeros += 1;
        }
    }
    assert!(zeros >= 2);
}

#[test]
fn a_slot_can_be_used_once() {
    let mut world = make_world();
    let contexts = narrowed(&world, "once");
    let record_id = RecordId::from(0);
    let value = Fp31::truncate_from(5);
    send_field(&mut world.gateways[0], &contexts[0], Role::H2, record_id, value).unwrap();
    assert_eq!(
        send_field(&mut world.gateways[0], &contexts[0], Role::H2, record_id, value),
        Err(Error::RecordCollision)
    );
    route(&mut world);
    let got: Fp31 =
        receive_field(&mut world.gateways[1], &contexts[1], Role::H1, record_id).unwrap();
    assert_eq!(got, value);
    assert_eq!(
        receive_field::<Fp31>(&mut world.gateways[1], &contexts[1], Role::H1, record_id),
        Err(Error::RecordCollision)
    );
    assert_eq!(
        receive_field::<Fp31>(&mut world.gateways[2], &contexts[2], Role::H1, record_id),
        Err(Error::PeerDisconnected)
    );
    let _ = (Direction::Left, Step::root());
}

#[test]
fn a_round_that_is_not_answered_fails() {
    let mut world = make_world();
    let contexts = narrowed(&world, "unanswered");
    let a = share(Fp31::truncate_from(3));
    let record_id = RecordId::from(0);
    let round = multiply(&a[0], &a[0], &contexts[0], record_id);
    round
        .send(&mut world.gateways[0], &contexts[0], record_id)
        .unwrap();
    assert_eq!(
        round
            .send(&mut world.gateways[0], &contexts[0], record_id)
            .unwrap_err(),
        Error::RecordCollision
    );
    route(&mut world);
    // nothing came from the left-hand neighbour
    assert_eq!(
        round
            .receive(&mut world.gateways[0], &contexts[0], record_id)
            .unwrap_err(),
        Error::PeerDisconnected
    );
    // what H1 sent waits at H2, and only there
    let at_h2 = multiply(&a[1], &a[1], &contexts[1], record_id);
    let share = at_h2
        .receive(&mut world.gateways[1], &contexts[1], record_id)
        .unwrap();
    assert_eq!(share.left(), round.message());
    assert_eq!(share.right(), at_h2.message());
    // a frame of the wrong size is refused when it is read
    let wide = narrowed(&world, "wide");
    send_field(
        &mut world.gateways[2],
        &wide[2],
        Role::H1,
        record_id,
        Fp32BitPrime::truncate_from(70_000),
    )
    .unwrap();
    route(&mut world);
    assert_eq!(
        receive_field::<Fp31>(&mut world.gateways[0], &wide[0], Role::H3, record_id),
        Err(Error::MalformedFrame)
    );
}
