use ipa::ff::{Field, Fp31, Fp32BitPrime};
use ipa::protocol::boolean::random_bits_generator::{Draw, RBGStep, RandomBitsGenerator};
use ipa::protocol::boolean::solved_bits::{bit_at, bit_parts, RandomBitsShare};
use ipa::protocol::malicious::{MaliciousReplicated, MaliciousValidator};
use ipa::protocol::step::{RecordId, TotalRecords};
use ipa::test_fixture::random_bits::SharedGenerator;
use ipa::test_fixture::solved_bits::solved_bits;
use ipa::test_fixture::{validate_and_reconstruct, TestWorld};

struct Generators {
    world: TestWorld,
    fallback: TestWorld,
    rbg: [RandomBitsGenerator; 3],
}

fn generators(k12: u128, k23: u128, k31: u128) -> Generators {
    let world = TestWorld::with_seeds(k12, k23, k31);
    let fallback = world.narrow(&RBGStep::FallbackChannel);
    let [c0, c1, c2] = world.contexts();
    Generators {
        world,
        fallback,
        rbg: [
            RandomBitsGenerator::new(c0, TotalRecords::Indeterminate),
            RandomBitsGenerator::new(c1, TotalRecords::Indeterminate),
            RandomBitsGenerator::new(c2, TotalRecords::Indeterminate),
        ],
    }
}

/// One draw of all three helpers: the default channel first, then the
/// fallback channel until a try succeeds.
fn generate<F: Field>(g: &mut Generators) -> [RandomBitsShare<F>; 3] {
    let mut attempt = g.rbg[0].generate().unwrap();
    assert_eq!(attempt, g.rbg[1].generate().unwrap());
    assert_eq!(attempt, g.rbg[2].generate().unwrap());
    loop {
        let world = if attempt.fallback {
            &g.fallback
        } else {
            &g.world
        };
        assert_eq!(
            g.rbg[0].context(&attempt).step().as_bytes(),
            world.helper(0).step().as_bytes()
        );
        let outcome = solved_bits::<F>(world, attempt.record_id);
        let (o0, o1, o2) = match outcome {
            Some([a, b, c]) => (Some(a), Some(b), Some(c)),
            None => (None, None, None),
        };
        match (
            g.rbg[0].settle(Ok(o0)).unwrap(),
            g.rbg[1].settle(Ok(o1)).unwrap(),
            g.rbg[2].settle(Ok(o2)).unwrap(),
        ) {
            (Draw::Ready(a), Draw::Ready(b), Draw::Ready(c)) => return [a, b, c],
            (Draw::Retry(a), Draw::Retry(b), Draw::Retry(c)) => {
                assert_eq!(a, b);
                assert_eq!(a, c);
                assert!(a.fallback);
                attempt = a;
            }
            _ => panic!("the helpers disagree on the outcome"),
        }
    }
}

fn reconstruct<F: Field>(result: &[RandomBitsShare<F>; 3]) -> u128 {
    let value = validate_and_reconstruct(&[result[0].b_p, result[1].b_p, result[2].b_p])
        .unwrap()
        .as_u128();
    let mut spelled = 0u128;
    for i in 0..result[0].b_b.len() {
        let bit = validate_and_reconstruct(&[
            result[0].b_b[i],
            result[1].b_b[i],
            result[2].b_b[i],
        ])
        .unwrap()
        .as_u128();
        assert!(bit <= 1);
        spelled += bit << i;
    }
    assert_eq!(value, spelled);
    value
}

#[test]
fn random_bits_generator_semi_honest() {
    let mut rbg = SharedGenerator::new(TestWorld::new());

    let result = rbg.generate::<Fp31>().unwrap();
    let aborts = rbg.aborts();
    assert_eq!(aborts[0], aborts[1]);
    assert_eq!(aborts[0], aborts[2]);
    let _: u128 = reconstruct(&result); // reconstruct() will validate the value.
}

#[test]
fn uses_fallback_channel() {
    let mut rbg = SharedGenerator::new(TestWorld::new());
    while rbg.aborts()[0] == 0 {
        let _ = rbg.generate::<Fp31>().unwrap();
    }
}

#[test]
fn semi_honest_fp31_draws_values_below_the_prime() {
    let mut rbg = SharedGenerator::new(TestWorld::with_seeds(10, 20, 30));
    let mut seen = std::collections::HashSet::new();
    for _ in 0..100 {
        let result = rbg.generate::<Fp31>().unwrap();
        assert_eq!(result[0].b_b.len(), 5);
        let value = reconstruct(&result);
        assert!(value < 31);
        seen.insert(value);
        let aborts = rbg.aborts();
        assert_eq!(aborts[0], aborts[1]);
        assert_eq!(aborts[0], aborts[2]);
    }
    // a hundred draws do not all give the same few values
    assert!(seen.len() > 15);
}

#[test]
fn the_fallback_channel_takes_over_after_a_failure() {
    let mut rbg = SharedGenerator::new(TestWorld::with_seeds(10, 20, 30));
    let mut draws = 0;
    while rbg.aborts()[0] == 0 {
        let result = rbg.generate::<Fp31>().unwrap();
        assert!(reconstruct(&result) < 31);
        draws += 1;
        assert!(draws < 2000, "no draw failed");
    }
    let aborts = rbg.aborts();
    assert!(aborts[0] >= 1);
    assert_eq!(aborts[0], aborts[1]);
    assert_eq!(aborts[0], aborts[2]);
    // draws go on as before, on the default channel first
    for _ in 0..20 {
        let result = rbg.generate::<Fp31>().unwrap();
        assert!(reconstruct(&result) < 31);
    }
}

#[test]
fn a_draw_fails_exactly_if_the_bits_spell_the_prime_or_more() {
    let world = TestWorld::with_seeds(7, 8, 9);
    let draw = world.narrow(&ipa::protocol::boolean::solved_bits::SolvedBitsStep::RandomBits);
    let mut failed = 0;
    let mut kept = 0;
    for record in 0..100u32 {
        let record_id = RecordId::from(record);
        // the value in the clear: the exclusive or of what the helpers draw
        let mut value = 0u128;
        for i in 0..5 {
            let mut bit = 0u8;
            for h in 0..3 {
                let (l, _) = draw.helper(h).prss().generate_values(record_id);
                bit ^= bit_at(l, i);
            }
            value += (bit as u128) << i;
        }
        match solved_bits::<Fp31>(&world, record_id) {
            Some(shares) => {
                assert!(value < 31);
                assert_eq!(reconstruct(&shares), value);
                kept += 1;
            }
            None => {
                assert_eq!(value, 31);
                failed += 1;
            }
        }
    }
    // one draw in 32 is expected to fail
    assert_eq!(kept + failed, 100);
    assert!(failed <= 15);
}

#[test]
fn the_large_field_takes_32_bits() {
    let world = TestWorld::with_seeds(1, 2, 3);
    for record in 0..3u32 {
        match solved_bits::<Fp32BitPrime>(&world, RecordId::from(record)) {
            Some(shares) => {
                assert_eq!(shares[0].b_b.len(), 32);
                assert!(reconstruct(&shares) < 4_294_967_291);
            }
            None => panic!("five values in 2^32 fail"),
        }
    }
}

#[test]
fn the_parts_of_a_bit_belong_to_pairs_of_helpers() {
    let world = TestWorld::with_seeds(4, 5, 6);
    let record_id = RecordId::from(0);
    for i in 0..8 {
        let parts: Vec<[ipa::secret_sharing::Replicated<Fp31>; 3]> = (0..3)
            .map(|h| bit_parts(world.helper(h), record_id, i))
            .collect();
        for j in 0..3 {
            let (l, _) = world.helper(j).prss().generate_values(record_id);
            let shares = [parts[0][j], parts[1][j], parts[2][j]];
            assert_eq!(
                validate_and_reconstruct(&shares).unwrap().as_u128(),
                bit_at(l, i) as u128
            );
        }
    }
    assert_eq!(bit_at(0b1010, 0), 0);
    assert_eq!(bit_at(0b1010, 1), 1);
    assert_eq!(bit_at(0b1010, 3), 1);
    assert_eq!(bit_at(u128::MAX, 127), 1);
    assert_eq!(bit_at(1, 127), 0);
    assert_eq!(bit_at(1, 128), 0);
}

#[test]
fn malicious() {
    let world = TestWorld::with_seeds(11, 12, 13);
    let [c0, c1, c2] = world.contexts();
    let mut validators: [MaliciousValidator<Fp31>; 3] = [
        MaliciousValidator::new(c0),
        MaliciousValidator::new(c1),
        MaliciousValidator::new(c2),
    ];
    let mut rbg = SharedGenerator::new(world);

    let m_result = rbg.generate::<Fp31>().unwrap();
    let aborts = rbg.aborts();
    assert_eq!(aborts[0], aborts[1]);
    assert_eq!(aborts[0], aborts[2]);

    // every share of the result, bits and value, gets its MAC and goes
    // through the validator
    let mut shares: Vec<[ipa::secret_sharing::Replicated<Fp31>; 3]> = (0..m_result[0].b_b.len())
        .map(|i| [m_result[0].b_b[i], m_result[1].b_b[i], m_result[2].b_b[i]])
        .collect();
    shares.push([m_result[0].b_p, m_result[1].b_p, m_result[2].b_p]);
    for (record, share) in shares.iter().enumerate() {
        let record_id = RecordId::from(record as u32);
        let rounds = [
            validators[0].upgrade(record_id, &share[0]),
            validators[1].upgrade(record_id, &share[1]),
            validators[2].upgrade(record_id, &share[2]),
        ];
        let macs = [
            rounds[0].finish(rounds[2].message()),
            rounds[1].finish(rounds[0].message()),
            rounds[2].finish(rounds[1].message()),
        ];
        for h in 0..3 {
            validators[h].accumulate_macs(record_id, &MaliciousReplicated::new(share[h], macs[h]));
        }
    }
    let r = rbg.world().open(&[
        validators[0].r_share(),
        validators[1].r_share(),
        validators[2].r_share(),
    ]);
    let t = [
        validators[0].check_share(r[0]),
        validators[1].check_share(r[1]),
        validators[2].check_share(r[2]),
    ];
    assert_eq!(MaliciousValidator::validate(t[0], t[2], t[1]), Ok(()));
    assert_eq!(MaliciousValidator::validate(t[1], t[0], t[2]), Ok(()));
    assert_eq!(MaliciousValidator::validate(t[2], t[1], t[0]), Ok(()));
    let _: u128 = reconstruct(&m_result); // reconstruct() will validate the value.
}

#[test]
fn three_generators_in_step_agree_on_their_aborts() {
    let mut shared = SharedGenerator::new(TestWorld::with_seeds(10, 20, 30));
    assert_eq!(shared.aborts(), [0, 0, 0]);
    let mut draws = 0;
    while shared.aborts()[0] == 0 {
        let result = shared.generate::<Fp31>().unwrap();
        assert!(reconstruct(&result) < 31);
        let aborts = shared.aborts();
        assert_eq!(aborts[0], aborts[1]);
        assert_eq!(aborts[0], aborts[2]);
        draws += 1;
        assert!(draws < 2000, "no draw failed");
    }
    // the same keys, the same draws: by hand and in step
    let mut g = generators(10, 20, 30);
    for _ in 0..draws {
        let _ = generate::<Fp31>(&mut g);
    }
    assert_eq!(g.rbg[0].aborts(), shared.aborts()[0]);
}
