use ipa::error::Error;
use ipa::ff::{Field, Fp31, Fp32BitPrime};
use ipa::protocol::basics::BasicProtocols;
use ipa::protocol::malicious::{MaliciousReplicated, MaliciousValidator};
use ipa::protocol::sort::apply::apply;
use ipa::protocol::sort::resharable::{finish_records, shuffle_records_once, Resharable};
use ipa::protocol::sort::shuffle::{random_permutations, ShuffleStep};
use ipa::protocol::step::{Named, RecordId};
use ipa::secret_sharing::Replicated;
use ipa::test_fixture::{share, validate_and_reconstruct, TestWorld};

struct Validators<F: Field> {
    world: TestWorld,
    validators: [MaliciousValidator<F>; 3],
}

fn validators<F: Field>() -> Validators<F> {
    let world = TestWorld::new().narrow(&Named("validator"));
    let [c0, c1, c2] = world.contexts();
    Validators {
        world,
        validators: [
            MaliciousValidator::new(c0),
            MaliciousValidator::new(c1),
            MaliciousValidator::new(c2),
        ],
    }
}

fn upgrade<F: Field>(
    v: &Validators<F>,
    record_id: RecordId,
    x: &[Replicated<F>; 3],
) -> [MaliciousReplicated<F>; 3] {
    let rounds = [
        v.validators[0].upgrade(record_id, &x[0]),
        v.validators[1].upgrade(record_id, &x[1]),
        v.validators[2].upgrade(record_id, &x[2]),
    ];
    [
        MaliciousReplicated::new(x[0], rounds[0].finish(rounds[2].message())),
        MaliciousReplicated::new(x[1], rounds[1].finish(rounds[0].message())),
        MaliciousReplicated::new(x[2], rounds[2].finish(rounds[1].message())),
    ]
}

fn validate<F: Field>(v: &Validators<F>) -> [Result<(), Error>; 3] {
    let r_shares = [
        v.validators[0].r_share(),
        v.validators[1].r_share(),
        v.validators[2].r_share(),
    ];
    let r = v.world.open(&r_shares);
    let t = [
        v.validators[0].check_share(r[0]),
        v.validators[1].check_share(r[1]),
        v.validators[2].check_share(r[2]),
    ];
    [
        MaliciousValidator::validate(t[0], t[2], t[1]),
        MaliciousValidator::validate(t[1], t[0], t[2]),
        MaliciousValidator::validate(t[2], t[1], t[0]),
    ]
}

#[test]
fn the_mac_is_r_times_the_value() {
    let v = validators::<Fp31>();
    let r = validate_and_reconstruct(&[
        v.validators[0].r_share(),
        v.validators[1].r_share(),
        v.validators[2].r_share(),
    ])
    .unwrap();
    for (record, secret) in [0u128, 1, 7, 30].into_iter().enumerate() {
        let x = share(Fp31::truncate_from(secret));
        let upgraded = upgrade(&v, RecordId::from(record as u32), &x);
        let mac =
            validate_and_reconstruct(&[upgraded[0].rx(), upgraded[1].rx(), upgraded[2].rx()])
                .unwrap();
        assert_eq!(mac, r.mul(Fp31::truncate_from(secret)));
        assert_eq!(upgraded[0].x(), x[0]);
    }
}

#[test]
fn honest_shares_pass_validation() {
    let mut v = validators::<Fp32BitPrime>();
    for record in 0..20u32 {
        let x = share(Fp32BitPrime::truncate_from(1000 + record as u128));
        let record_id = RecordId::from(record);
        let upgraded = upgrade(&v, record_id, &x);
        for h in 0..3 {
            v.validators[h].accumulate_macs(record_id, &upgraded[h]);
        }
    }
    assert_eq!(validate(&v), [Ok(()), Ok(()), Ok(())]);
}

#[test]
fn nothing_to_validate_passes() {
    let v = validators::<Fp31>();
    assert_eq!(validate(&v), [Ok(()), Ok(()), Ok(())]);
}

#[test]
fn a_changed_share_fails_validation() {
    let mut failures = 0;
    let trials: u32 = 40;
    for _ in 0..trials {
        let mut v = validators::<Fp32BitPrime>();
        for record in 0..5u32 {
            let x = share(Fp32BitPrime::truncate_from(77 + record as u128));
            let record_id = RecordId::from(record);
            let mut upgraded = upgrade(&v, record_id, &x);
            if record == 3 {
                // the first helper changes its value after the MAC was made
                let changed = Replicated::new(x[0].left().add(Fp32BitPrime::one()), x[0].right());
                upgraded[0] = MaliciousReplicated::new(changed, upgraded[0].rx());
            }
            for h in 0..3 {
                v.validators[h].accumulate_macs(record_id, &upgraded[h]);
            }
        }
        let outcome = validate(&v);
        assert_eq!(outcome[0], outcome[1]);
        assert_eq!(outcome[0], outcome[2]);
        if outcome[0] == Err(Error::MaliciousSecurityCheckFailed) {
            failures += 1;
        }
    }
    // a change goes unnoticed only if a random factor happens to be zero
    assert!(failures >= trials - 1);
}

#[test]
fn validation_is_the_sum_of_the_contributions() {
    let one = Fp31::one();
    let thirty = Fp31::truncate_from(30);
    assert_eq!(MaliciousValidator::validate(one, thirty, Fp31::zero()), Ok(()));
    assert_eq!(
        MaliciousValidator::validate(one, one, one),
        Err(Error::MaliciousSecurityCheckFailed)
    );
    assert_eq!(
        MaliciousValidator::validate(Fp31::zero(), Fp31::zero(), Fp31::zero()),
        Ok(())
    );
}

fn with_macs<F: Field>(
    v: &Validators<F>,
    record: u32,
    secret: u128,
) -> [MaliciousReplicated<F>; 3] {
    upgrade(v, RecordId::from(record), &share(F::truncate_from(secret)))
}

fn open_both<F: Field>(shares: &[MaliciousReplicated<F>; 3]) -> (F, F) {
    (
        validate_and_reconstruct(&[shares[0].x(), shares[1].x(), shares[2].x()]).unwrap(),
        validate_and_reconstruct(&[shares[0].rx(), shares[1].rx(), shares[2].rx()]).unwrap(),
    )
}

#[test]
fn shares_with_macs_keep_their_macs() {
    let v = validators::<Fp31>();
    let r = validate_and_reconstruct(&[
        v.validators[0].r_share(),
        v.validators[1].r_share(),
        v.validators[2].r_share(),
    ])
    .unwrap();
    let contexts = [
        v.validators[0].upgraded_context().narrow(&Named("work")),
        v.validators[1].upgraded_context().narrow(&Named("work")),
        v.validators[2].upgraded_context().narrow(&Named("work")),
    ];
    assert_eq!(contexts[1].handle().step().as_bytes(), b"/validator/work");
    let x = with_macs(&v, 0, 6);
    let y = with_macs(&v, 1, 7);

    // a product: 6 * 7 = 11 modulo 31, and its MAC is r times that
    let record_id = RecordId::from(0);
    let rounds = [
        x[0].multiply(&y[0], &contexts[0], record_id),
        x[1].multiply(&y[1], &contexts[1], record_id),
        x[2].multiply(&y[2], &contexts[2], record_id),
    ];
    let product = [
        rounds[0].finish(rounds[2].x().message(), rounds[2].rx().message()),
        rounds[1].finish(rounds[0].x().message(), rounds[0].rx().message()),
        rounds[2].finish(rounds[1].x().message(), rounds[1].rx().message()),
    ];
    let (value, mac) = open_both(&product);
    assert_eq!(value.as_u128(), 11);
    assert_eq!(mac, r.mul(value));

    // a sum of products: 6 * 7 + 7 * 6 = 22 modulo 31
    let a = [[x[0], y[0]], [x[1], y[1]], [x[2], y[2]]];
    let b = [[y[0], x[0]], [y[1], x[1]], [y[2], x[2]]];
    let rounds = [
        MaliciousReplicated::sum_of_products(&a[0], &b[0], &contexts[0], RecordId::from(1)),
        MaliciousReplicated::sum_of_products(&a[1], &b[1], &contexts[1], RecordId::from(1)),
        MaliciousReplicated::sum_of_products(&a[2], &b[2], &contexts[2], RecordId::from(1)),
    ];
    let sum = [
        rounds[0].finish(rounds[2].x().message(), rounds[2].rx().message()),
        rounds[1].finish(rounds[0].x().message(), rounds[0].rx().message()),
        rounds[2].finish(rounds[1].x().message(), rounds[1].rx().message()),
    ];
    let (value, mac) = open_both(&sum);
    assert_eq!(value.as_u128(), 22);
    assert_eq!(mac, r.mul(value));

    // a constant that every helper knows
    let known: [MaliciousReplicated<Fp31>; 3] = [
        MaliciousReplicated::share_known_value(&contexts[0], Fp31::truncate_from(9)),
        MaliciousReplicated::share_known_value(&contexts[1], Fp31::truncate_from(9)),
        MaliciousReplicated::share_known_value(&contexts[2], Fp31::truncate_from(9)),
    ];
    let (value, mac) = open_both(&known);
    assert_eq!(value.as_u128(), 9);
    assert_eq!(mac, r.mul(value));

    // a reshare towards every helper keeps value and MAC
    for to_helper in [
        ipa::helpers::Role::H1,
        ipa::helpers::Role::H2,
        ipa::helpers::Role::H3,
    ] {
        let record_id = RecordId::from(2 + to_helper.index() as u32);
        let rounds = [
            BasicProtocols::reshare(&x[0], &contexts[0], record_id, to_helper),
            BasicProtocols::reshare(&x[1], &contexts[1], record_id, to_helper),
            BasicProtocols::reshare(&x[2], &contexts[2], record_id, to_helper),
        ];
        let part = |h: usize| match (rounds[h].x().outgoing(), rounds[h].rx().outgoing()) {
            (Some((peer, px)), Some((_, pm))) => {
                let (back_x, back_m) = (
                    rounds[peer.index()].x().outgoing().unwrap().1,
                    rounds[peer.index()].rx().outgoing().unwrap().1,
                );
                let _ = (px, pm);
                (back_x, back_m)
            }
            _ => (Fp31::zero(), Fp31::zero()),
        };
        let fresh = [
            rounds[0].finish(part(0).0, part(0).1),
            rounds[1].finish(part(1).0, part(1).1),
            rounds[2].finish(part(2).0, part(2).1),
        ];
        let (value, mac) = open_both(&fresh);
        assert_eq!(value.as_u128(), 6);
        assert_eq!(mac, r.mul(value));

        // the same record, reshared field by field
        let ctx = [
            contexts[0].handle().narrow(&Named("records")),
            contexts[1].handle().narrow(&Named("records")),
            contexts[2].handle().narrow(&Named("records")),
        ];
        let rounds = [
            Resharable::reshare(&x[0], &ctx[0], record_id, to_helper),
            Resharable::reshare(&x[1], &ctx[1], record_id, to_helper),
            Resharable::reshare(&x[2], &ctx[2], record_id, to_helper),
        ];
        let received: Vec<Vec<Fp31>> = (0..3)
            .map(|h| {
                (0..2)
                    .map(|k| match rounds[h][k].outgoing() {
                        Some((peer, _)) => rounds[peer.index()][k].outgoing().unwrap().1,
                        None => Fp31::zero(),
                    })
                    .collect()
            })
            .collect();
        let [r0, r1, r2] = rounds;
        let fresh: [MaliciousReplicated<Fp31>; 3] = [
            Resharable::reshared(r0, &received[0]),
            Resharable::reshared(r1, &received[1]),
            Resharable::reshared(r2, &received[2]),
        ];
        let (value, mac) = open_both(&fresh);
        assert_eq!(value.as_u128(), 6);
        assert_eq!(mac, r.mul(value));
    }

    // opening gives the value
    let opening = [
        x[0].open(&contexts[0]),
        x[1].open(&contexts[1]),
        x[2].open(&contexts[2]),
    ];
    assert_eq!(opening[0].finish(opening[1].message()).as_u128(), 6);
}

#[test]
fn a_plain_share_is_a_record_of_one_field() {
    let v = validators::<Fp31>();
    let shares = share(Fp31::truncate_from(21));
    let contexts = v.world.contexts();
    let record_id = RecordId::from(0);
    let to_helper = ipa::helpers::Role::H2;
    let rounds = [
        Resharable::reshare(&shares[0], &contexts[0], record_id, to_helper),
        Resharable::reshare(&shares[1], &contexts[1], record_id, to_helper),
        Resharable::reshare(&shares[2], &contexts[2], record_id, to_helper),
    ];
    assert_eq!(rounds[0].len(), 1);
    let received: Vec<Fp31> = (0..3)
        .map(|h| match rounds[h][0].outgoing() {
            Some((peer, _)) => rounds[peer.index()][0].outgoing().unwrap().1,
            None => Fp31::zero(),
        })
        .collect();
    let [r0, r1, r2] = rounds;
    let fresh: [Replicated<Fp31>; 3] = [
        Resharable::reshared(r0, &received[0..1]),
        Resharable::reshared(r1, &received[1..2]),
        Resharable::reshared(r2, &received[2..3]),
    ];
    assert_eq!(validate_and_reconstruct(&fresh).unwrap().as_u128(), 21);
    // the field is reshared one step down, under the number of the field
    let pair = contexts[1]
        .narrow(&ipa::protocol::sort::resharable::FieldStep { index: 0 })
        .generate_fields::<Fp31>(record_id);
    assert_eq!(fresh[1].as_tuple(), pair);
}

#[test]
fn records_with_macs_are_shuffled_field_by_field() {
    let v = validators::<Fp31>();
    let r = validate_and_reconstruct(&[
        v.validators[0].r_share(),
        v.validators[1].r_share(),
        v.validators[2].r_share(),
    ])
    .unwrap();
    let secrets = [3u128, 14, 15, 9, 26];
    let mut records: [Vec<MaliciousReplicated<Fp31>>; 3] = [vec![], vec![], vec![]];
    for (i, secret) in secrets.iter().enumerate() {
        let shares = with_macs(&v, i as u32, *secret);
        for h in 0..3 {
            records[h].push(shares[h]);
        }
    }
    let contexts = v.world.contexts();
    let perms = [
        random_permutations(&contexts[0], 5),
        random_permutations(&contexts[1], 5),
        random_permutations(&contexts[2], 5),
    ];
    // the round towards H2: H1 and H3 permute by what they share
    let rounds: Vec<Vec<Vec<_>>> = (0..3)
        .map(|h| {
            shuffle_records_once(
                records[h].clone(),
                (&perms[h].0, &perms[h].1),
                ShuffleStep::Step2,
                &contexts[h],
            )
        })
        .collect();
    let received: Vec<Vec<Vec<Fp31>>> = (0..3)
        .map(|h| {
            (0..5)
                .map(|i| {
                    (0..2)
                        .map(|k| match rounds[h][i][k].outgoing() {
                            Some((peer, _)) => rounds[peer.index()][i][k].outgoing().unwrap().1,
                            None => Fp31::zero(),
                        })
                        .collect()
                })
                .collect()
        })
        .collect();
    let out: Vec<Vec<MaliciousReplicated<Fp31>>> = (0..3)
        .map(|h| finish_records(&rounds[h], &received[h]))
        .collect();
    let mut expected = secrets.to_vec();
    apply(&perms[0].0, &mut expected);
    for i in 0..5 {
        let (value, mac) = open_both(&[out[0][i], out[1][i], out[2][i]]);
        assert_eq!(value.as_u128(), expected[i]);
        assert_eq!(mac, r.mul(value));
    }
}
