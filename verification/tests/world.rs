use ipa::cli::event_time::seconds_in;
use ipa::cli::{secure_mul, validate, Row};
use ipa::ff::{Field, Fp31, Fp32BitPrime};
use ipa::helpers::Role;
use ipa::protocol::step::{Named, RecordId, Step};
use ipa::test_fixture::{share, validate_and_reconstruct, TestWorld};

#[test]
fn the_world_multiplies() {
    let world = TestWorld::new();
    let inputs: Vec<(Fp31, Fp31)> = [(2u128, 3u128), (5, 7), (0, 9)]
        .iter()
        .map(|(a, b)| (Fp31::truncate_from(*a), Fp31::truncate_from(*b)))
        .collect();
    let outputs: Vec<u128> = secure_mul(&world, &inputs)
        .iter()
        .map(|v| v.as_u128())
        .collect();
    assert_eq!(outputs, vec![6, 35 % 31, 0]);
    assert!(secure_mul::<Fp31>(&world, &[]).is_empty());
    let big = Fp32BitPrime::truncate_from(4_294_967_290);
    assert_eq!(
        world
            .multiply_in_field(RecordId::from(0), big, big)
            .as_u128(),
        1
    );
}

#[test]
fn the_world_reshares_and_opens() {
    let world = TestWorld::with_seeds(5, 6, 7).narrow(&Named("w"));
    let contexts = world.contexts();
    assert_eq!(contexts[0].step().as_bytes(), b"/w");
    assert_eq!(
        [contexts[0].role(), contexts[1].role(), contexts[2].role()],
        Role::all()
    );
    assert_eq!(contexts[0].prss().right, contexts[1].prss().left);
    assert_eq!(contexts[1].prss().right, contexts[2].prss().left);
    assert_eq!(contexts[2].prss().right, contexts[0].prss().left);
    for (t, to_helper) in Role::all().into_iter().enumerate() {
        let shares = share(Fp31::truncate_from(17));
        let reshared = world.reshare(RecordId::from(t as u32), &shares, to_helper);
        assert_eq!(
            validate_and_reconstruct(&reshared),
            Some(Fp31::truncate_from(17))
        );
        let pair = contexts[t].generate_fields::<Fp31>(RecordId::from(t as u32));
        assert_eq!(reshared[t].as_tuple(), pair);
        let opened = world.open(&reshared);
        assert_eq!(opened.map(|v| v.as_u128()), [17, 17, 17]);
    }
    assert_eq!(Step::default().as_bytes(), b"");
}

#[test]
fn validation_lists_the_rows_that_differ() {
    let v = validate(&[1, 2, 3], &[1, 5, 3]);
    assert!(!v.passed());
    assert_eq!(v.rows.len(), 3);
    assert_eq!(
        v.mismatch,
        vec![Row {
            index: 1,
            expected: Some(2),
            actual: Some(5),
            same: false
        }]
    );
    assert!(v.rows[0].same && v.rows[2].same);
    assert!(validate(&[4, 4], &[4, 4]).passed());
    assert!(validate(&[], &[]).passed());
}

#[test]
fn validation_counts_what_is_missing() {
    let v = validate(&[1], &[1, 2]);
    assert_eq!(v.rows.len(), 2);
    assert_eq!(
        v.mismatch,
        vec![Row {
            index: 1,
            expected: None,
            actual: Some(2),
            same: false
        }]
    );
    let v = validate(&[1, 2, 3], &[]);
    assert_eq!(v.mismatch.len(), 3);
    assert_eq!(v.mismatch[2].expected, Some(3));
    assert_eq!(v.mismatch[2].actual, None);
}

#[test]
fn spans_are_counted_in_seconds() {
    assert_eq!(seconds_in(0, 0, 0, 0), Some(0));
    assert_eq!(seconds_in(1, 1, 1, 1), Some(86400 + 3600 + 60 + 1));
    assert_eq!(seconds_in(2, 22, 58, 58), Some(2 * 86400 + 22 * 3600 + 58 * 60 + 58));
    assert_eq!(seconds_in(u64::MAX, 0, 0, 0), None);
    assert_eq!(seconds_in(0, 0, 0, u64::MAX), Some(u64::MAX));
    assert_eq!(seconds_in(0, 0, 1, u64::MAX), None);
}

#[test]
fn the_world_tests_for_zero() {
    let world = TestWorld::with_seeds(3, 1, 4).narrow(&Named("zero"));
    let mut false_alarms = 0;
    for record in 0..310u32 {
        let secret = (record % 31) as u128;
        let zero = world.check_zero(RecordId::from(record), &share(Fp31::truncate_from(secret)));
        if secret == 0 {
            assert!(zero);
        } else if zero {
            false_alarms += 1;
        }
    }
    // one in 31 is expected; 300 values that are not zero were tested
    assert!(false_alarms < 40);
}

#[test]
fn the_world_sums_products() {
    let world = TestWorld::new();
    let xs = [3u128, 5, 30, 0];
    let ys = [4u128, 6, 30, 9];
    let mut a: [Vec<ipa::secret_sharing::Replicated<Fp31>>; 3] = [vec![], vec![], vec![]];
    let mut b: [Vec<ipa::secret_sharing::Replicated<Fp31>>; 3] = [vec![], vec![], vec![]];
    for k in 0..4 {
        let x = share(Fp31::truncate_from(xs[k]));
        let y = share(Fp31::truncate_from(ys[k]));
        for h in 0..3 {
            a[h].push(x[h]);
            b[h].push(y[h]);
        }
    }
    let z = world.sum_of_products(RecordId::from(0), &a, &b);
    assert_eq!(validate_and_reconstruct(&z).unwrap().as_u128(), 942 % 31);
    let sum = world.add(&share(Fp31::truncate_from(20)), &share(Fp31::truncate_from(15)));
    assert_eq!(validate_and_reconstruct(&sum).unwrap().as_u128(), 4);
    let difference = world.sub(&share(Fp31::truncate_from(2)), &share(Fp31::truncate_from(5)));
    assert_eq!(validate_and_reconstruct(&difference).unwrap().as_u128(), 28);
    let known = world.known(Fp31::truncate_from(9));
    assert_eq!(validate_and_reconstruct(&known).unwrap().as_u128(), 9);
    for (x, y) in [(0u128, 0u128), (0, 1), (1, 0), (1, 1)] {
        let bit = world.xor(
            RecordId::from((2 * x + y) as u32),
            &share(Fp31::truncate_from(x)),
            &share(Fp31::truncate_from(y)),
        );
        assert_eq!(validate_and_reconstruct(&bit).unwrap().as_u128(), x ^ y);
    }
}

#[test]
fn separate_products_add_up_to_the_sum_of_products() {
    let world = TestWorld::with_seeds(8, 9, 10);
    let rows: Vec<(Fp31, Fp31)> = [(3u128, 4u128), (5, 6), (30, 30), (0, 9), (17, 2)]
        .iter()
        .map(|(x, y)| (Fp31::truncate_from(*x), Fp31::truncate_from(*y)))
        .collect();
    let separate = secure_mul(&world.narrow(&Named("each")), &rows)
        .iter()
        .fold(Fp31::zero(), |sum, v| sum.add(*v));
    let mut a: [Vec<ipa::secret_sharing::Replicated<Fp31>>; 3] = [vec![], vec![], vec![]];
    let mut b: [Vec<ipa::secret_sharing::Replicated<Fp31>>; 3] = [vec![], vec![], vec![]];
    for (x, y) in &rows {
        let (sx, sy) = (share(*x), share(*y));
        for h in 0..3 {
            a[h].push(sx[h]);
            b[h].push(sy[h]);
        }
    }
    let at_once = world
        .narrow(&Named("at-once"))
        .sum_of_products(RecordId::from(0), &a, &b);
    assert_eq!(validate_and_reconstruct(&at_once), Some(separate));
    // 12 + 30 + 900 + 0 + 34 = 976 = 15 modulo 31
    assert_eq!(separate.as_u128(), 15);
}
