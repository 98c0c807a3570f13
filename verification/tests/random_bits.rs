use ipa::error::Error;
use ipa::ff::{Field, Fp31, Fp32BitPrime};
use ipa::helpers::Role;
use ipa::protocol::boolean::random_bits_generator::{
    CountingGenerator, Draw, RandomBitsGenerator,
};
use ipa::protocol::boolean::solved_bits::{bit_length, compose_value, solved, RandomBitsShare};
use ipa::protocol::context::Context;
use ipa::protocol::prss::PrssEndpoint;
use ipa::protocol::step::{Named, TotalRecords};
use ipa::secret_sharing::Replicated;
use ipa::test_fixture::{share, validate_and_reconstruct};

fn contexts() -> [Context; 3] {
    let (k12, k23, k31) = (1u128, 2u128, 3u128);
    [
        Context::new(Role::H1, PrssEndpoint::new(k31, k12)),
        Context::new(Role::H2, PrssEndpoint::new(k12, k23)),
        Context::new(Role::H3, PrssEndpoint::new(k23, k31)),
    ]
}

#[test]
fn failures_are_counted_and_move_to_the_fallback_channel() {
    let [c0, _, _] = contexts();
    let mut rbg = RandomBitsGenerator::new(c0, TotalRecords::Indeterminate);
    assert_eq!(rbg.aborts(), 0);
    let first = rbg.generate().unwrap();
    assert_eq!((first.fallback, first.record_id.as_u32()), (false, 0));
    assert_eq!(rbg.context(&first).step().as_bytes(), b"");
    let retry = match rbg.resolve::<Fp31>(None).unwrap() {
        Draw::Retry(attempt) => attempt,
        Draw::Ready(_) => panic!("a failure gives nothing"),
    };
    assert_eq!((retry.fallback, retry.record_id.as_u32()), (true, 0));
    assert_eq!(rbg.context(&retry).step().as_bytes(), b"/fallback");
    assert_eq!(rbg.aborts(), 1);
    let retry = match rbg.resolve::<Fp31>(None).unwrap() {
        Draw::Retry(attempt) => attempt,
        Draw::Ready(_) => panic!("a failure gives nothing"),
    };
    assert_eq!((retry.fallback, retry.record_id.as_u32()), (true, 1));
    assert_eq!(rbg.aborts(), 2);
    let share = RandomBitsShare {
        b_b: Vec::new(),
        b_p: Replicated::new(Fp31::zero(), Fp31::zero()),
    };
    assert!(matches!(rbg.resolve(Some(share)), Ok(Draw::Ready(_))));
    assert_eq!(rbg.aborts(), 2);
    let second = rbg.generate().unwrap();
    assert_eq!((second.fallback, second.record_id.as_u32()), (false, 1));
    assert_eq!(
        rbg.context(&second).total_records(),
        TotalRecords::Indeterminate
    );
    assert!(!rbg.context(&second).is_total_records_unspecified());
}

#[test]
fn the_generator_takes_a_narrowed_context() {
    let [c0, _, _] = contexts();
    let mut rbg = RandomBitsGenerator::new(c0.narrow(&Named("rbg")), TotalRecords::Indeterminate);
    let first = rbg.generate().unwrap();
    assert_eq!(rbg.context(&first).step().as_bytes(), b"/rbg");
    let retry = match rbg.resolve::<Fp32BitPrime>(None).unwrap() {
        Draw::Retry(attempt) => attempt,
        Draw::Ready(_) => panic!("a failure gives nothing"),
    };
    assert_eq!(rbg.context(&retry).step().as_bytes(), b"/rbg/fallback");
}

#[test]
fn the_bit_length_is_that_of_the_prime() {
    assert_eq!(bit_length::<Fp31>(), 5);
    assert_eq!(bit_length::<Fp32BitPrime>(), 32);
}

#[test]
fn bits_spell_their_value() {
    // 1 + 4 + 16 = 21
    let bits = [1u128, 0, 1, 0, 1];
    let mut shares: [Vec<Replicated<Fp31>>; 3] = [Vec::new(), Vec::new(), Vec::new()];
    for b in bits {
        let s = share(Fp31::truncate_from(b));
        for h in 0..3 {
            shares[h].push(s[h]);
        }
    }
    let value = [
        compose_value(&shares[0]),
        compose_value(&shares[1]),
        compose_value(&shares[2]),
    ];
    assert_eq!(validate_and_reconstruct(&value).unwrap().as_u128(), 21);
    let kept = solved(Fp31::one(), Vec::new(), value[0]);
    assert!(kept.is_some());
    assert!(solved(Fp31::zero(), Vec::new(), value[0]).is_none());
    assert!(solved(Fp31::truncate_from(2), Vec::new(), value[0]).is_none());
}

#[test]
fn an_error_ends_the_draw_and_counts_nothing() {
    let [c0, _, _] = contexts();
    let mut rbg = RandomBitsGenerator::new(c0, TotalRecords::Indeterminate);
    // the first try ends in an error
    let first = rbg.generate().unwrap();
    assert_eq!(first.record_id.as_u32(), 0);
    assert_eq!(
        rbg.settle::<Fp31>(Err(Error::PeerDisconnected)).map(|_| ()),
        Err(Error::PeerDisconnected)
    );
    assert_eq!(rbg.aborts(), 0);
    // the id of the failed try stays used
    let second = rbg.generate().unwrap();
    assert_eq!((second.fallback, second.record_id.as_u32()), (false, 1));
    // two failures, then an error on the fallback channel
    for j in 0..2u32 {
        match rbg.settle::<Fp31>(Ok(None)).unwrap() {
            Draw::Retry(attempt) => {
                assert_eq!((attempt.fallback, attempt.record_id.as_u32()), (true, j))
            }
            Draw::Ready(_) => panic!("a failure gives nothing"),
        }
    }
    assert_eq!(
        rbg.settle::<Fp31>(Err(Error::MalformedFrame)).map(|_| ()),
        Err(Error::MalformedFrame)
    );
    assert_eq!(rbg.aborts(), 2);
    let third = rbg.generate().unwrap();
    assert_eq!(third.record_id.as_u32(), 2);
    match rbg.settle::<Fp31>(Ok(None)).unwrap() {
        Draw::Retry(attempt) => assert_eq!(attempt.record_id.as_u32(), 2),
        Draw::Ready(_) => panic!("a failure gives nothing"),
    }
    assert_eq!(rbg.aborts(), 3);
    let share = RandomBitsShare {
        b_b: Vec::new(),
        b_p: Replicated::new(Fp31::one(), Fp31::zero()),
    };
    match rbg.settle(Ok(Some(share))).unwrap() {
        Draw::Ready(s) => assert_eq!(s.b_p.left(), Fp31::one()),
        Draw::Retry(_) => panic!("a value ends the draw"),
    }
    assert_eq!(rbg.aborts(), 3);
}

#[test]
fn record_ids_are_handed_out_once() {
    let [c0, c1, c2] = contexts();
    let mut counting = CountingGenerator::starting_at(c0, u32::MAX - 1);
    assert_eq!(counting.next().map(|id| id.as_u32()), Some(u32::MAX - 1));
    assert_eq!(counting.next().map(|id| id.as_u32()), Some(u32::MAX));
    // the last id was handed out: none follows, and the first does not come back
    assert_eq!(counting.next(), None);
    assert_eq!(counting.next(), None);

    let mut rbg = RandomBitsGenerator::resume(c1, u32::MAX, u32::MAX, 7);
    let last = rbg.generate().unwrap();
    assert_eq!((last.fallback, last.record_id.as_u32()), (false, u32::MAX));
    match rbg.resolve::<Fp31>(None).unwrap() {
        Draw::Retry(attempt) => {
            assert_eq!((attempt.fallback, attempt.record_id.as_u32()), (true, u32::MAX))
        }
        Draw::Ready(_) => panic!("a failure gives nothing"),
    }
    assert_eq!(rbg.aborts(), 8);
    // both channels have used up their ids
    assert_eq!(
        rbg.resolve::<Fp31>(None).map(|_| ()),
        Err(Error::RecordIdsExhausted)
    );
    assert_eq!(rbg.aborts(), 8);
    assert_eq!(rbg.generate(), Err(Error::RecordIdsExhausted));
    assert_eq!(rbg.generate(), Err(Error::RecordIdsExhausted));
    assert_eq!(rbg.aborts(), 8);

    let mut full = RandomBitsGenerator::resume(c2, 0, 0, usize::MAX);
    assert_eq!(
        full.settle::<Fp31>(Ok(None)).map(|_| ()),
        Err(Error::RecordIdsExhausted)
    );
    assert_eq!(full.aborts(), usize::MAX);
}
