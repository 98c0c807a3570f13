use ipa::bits::bit_array::{reconstruct_bits, share_bits_with};
use ipa::bits::BitArray;
use ipa::error::Error;
use ipa::secret_sharing::SharedValue;
use rand::Rng;

type MatchKey = BitArray<40>;
type BreakdownKey = BitArray<8>;

#[test]
fn bit_arrays_keep_their_width() {
    assert_eq!(MatchKey::bits(), 40);
    assert_eq!(MatchKey::size_in_bytes(), 5);
    assert_eq!(BreakdownKey::size_in_bytes(), 1);
    assert_eq!(BitArray::<9>::size_in_bytes(), 2);
    assert_eq!(BitArray::<64>::size_in_bytes(), 8);
    assert_eq!(BitArray::<100>::size_in_bytes(), 13);
    assert_eq!(BitArray::<0>::size_in_bytes(), 0);
    assert_eq!(MatchKey::truncate_from(u64::MAX).as_u64(), (1 << 40) - 1);
    assert_eq!(BreakdownKey::truncate_from(0x1ff).as_u64(), 0xff);
    assert_eq!(BitArray::<64>::truncate_from(u64::MAX).as_u64(), u64::MAX);
    assert_eq!(BitArray::<1>::truncate_from(3).as_u64(), 1);
    assert_eq!(MatchKey::zero().as_u64(), 0);
}

#[test]
fn addition_is_exclusive_or() {
    let a = BreakdownKey::truncate_from(0b1100_1010);
    let b = BreakdownKey::truncate_from(0b1010_0110);
    assert_eq!(a.xor(b).as_u64(), 0b0110_1100);
    assert_eq!(a.xor(a).as_u64(), 0);
    assert_eq!(a.xor(BreakdownKey::zero()).as_u64(), a.as_u64());
    assert!(a.get(1) && !a.get(0) && a.get(7) && !a.get(5));
    assert_eq!(a.with(0, true).as_u64(), 0b1100_1011);
    assert_eq!(a.with(7, false).as_u64(), 0b0100_1010);
}

#[test]
fn bit_arrays_are_sent_byte_by_byte() {
    let key = MatchKey::truncate_from(0x01_0203_0405);
    assert_eq!(key.serialize(), vec![5, 4, 3, 2, 1]);
    assert_eq!(
        MatchKey::deserialize(&[5, 4, 3, 2, 1]).unwrap().as_u64(),
        0x01_0203_0405
    );
    assert_eq!(
        MatchKey::deserialize(&[5, 4, 3, 2]).map(|b| b.as_u64()),
        Err(Error::MalformedFrame)
    );
    let odd = BitArray::<9>::truncate_from(0x1ff);
    assert_eq!(odd.serialize(), vec![0xff, 0x01]);
    assert_eq!(
        BitArray::<9>::deserialize(&[0xff, 0x02]).map(|b| b.as_u64()),
        Err(Error::MalformedFrame)
    );
    assert_eq!(
        BitArray::<9>::deserialize(&[0xff, 0x01]).map(|b| b.as_u64()),
        Ok(0x1ff)
    );
    assert_eq!(BitArray::<0>::zero().serialize(), Vec::<u8>::new());
    assert!(BitArray::<0>::deserialize(&[]).is_ok());
}

#[test]
fn bit_arrays_wider_than_a_word_keep_every_bit() {
    type Wide = BitArray<100>;
    let low = Wide::truncate_from(u64::MAX);
    assert!(low.get(63) && !low.get(64) && !low.get(99));
    let high = Wide::zero().with(64, true).with(99, true);
    assert_eq!(high.as_u64(), 0);
    assert!(high.get(64) && high.get(99) && !high.get(98));
    let all = low.xor(high);
    assert_eq!(all.as_u64(), u64::MAX);
    assert!(all.get(0) && all.get(64) && all.get(99) && !all.get(65));
    let bytes = all.serialize();
    assert_eq!(
        bytes,
        vec![0xff, 0xff, 0xff, 0xff, 0xff, 0xff, 0xff, 0xff, 0x01, 0, 0, 0, 0x08]
    );
    assert_eq!(Wide::deserialize(&bytes), Ok(all));
    // bit 100 does not belong to the vector
    let mut beyond = bytes.clone();
    beyond[12] = 0x18;
    assert_eq!(Wide::deserialize(&beyond), Err(Error::MalformedFrame));
    assert_eq!(Wide::deserialize(&bytes[..12]), Err(Error::MalformedFrame));
    assert_eq!(all.xor(all), Wide::zero());
    let shares = share_bits_with(all, low, high);
    assert_eq!(reconstruct_bits(&shares), all);
}

#[test]
fn shared_bit_arrays_open_to_the_secret() {
    let mut rng = rand::thread_rng();
    for _ in 0..100 {
        let secret = MatchKey::truncate_from(rng.gen());
        let shares = share_bits_with(
            secret,
            MatchKey::truncate_from(rng.gen()),
            MatchKey::truncate_from(rng.gen()),
        );
        assert_eq!(shares[0].right(), shares[1].left());
        assert_eq!(shares[1].right(), shares[2].left());
        assert_eq!(shares[2].right(), shares[0].left());
        assert_eq!(reconstruct_bits(&shares).as_u64(), secret.as_u64());
    }
}
