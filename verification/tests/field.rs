use ipa::error::Error;
use ipa::ff::inverse::invert_mod;
use ipa::ff::{Field, Fp31, Fp32BitPrime};
use ipa::secret_sharing::SharedValue;

#[test]
fn fp31_arithmetic_wraps_at_the_prime() {
    let a = Fp31::truncate_from(24);
    let b = Fp31::truncate_from(13);
    assert_eq!(a.add(b).as_u128(), 6);
    assert_eq!(a.sub(b).as_u128(), 11);
    assert_eq!(b.sub(a).as_u128(), 20);
    assert_eq!(a.mul(b).as_u128(), 2);
    assert_eq!(a.neg().as_u128(), 7);
    assert_eq!(Fp31::zero().neg().as_u128(), 0);
    assert_eq!(Fp31::one().as_u128(), 1);
}

#[test]
fn fp32_arithmetic_wraps_at_the_prime() {
    let p: u128 = 4_294_967_291;
    let a = Fp32BitPrime::truncate_from(p - 1);
    let b = Fp32BitPrime::truncate_from(2);
    assert_eq!(a.add(b).as_u128(), 1);
    assert_eq!(b.sub(a).as_u128(), 3);
    assert_eq!(a.mul(a).as_u128(), 1);
    assert_eq!(a.mul(b).as_u128(), p - 2);
    assert_eq!(a.neg().as_u128(), 1);
    assert_eq!(Fp32BitPrime::modulus(), p);
}

#[test]
fn truncate_from_reduces_modulo_the_prime() {
    assert_eq!(Fp31::truncate_from(31).as_u128(), 0);
    assert_eq!(Fp31::truncate_from(35).as_u128(), 4);
    assert_eq!(Fp31::truncate_from(u128::MAX).as_u128(), u128::MAX % 31);
    assert_eq!(Fp32BitPrime::truncate_from(4_294_967_296).as_u128(), 5);
    assert_eq!(Fp31::truncate_from(35), Fp31::truncate_from(4));
}

#[test]
fn serialization_is_little_endian_of_fixed_size() {
    assert_eq!(Fp31::size_in_bytes(), 1);
    assert_eq!(Fp32BitPrime::size_in_bytes(), 4);
    assert_eq!(Fp31::truncate_from(17).serialize(), vec![17u8]);
    assert_eq!(
        Fp32BitPrime::truncate_from(0x0102_0304).serialize(),
        vec![4u8, 3, 2, 1]
    );
    let x = Fp32BitPrime::deserialize(&[4u8, 3, 2, 1]).unwrap();
    assert_eq!(x.as_u128(), 0x0102_0304);
    assert_eq!(Fp31::deserialize(&[30u8]).unwrap().as_u128(), 30);
}

#[test]
fn deserialize_refuses_what_is_not_canonical() {
    assert_eq!(Fp31::deserialize(&[31u8]), Err(Error::MalformedFrame));
    assert_eq!(Fp31::deserialize(&[]), Err(Error::MalformedFrame));
    assert_eq!(Fp31::deserialize(&[1u8, 0]), Err(Error::MalformedFrame));
    assert_eq!(
        Fp32BitPrime::deserialize(&[0xfbu8, 0xff, 0xff, 0xff]),
        Err(Error::MalformedFrame)
    );
    assert_eq!(
        Fp32BitPrime::deserialize(&[0xfau8, 0xff, 0xff, 0xff])
            .unwrap()
            .as_u128(),
        4_294_967_290
    );
    assert_eq!(
        Fp32BitPrime::deserialize(&[1u8, 2, 3]),
        Err(Error::MalformedFrame)
    );
}

#[test]
fn every_nonzero_element_of_fp31_has_its_inverse() {
    assert!(Fp31::zero().invert().is_none());
    for v in 1..31u128 {
        let x = Fp31::truncate_from(v);
        let y = x.invert().unwrap();
        assert_eq!(x.mul(y), Fp31::one());
    }
    assert_eq!(Fp31::truncate_from(2).invert().unwrap().as_u128(), 16);
    assert_eq!(Fp31::truncate_from(30).invert().unwrap().as_u128(), 30);
}

#[test]
fn inverses_in_the_large_field() {
    assert!(Fp32BitPrime::zero().invert().is_none());
    for v in [1u128, 2, 3, 65_537, 4_294_967_290, 1_234_567_891] {
        let x = Fp32BitPrime::truncate_from(v);
        let y = x.invert().unwrap();
        assert_eq!(x.mul(y).as_u128(), 1);
    }
    assert_eq!(
        Fp32BitPrime::truncate_from(2).invert().unwrap().as_u128(),
        2_147_483_646
    );
}

#[test]
fn there_is_no_inverse_where_a_divisor_is_shared() {
    assert_eq!(invert_mod(3, 10), Some(7));
    assert_eq!(invert_mod(4, 10), None);
    assert_eq!(invert_mod(5, 10), None);
    assert_eq!(invert_mod(0, 2), None);
    assert_eq!(invert_mod(1, 2), Some(1));
    assert_eq!(invert_mod(9, 10), Some(9));
}

#[test]
fn numbers_convert_by_reduction() {
    assert_eq!(Fp31::from(35u128), Fp31::truncate_from(4));
    assert_eq!(Fp31::from(u128::MAX).as_u128(), u128::MAX % 31);
    assert_eq!(Fp32BitPrime::from(4_294_967_291u128).as_u128(), 0);
    assert_eq!(Fp32BitPrime::from(7u128).as_u128(), 7);
}
