use std::str::FromStr;

use circom_witness::witness::field::{FieldElement, Sign};
use num_bigint::BigInt;

fn to_big(value: &FieldElement) -> BigInt {
    let (sign, digits) = value.to_u32_digits();
    let sign = match sign {
        Sign::Minus => num_bigint::Sign::Minus,
        Sign::NoSign => num_bigint::Sign::NoSign,
        Sign::Plus => num_bigint::Sign::Plus,
    };
    BigInt::new(sign, digits)
}

#[test]
fn new_drops_leading_zero_digits() {
    let fr = FieldElement::new(Sign::Plus, vec![5, 0, 0]);
    assert_eq!(fr.to_u32_digits(), (Sign::Plus, vec![5]));
    assert_eq!(fr, FieldElement::from_u32(5));
    let fr = FieldElement::new(Sign::Minus, vec![0, 7, 0]);
    assert_eq!(fr.to_u32_digits(), (Sign::Minus, vec![0, 7]));
    assert_eq!(to_big(&fr), BigInt::from(-7i64 << 32));
}

#[test]
fn new_gives_zero_for_no_sign_and_for_no_magnitude() {
    assert_eq!(FieldElement::new(Sign::NoSign, vec![1, 2]), FieldElement::zero());
    assert_eq!(FieldElement::new(Sign::Minus, vec![0, 0]), FieldElement::zero());
    assert_eq!(FieldElement::new(Sign::Plus, vec![]), FieldElement::zero());
    assert_eq!(FieldElement::zero().to_u32_digits(), (Sign::NoSign, vec![]));
    assert_eq!(FieldElement::from_u32(0), FieldElement::zero());
    assert_eq!(FieldElement::from_i64(0), FieldElement::zero());
}

#[test]
fn from_i64_and_to_i64_agree() {
    for value in [
        0i64,
        1,
        -1,
        1_000_000,
        -1_000_000,
        0x7fff_ffff,
        0x8000_0000,
        -0x8000_0000,
        0xffff_ffff,
        0x1_0000_0000,
        -0x1_0000_0000,
        500000000000,
        i64::MAX,
        i64::MIN,
        i64::MIN + 1,
    ] {
        let fr = FieldElement::from_i64(value);
        assert_eq!(fr.to_i64(), Some(value));
        assert_eq!(to_big(&fr), BigInt::from(value));
        assert_eq!(fr.is_negative(), value < 0);
    }
}

#[test]
fn to_i64_is_none_outside_the_range() {
    let above = FieldElement::new(Sign::Plus, vec![0, 0x8000_0000]);
    assert_eq!(above.to_i64(), None);
    let below = FieldElement::new(Sign::Minus, vec![1, 0x8000_0000]);
    assert_eq!(below.to_i64(), None);
    let lowest = FieldElement::new(Sign::Minus, vec![0, 0x8000_0000]);
    assert_eq!(lowest.to_i64(), Some(i64::MIN));
    let wide = FieldElement::new(Sign::Plus, vec![0, 0, 1]);
    assert_eq!(wide.to_i64(), None);
    let wide = FieldElement::new(Sign::Minus, vec![0, 0, 1]);
    assert_eq!(wide.to_i64(), None);
}

#[test]
fn from_le_bytes_reads_least_significant_first() {
    assert_eq!(FieldElement::from_le_bytes(&vec![]), FieldElement::zero());
    assert_eq!(FieldElement::from_le_bytes(&vec![0, 0, 0, 0, 0]), FieldElement::zero());
    assert_eq!(
        FieldElement::from_le_bytes(&vec![1, 2, 3, 4, 5]).to_i64(),
        Some(0x05_0403_0201)
    );
    assert_eq!(FieldElement::from_le_bytes(&vec![0x40, 0x42, 0x0f]).to_i64(), Some(1_000_000));
    assert_eq!(FieldElement::from_le_bytes(&vec![9, 0]).to_i64(), Some(9));
    let bytes: Vec<u8> = (1..=40).collect();
    assert_eq!(
        to_big(&FieldElement::from_le_bytes(&bytes)),
        BigInt::from_bytes_le(num_bigint::Sign::Plus, &bytes)
    );
}

#[test]
fn to_le_bytes_pads_with_zero_and_refuses_what_does_not_fit() {
    let fr = FieldElement::from_i64(500000000000);
    assert_eq!(fr.to_le_bytes(2), Some(vec![0x00, 0x88, 0x52, 0x6a, 0x74, 0, 0, 0]));
    assert_eq!(
        fr.to_le_bytes(3),
        Some(vec![0x00, 0x88, 0x52, 0x6a, 0x74, 0, 0, 0, 0, 0, 0, 0])
    );
    assert_eq!(fr.to_le_bytes(1), None);
    assert_eq!(fr.to_le_bytes(0), None);
    assert_eq!(FieldElement::zero().to_le_bytes(0), Some(vec![]));
    assert_eq!(FieldElement::zero().to_le_bytes(1), Some(vec![0, 0, 0, 0]));
    assert_eq!(FieldElement::from_i64(-2).to_le_bytes(1), Some(vec![2, 0, 0, 0]));
    let prime = BigInt::from_str(
        "21888242871839275222246405745257275088548364400416034343698204186575808495617",
    )
    .unwrap();
    let (_, digits) = prime.to_u32_digits();
    let fr = FieldElement::new(Sign::Plus, digits);
    let (_, expected) = prime.to_bytes_le();
    assert_eq!(fr.to_le_bytes(8), Some(expected));
    assert_eq!(fr.to_le_bytes(7), None);
}
