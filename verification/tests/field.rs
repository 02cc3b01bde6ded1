use zprize::error::BuildError;
use zprize::field::{FieldElement, MODULUS_LIMBS};
use zprize::r1cs_provider::convert::{convert, limbs_from_slice, BigIntLiteral};
use zprize::r1cs_provider::deserialize::BigInt;

const MODULUS_MINUS_ONE: [u64; 4] =
    [725501752471715840, 6461107452199829505, 6968279316240510977, 1345280370688173398];

fn element(limbs: [u64; 4]) -> FieldElement {
    FieldElement::from_bigint(&BigInt(limbs)).unwrap()
}

#[test]
fn accepts_everything_below_the_modulus() {
    assert!(FieldElement::from_bigint(&BigInt([0, 0, 0, 0])).is_some());
    assert!(FieldElement::from_bigint(&BigInt(MODULUS_MINUS_ONE)).is_some());
    assert_eq!(element(MODULUS_MINUS_ONE).to_bigint().0, MODULUS_MINUS_ONE);
}

#[test]
fn refuses_the_modulus_and_above() {
    assert!(FieldElement::from_bigint(&BigInt(MODULUS_LIMBS)).is_none());
    assert!(FieldElement::from_bigint(&BigInt([0, 0, 0, 1345280370688173399])).is_none());
    assert!(FieldElement::from_bigint(&BigInt([u64::MAX; 4])).is_none());
}

#[test]
fn conversion_keeps_the_limbs() {
    let limbs = [0x0123456789abcdef, 0xfedcba9876543210, 42, 7];
    assert_eq!(element(limbs).to_bigint().0, limbs);
}

#[test]
fn adds_in_the_field() {
    let two = FieldElement::from_u32(2);
    let three = FieldElement::from_u32(3);
    assert_eq!(two.add(&three).to_bigint().0, [5, 0, 0, 0]);
    let top = element(MODULUS_MINUS_ONE);
    assert_eq!(top.add(&FieldElement::one()).to_bigint().0, [0, 0, 0, 0]);
    assert_eq!(top.add(&three).to_bigint().0, [2, 0, 0, 0]);
    let carry = element([u64::MAX, 0, 0, 0]);
    assert_eq!(carry.add(&FieldElement::one()).to_bigint().0, [0, 1, 0, 0]);
}

#[test]
fn multiplies_in_the_field() {
    let two = FieldElement::from_u32(2);
    let three = FieldElement::from_u32(3);
    assert_eq!(two.mul(&three).to_bigint().0, [6, 0, 0, 0]);
    let top = element(MODULUS_MINUS_ONE);
    assert_eq!(top.mul(&top).to_bigint().0, [1, 0, 0, 0]);
    assert_eq!(top.mul(&FieldElement::zero()).to_bigint().0, [0, 0, 0, 0]);
    let big = element([0, 1, 0, 0]);
    assert_eq!(big.mul(&big).to_bigint().0, [0, 0, 1, 0]);
}

#[test]
fn one_and_zero() {
    assert_eq!(FieldElement::one().to_bigint().0, [1, 0, 0, 0]);
    assert_eq!(FieldElement::zero().to_bigint().0, [0, 0, 0, 0]);
    let x = element([9, 8, 7, 6]);
    assert!(x.mul(&FieldElement::one()).is_equal(&x));
    assert!(x.add(&FieldElement::zero()).is_equal(&x));
}

#[test]
fn small_integers() {
    assert_eq!(FieldElement::from_u32(u32::MAX).to_bigint().0, [u32::MAX as u64, 0, 0, 0]);
    assert_eq!(FieldElement::from_u8(255).to_bigint().0, [255, 0, 0, 0]);
    assert_eq!(FieldElement::from_u8(255).to_u8(), Some(255));
    assert_eq!(FieldElement::from_u32(256).to_u8(), None);
    assert_eq!(element([1, 1, 0, 0]).to_u8(), None);
    assert_eq!(FieldElement::zero().to_u8(), Some(0));
}

#[test]
fn equality_is_by_value() {
    assert!(element([1, 2, 3, 4]).is_equal(&element([1, 2, 3, 4])));
    assert!(!element([1, 2, 3, 4]).is_equal(&element([1, 2, 3, 5])));
    assert!(!element([1, 2, 3, 4]).is_equal(&element([0, 2, 3, 4])));
}

#[test]
fn both_encodings_of_a_number_give_one_element() {
    let from_limbs = convert(&BigIntLiteral::Limbs(BigInt([1, 1, 0, 0]))).unwrap();
    let from_text = convert(&BigIntLiteral::Decimal("18446744073709551617".to_string())).unwrap();
    assert!(from_limbs.is_equal(&from_text));
    assert_eq!(from_text.to_bigint().0, [1, 1, 0, 0]);
    let p = "8444461749428370424248824938781546531375899335154063827935233455917409239041";
    assert_eq!(
        convert(&BigIntLiteral::Decimal(p.to_string())).unwrap_err(),
        BuildError::MalformedNumber
    );
    assert_eq!(
        convert(&BigIntLiteral::Limbs(BigInt(MODULUS_LIMBS))).unwrap_err(),
        BuildError::MalformedNumber
    );
    let below = "8444461749428370424248824938781546531375899335154063827935233455917409239040";
    assert_eq!(
        convert(&BigIntLiteral::Decimal(below.to_string())).unwrap().to_bigint().0,
        MODULUS_MINUS_ONE
    );
    assert!(convert(&BigIntLiteral::Decimal("12x".to_string())).is_err());
    assert!(convert(&BigIntLiteral::Decimal(String::new())).is_err());
    assert_eq!(limbs_from_slice(&[1, 2, 3, 4]).unwrap().0, [1, 2, 3, 4]);
    assert_eq!(limbs_from_slice(&[1, 2, 3]).unwrap_err(), BuildError::MalformedNumber);
    assert_eq!(limbs_from_slice(&[1, 2, 3, 4, 5]).unwrap_err(), BuildError::MalformedNumber);
}
