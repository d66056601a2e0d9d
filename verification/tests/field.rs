use ff::{Field, PrimeField};
use jolt_r1cs::builder::R1CSBuilder;
use jolt_r1cs::field::{i64_to_f, modulus_bytes, FieldElement};
use spartan2::provider::bn254::types::Scalar;

fn scalar_bytes(s: Scalar) -> [u8; 32] {
    s.to_repr().into()
}

fn scalar_of(c: i64) -> Scalar {
    if c < 0 {
        Scalar::ZERO - Scalar::from(c.unsigned_abs())
    } else {
        Scalar::from(c as u64)
    }
}

fn sum_under_one(lc: Vec<(usize, i64)>) -> FieldElement {
    let builder = R1CSBuilder {
        A: vec![],
        B: vec![],
        C: vec![],
        num_constraints: 0,
        num_variables: 1,
        num_inputs: 0,
        num_aux: 0,
        z: Some(vec![i64_to_f(1)]),
    };
    builder.get_val_from_lc(&lc)
}

#[test]
fn zero_and_one_have_the_natural_bytes() {
    assert_eq!(i64_to_f(0).to_bytes(), [0u8; 32]);
    let mut one = [0u8; 32];
    one[0] = 1;
    assert_eq!(i64_to_f(1).to_bytes(), one);
}

#[test]
fn positive_coefficients_embed_little_endian() {
    let mut expected = [0u8; 32];
    expected[0] = 0x20;
    expected[1] = 0x03;
    assert_eq!(i64_to_f(0x0320).to_bytes(), expected);
    let mut wide = [0u8; 32];
    wide[..8].copy_from_slice(&i64::MAX.to_le_bytes());
    assert_eq!(i64_to_f(i64::MAX).to_bytes(), wide);
}

#[test]
fn minus_one_is_the_modulus_less_one() {
    let mut expected = modulus_bytes();
    assert_eq!(expected[0], 0x01);
    expected[0] = 0x00;
    assert_eq!(i64_to_f(-1).to_bytes(), expected);
}

#[test]
fn minus_eight_is_the_modulus_less_eight() {
    // The modulus ends in ...f0000001, so eight less ends in ...effffff9.
    let bytes = i64_to_f(-8).to_bytes();
    assert_eq!(&bytes[..4], &[0xf9, 0xff, 0xff, 0xef]);
    assert_eq!(&bytes[4..], &modulus_bytes()[4..]);
}

#[test]
fn coefficients_agree_with_the_scalar_field() {
    for c in [0i64, 1, 2, 7, 255, 256, 4096, -1, -2, -4, -256, 1 << 48, -(1 << 32), i64::MAX, i64::MIN + 1] {
        assert_eq!(i64_to_f(c).to_bytes(), scalar_bytes(scalar_of(c)), "coefficient {}", c);
    }
}

#[test]
fn the_most_negative_coefficient_is_mapped() {
    let expected = Scalar::ZERO - Scalar::from(1u64 << 63);
    assert_eq!(i64_to_f(i64::MIN).to_bytes(), scalar_bytes(expected));
}

#[test]
fn modulus_bytes_are_the_order_of_the_scalar_field() {
    let bytes = modulus_bytes();
    let mut hex = String::from("0x");
    for b in bytes.iter().rev() {
        hex.push_str(&format!("{:02x}", b));
    }
    assert_eq!(hex, Scalar::MODULUS);
    // One less than the modulus is the largest element: minus one.
    let mut largest = bytes;
    largest[0] -= 1;
    assert_eq!(largest, scalar_bytes(Scalar::ZERO - Scalar::ONE));
}

#[test]
fn from_bytes_takes_canonical_bytes_only() {
    assert_eq!(FieldElement::from_bytes([0u8; 32]), Some(i64_to_f(0)));
    let mut largest = modulus_bytes();
    largest[0] -= 1;
    assert_eq!(FieldElement::from_bytes(largest), Some(i64_to_f(-1)));
    assert_eq!(FieldElement::from_bytes(modulus_bytes()), None);
    let mut above = modulus_bytes();
    above[0] += 1;
    assert_eq!(FieldElement::from_bytes(above), None);
    assert_eq!(FieldElement::from_bytes([0xff; 32]), None);
    // Larger in a low byte, smaller in the top byte: still below the modulus.
    let mut mixed = [0xff; 32];
    mixed[31] = 0x30;
    mixed[30] = 0x63;
    assert!(FieldElement::from_bytes(mixed).is_some());
    // Equal in every byte but one in the middle.
    let mut middle = modulus_bytes();
    middle[16] += 1;
    assert_eq!(FieldElement::from_bytes(middle), None);
    middle[16] -= 2;
    assert!(FieldElement::from_bytes(middle).is_some());
}

#[test]
fn bytes_round_trip() {
    for c in [0i64, 1, -1, 12345, -12345, i64::MAX, i64::MIN] {
        let e = i64_to_f(c);
        assert_eq!(FieldElement::from_bytes(e.to_bytes()), Some(e));
    }
}

#[test]
fn only_zero_is_zero() {
    assert!(i64_to_f(0).is_zero());
    assert!(!i64_to_f(1).is_zero());
    assert!(!i64_to_f(-1).is_zero());
    assert!(!i64_to_f(1 << 40).is_zero());
    let mut high = [0u8; 32];
    high[31] = 1;
    assert!(!FieldElement::from_bytes(high).unwrap().is_zero());
}

#[test]
fn a_coefficient_and_its_negation_cancel() {
    for c in [0i64, 1, 2, 5, 1 << 31, (1 << 31) - 1, -(1 << 31), 0x7fff_ffe0, i64::MAX] {
        let sum = sum_under_one(vec![(0, c), (0, -c)]);
        assert!(sum.is_zero(), "coefficient {}", c);
        assert_eq!(sum, i64_to_f(0));
    }
}

#[test]
fn sums_wrap_at_the_modulus() {
    // (p - 1) + 1 = 0 and (p - 1) + 2 = 1.
    assert_eq!(sum_under_one(vec![(0, -1), (0, 1)]), i64_to_f(0));
    assert_eq!(sum_under_one(vec![(0, -1), (0, 2)]), i64_to_f(1));
    // 0 - 1 - 1 = p - 2.
    assert_eq!(sum_under_one(vec![(0, -1), (0, -1)]), i64_to_f(-2));
}
