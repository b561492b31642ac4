//! Tests for the fraction utility and gate-id validation.

use ticket_market::fraction::{CorePanics, Fraction};
use ticket_market::gate::ValidGateId;

#[test]
fn check_accepts_valid_fraction() {
    assert_eq!(Fraction { num: 1, den: 2 }.check(), Ok(()));
    assert_eq!(Fraction { num: 0, den: 1 }.check(), Ok(()));
    assert_eq!(Fraction { num: 7, den: 7 }.check(), Ok(()));
}

#[test]
fn check_rejects_zero_denominator() {
    assert_eq!(
        Fraction { num: 1, den: 0 }.check(),
        Err(CorePanics::ZeroDenominatorFraction)
    );
    assert_eq!(
        Fraction { num: 0, den: 0 }.check(),
        Err(CorePanics::ZeroDenominatorFraction)
    );
}

#[test]
fn check_rejects_fraction_above_one() {
    assert_eq!(
        Fraction { num: 3, den: 2 }.check(),
        Err(CorePanics::FractionGreaterThanOne)
    );
}

#[test]
fn mult_exact_small_values() {
    assert_eq!(Fraction { num: 10, den: 100 }.mult(1000), 100);
    assert_eq!(Fraction { num: 25, den: 1000 }.mult(1000), 25);
    assert_eq!(Fraction { num: 1, den: 3 }.mult(10), 3);
    assert_eq!(Fraction { num: 0, den: 5 }.mult(12345), 0);
    assert_eq!(Fraction { num: 5, den: 5 }.mult(12345), 12345);
}

#[test]
fn mult_exact_huge_values() {
    // The 160-bit intermediate product must not lose precision.
    assert_eq!(Fraction { num: 1, den: 3 }.mult(u128::MAX), u128::MAX / 3);
    assert_eq!(
        Fraction { num: u32::MAX, den: u32::MAX }.mult(u128::MAX),
        u128::MAX
    );
    assert_eq!(
        Fraction { num: 1, den: 2 }.mult(u128::MAX),
        0x7fff_ffff_ffff_ffff_ffff_ffff_ffff_ffffu128
    );
    // 3/7 of 2^127: floor(3 * 2^127 / 7).
    let v: u128 = 1u128 << 127;
    assert_eq!(
        Fraction { num: 3, den: 7 }.mult(v),
        72917650054486813599294558735378902454u128
    );
}

#[test]
fn gate_id_accepts_allowed_charset() {
    let g = ValidGateId::try_from("abc-XYZ_09".to_string()).unwrap();
    assert!(g.is_valid());
    assert_eq!(g.to_string(), "abc-XYZ_09".to_string());
}

#[test]
fn gate_id_rejects_empty_and_too_long() {
    assert!(ValidGateId::try_from(String::new()).is_none());
    assert!(ValidGateId::try_from("a".repeat(33)).is_none());
    assert!(ValidGateId::try_from("a".repeat(32)).is_some());
}

#[test]
fn gate_id_rejects_bad_characters() {
    assert!(ValidGateId::try_from("has space".to_string()).is_none());
    assert!(ValidGateId::try_from("semi;colon".to_string()).is_none());
    assert!(ValidGateId::try_from("acentuación".to_string()).is_none());
}
