use roulette_sim::categories::{Color, Column, Dozen, EvenOdd, Half, Row};
use roulette_sim::error::Error;

#[test]
fn column_test_from_str() {
    assert_eq!(Column::from_str("One").unwrap(), Column::One);
}

#[test]
fn column_test_from_number() {
    assert_eq!(Column::from_number(1).unwrap(), Column::One);
}

#[test]
fn column_test_try_from_slot_number() {
    assert_eq!(Column::from_slot_number(1).unwrap(), Column::One);
}

#[test]
fn column_test_value() {
    assert_eq!(Column::One.value(), 1);
}

#[test]
fn column_from_str_invalid() {
    assert!(Column::from_str("Thirteen").is_err());
}

#[test]
fn column_from_number_invalid() {
    assert!(Column::from_number(13).is_err());
}

#[test]
fn dozen_test_from_str() {
    assert_eq!(Dozen::from_str("Zero").unwrap(), Dozen::Zero);
}

#[test]
fn dozen_test_from_number() {
    assert_eq!(Dozen::from_number(0).unwrap(), Dozen::Zero);
}

#[test]
fn dozen_test_value() {
    assert_eq!(Dozen::Zero.value(), 0);
}

#[test]
fn half_test_from_str() {
    assert_eq!(Half::from_str("Two").unwrap(), Half::Two);
}

#[test]
fn half_test_from_number() {
    assert_eq!(Half::from_number(2).unwrap(), Half::Two);
}

#[test]
fn half_test_try_from_slot_number() {
    assert_eq!(Half::from_slot_number(36).unwrap(), Half::Two);
}

#[test]
fn row_test_from_str() {
    assert_eq!(Row::from_str("Zero").unwrap(), Row::Zero);
    assert_eq!(Row::from_str("One").unwrap(), Row::One);
    assert_eq!(Row::from_str("Two").unwrap(), Row::Two);
    assert_eq!(Row::from_str("Three").unwrap(), Row::Three);
}

#[test]
fn row_test_value() {
    assert_eq!(Row::Zero.value(), 0);
    assert_eq!(Row::One.value(), 1);
    assert_eq!(Row::Two.value(), 2);
    assert_eq!(Row::Three.value(), 3);
}

#[test]
fn row_test_from_number() {
    assert_eq!(Row::from_number(0).unwrap(), Row::Zero);
    assert_eq!(Row::from_number(1).unwrap(), Row::One);
    assert_eq!(Row::from_number(2).unwrap(), Row::Two);
    assert_eq!(Row::from_number(3).unwrap(), Row::Three);
}

#[test]
fn row_test_try_from_slot_number() {
    assert_eq!(Row::from_slot_number(0).unwrap(), Row::Zero);
    assert_eq!(Row::from_slot_number(1).unwrap(), Row::One);
    assert_eq!(Row::from_slot_number(2).unwrap(), Row::Two);
    assert_eq!(Row::from_slot_number(3).unwrap(), Row::Three);
}

#[test]
fn test_try_from_slot_number_zero() {
    assert_eq!(EvenOdd::from_slot_number(0).unwrap(), EvenOdd::Zero);
}

#[test]
fn test_try_from_slot_number_even() {
    assert_eq!(EvenOdd::from_slot_number(2).unwrap(), EvenOdd::Even);
}

#[test]
fn test_try_from_slot_number_odd() {
    assert_eq!(EvenOdd::from_slot_number(3).unwrap(), EvenOdd::Odd);
}

#[test]
fn test_try_from_slot_number_invalid() {
    match EvenOdd::from_slot_number(37) {
        Err(Error::GenericError { message }) => {
            assert_eq!(message, "37 is not a valid slot number");
        }
        other => panic!("expected a generic error, got {:?}", other),
    }
}

#[test]
fn color_from_str_roundtrip() {
    assert_eq!(Color::from_str("Red").unwrap(), Color::Red);
    assert_eq!(Color::from_str("Black").unwrap(), Color::Black);
    assert_eq!(Color::from_str("Green").unwrap(), Color::Green);
    assert!(Color::from_str("Blue").is_err());
}

#[test]
fn even_odd_from_str_roundtrip() {
    assert_eq!(EvenOdd::from_str("Even").unwrap(), EvenOdd::Even);
    assert_eq!(EvenOdd::from_str("Odd").unwrap(), EvenOdd::Odd);
    assert_eq!(EvenOdd::from_str("Zero").unwrap(), EvenOdd::Zero);
    assert!(EvenOdd::from_str("Prime").is_err());
}

#[test]
fn dozen_from_slot_number_ranges() {
    assert_eq!(Dozen::from_slot_number(-1).unwrap(), Dozen::Zero);
    assert_eq!(Dozen::from_slot_number(12).unwrap(), Dozen::One);
    assert_eq!(Dozen::from_slot_number(13).unwrap(), Dozen::Two);
    assert_eq!(Dozen::from_slot_number(25).unwrap(), Dozen::Three);
    assert!(Dozen::from_slot_number(37).is_err());
}

#[test]
fn column_from_slot_number_ranges() {
    assert_eq!(Column::from_slot_number(-1).unwrap(), Column::Zero);
    assert_eq!(Column::from_slot_number(3).unwrap(), Column::One);
    assert_eq!(Column::from_slot_number(4).unwrap(), Column::Two);
    assert_eq!(Column::from_slot_number(36).unwrap(), Column::Twelve);
    assert!(Column::from_slot_number(-2).is_err());
}
