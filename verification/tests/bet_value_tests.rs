use roulette_sim::bet_value::{AdjacentNumbers, BetValue, DoubleColumn};
use roulette_sim::categories::{Color, Column, Dozen, EvenOdd, Half, Row};
use roulette_sim::strutil::i8_to_string;

#[test]
fn test_bet_value_get_type() {
    assert_eq!(
        BetValue::AdjacentNumbers(AdjacentNumbers {
            numbers: vec![1, 2, 3]
        })
        .get_type(),
        "Adjacent Numbers"
    );
    assert_eq!(BetValue::Color(Color::Red).get_type(), "Color");
    assert_eq!(BetValue::Column(Column::One).get_type(), "Column");
    assert_eq!(
        BetValue::DoubleColumn(DoubleColumn {
            columns: [Column::One, Column::Two]
        })
        .get_type(),
        "DoubleColumn"
    );
    assert_eq!(BetValue::Dozen(Dozen::One).get_type(), "Dozen");
    assert_eq!(BetValue::EvenOdd(EvenOdd::Even).get_type(), "EvenOdd");
    assert_eq!(BetValue::Half(Half::One).get_type(), "Half");
    assert_eq!(BetValue::Number(1).get_type(), "Number");
    assert_eq!(BetValue::Row(Row::One).get_type(), "Row");
}

#[test]
fn test_get_value_string() {
    assert_eq!(
        BetValue::AdjacentNumbers(AdjacentNumbers {
            numbers: vec![1, 2, 3]
        })
        .get_value_string(),
        "[1 2 3]"
    );
    assert_eq!(BetValue::Color(Color::Red).get_value_string(), "Red");
    assert_eq!(BetValue::Column(Column::One).get_value_string(), "1");
    assert_eq!(
        BetValue::DoubleColumn(DoubleColumn {
            columns: [Column::One, Column::Two]
        })
        .get_value_string(),
        "[1 2]"
    );
    assert_eq!(BetValue::Dozen(Dozen::One).get_value_string(), "1");
    assert_eq!(BetValue::EvenOdd(EvenOdd::Even).get_value_string(), "Even");
    assert_eq!(BetValue::Half(Half::One).get_value_string(), "1");
    assert_eq!(BetValue::Number(1).get_value_string(), "1");
    assert_eq!(BetValue::Row(Row::One).get_value_string(), "1");
}

#[test]
fn get_value_string_double_zero() {
    assert_eq!(BetValue::Number(-1).get_value_string(), "-1");
}

#[test]
fn get_value_string_adjacency_with_double_zero() {
    assert_eq!(
        BetValue::AdjacentNumbers(AdjacentNumbers {
            numbers: vec![-1, 2, 3]
        })
        .get_value_string(),
        "[-1 2 3]"
    );
}

#[test]
fn i8_to_string_edges() {
    assert_eq!(i8_to_string(0), "0");
    assert_eq!(i8_to_string(9), "9");
    assert_eq!(i8_to_string(10), "10");
    assert_eq!(i8_to_string(36), "36");
    assert_eq!(i8_to_string(127), "127");
    assert_eq!(i8_to_string(-1), "-1");
    assert_eq!(i8_to_string(-128), "-128");
}

#[test]
fn bet_value_equality_is_structural() {
    let a = BetValue::AdjacentNumbers(AdjacentNumbers {
        numbers: vec![1, 2],
    });
    let b = BetValue::AdjacentNumbers(AdjacentNumbers {
        numbers: vec![1, 2],
    });
    let c = BetValue::AdjacentNumbers(AdjacentNumbers {
        numbers: vec![2, 1],
    });
    assert!(a == b);
    assert!(a != c);
    assert!(BetValue::Number(3) != BetValue::Column(Column::Three));
}
