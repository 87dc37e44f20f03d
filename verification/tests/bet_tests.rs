use roulette_sim::bet::{Bet, BetState};
use roulette_sim::bet_value::{AdjacentNumbers, BetValue, DoubleColumn};
use roulette_sim::categories::{Column, RouletteType};

fn create_test_bet(bet_value: BetValue) -> Bet {
    Bet {
        amount_cents: 1000,
        bet_logs: Vec::new(),
        bet_state: BetState::Active,
        bet_value,
        initial_amount_cents: 1000,
        progression_factor: 2,
    }
}

#[test]
fn test_validate_number_valid() {
    let mut bet = create_test_bet(BetValue::Number(1));
    bet.validate(Some(&RouletteType::European));
    assert_eq!(bet.bet_state, BetState::Active);
}

#[test]
fn test_validate_number_double_zero_european() {
    let mut bet = create_test_bet(BetValue::Number(-1));
    bet.validate(Some(&RouletteType::European));
    assert_eq!(bet.bet_state, BetState::Inactive);
}

#[test]
fn test_validate_number_double_zero_american() {
    let mut bet = create_test_bet(BetValue::Number(-1));
    bet.validate(Some(&RouletteType::American));
    assert_eq!(bet.bet_state, BetState::Active);
}

#[test]
fn test_validate_number_less_than_range() {
    let mut bet = create_test_bet(BetValue::Number(-2));
    bet.validate(Some(&RouletteType::American));
    assert_eq!(bet.bet_state, BetState::Inactive);
}

#[test]
fn test_validate_number_more_than_range() {
    let mut bet = create_test_bet(BetValue::Number(37));
    bet.validate(Some(&RouletteType::American));
    assert_eq!(bet.bet_state, BetState::Inactive);
}

#[test]
fn test_validate_double_column_valid() {
    let mut bet = create_test_bet(BetValue::DoubleColumn(DoubleColumn {
        columns: [Column::One, Column::Two],
    }));
    bet.validate(Some(&RouletteType::American));
    assert_eq!(bet.bet_state, BetState::Active);
}

#[test]
fn test_validate_double_column_invalid() {
    let mut bet = create_test_bet(BetValue::DoubleColumn(DoubleColumn {
        columns: [Column::One, Column::Three],
    }));
    bet.validate(Some(&RouletteType::American));
    assert_eq!(bet.bet_state, BetState::Inactive);
}

#[test]
fn test_validate_adjacent_numbers_invalid_duo() {
    let mut bet = create_test_bet(BetValue::AdjacentNumbers(AdjacentNumbers {
        numbers: vec![1, 3],
    }));
    bet.validate(Some(&RouletteType::American));
    assert_eq!(bet.bet_state, BetState::Inactive);
}

#[test]
fn test_validate_adjacent_numbers_invalid_triple() {
    let mut bet = create_test_bet(BetValue::AdjacentNumbers(AdjacentNumbers {
        numbers: vec![1, 2, 3],
    }));
    bet.validate(Some(&RouletteType::American));
    assert_eq!(bet.bet_state, BetState::Inactive);
}

#[test]
fn test_validate_adjacent_numbers_invalid_quad() {
    let mut bet = create_test_bet(BetValue::AdjacentNumbers(AdjacentNumbers {
        numbers: vec![1, 2, 3, 4],
    }));
    bet.validate(Some(&RouletteType::American));
    assert_eq!(bet.bet_state, BetState::Inactive);
}

#[test]
fn test_validate_adjacent_numbers_valid_american_invalid_european() {
    let bet_value = BetValue::AdjacentNumbers(AdjacentNumbers {
        numbers: vec![-1, 2, 3],
    });
    let mut american_bet = create_test_bet(bet_value.clone());
    american_bet.validate(Some(&RouletteType::American));
    assert_eq!(american_bet.bet_state, BetState::Active);

    let mut european_bet = create_test_bet(bet_value);
    european_bet.validate(Some(&RouletteType::European));
    assert_eq!(european_bet.bet_state, BetState::Inactive);
}

#[test]
fn test_validate_adjacent_numbers_valid_european_invalid_american() {
    let bet_value = BetValue::AdjacentNumbers(AdjacentNumbers {
        numbers: vec![0, 2, 3],
    });
    let mut american_bet = create_test_bet(bet_value.clone());
    american_bet.validate(Some(&RouletteType::American));
    assert_eq!(american_bet.bet_state, BetState::Inactive);

    let mut european_bet = create_test_bet(bet_value);
    european_bet.validate(Some(&RouletteType::European));
    assert_eq!(european_bet.bet_state, BetState::Active);
}

#[test]
fn test_validate_adjacent_numbers_repeat_numbers() {
    let mut bet = create_test_bet(BetValue::AdjacentNumbers(AdjacentNumbers {
        numbers: vec![1, 2, 2],
    }));
    bet.validate(Some(&RouletteType::American));
    assert_eq!(bet.bet_state, BetState::Inactive);
}

#[test]
fn validate_adjacent_numbers_basket_european() {
    let mut bet = create_test_bet(BetValue::AdjacentNumbers(AdjacentNumbers {
        numbers: vec![0, 1, 2],
    }));
    bet.validate(Some(&RouletteType::European));
    assert_eq!(bet.bet_state, BetState::Active);
}

#[test]
fn validate_adjacent_numbers_row_split() {
    let mut bet = create_test_bet(BetValue::AdjacentNumbers(AdjacentNumbers {
        numbers: vec![1, 2],
    }));
    bet.validate(Some(&RouletteType::European));
    assert_eq!(bet.bet_state, BetState::Active);
}

#[test]
fn validate_adjacent_numbers_vertical_split() {
    let mut bet = create_test_bet(BetValue::AdjacentNumbers(AdjacentNumbers {
        numbers: vec![5, 8],
    }));
    bet.validate(Some(&RouletteType::European));
    assert_eq!(bet.bet_state, BetState::Active);
}

#[test]
fn validate_adjacent_numbers_corner() {
    let mut bet = create_test_bet(BetValue::AdjacentNumbers(AdjacentNumbers {
        numbers: vec![1, 2, 4, 5],
    }));
    bet.validate(Some(&RouletteType::European));
    assert_eq!(bet.bet_state, BetState::Active);
}

#[test]
fn validate_adjacent_numbers_corner_row_start_rejected() {
    let mut bet = create_test_bet(BetValue::AdjacentNumbers(AdjacentNumbers {
        numbers: vec![3, 4, 6, 7],
    }));
    bet.validate(Some(&RouletteType::European));
    assert_eq!(bet.bet_state, BetState::Inactive);
}

#[test]
fn validate_color_green_rejected() {
    let mut bet = create_test_bet(BetValue::Color(roulette_sim::categories::Color::Green));
    bet.validate(Some(&RouletteType::European));
    assert_eq!(bet.bet_state, BetState::Inactive);
}

#[test]
fn validate_exhausted_bet_turns_inactive() {
    let mut bet = Bet {
        amount_cents: 0,
        bet_logs: Vec::new(),
        bet_state: BetState::Lost,
        bet_value: BetValue::Number(5),
        initial_amount_cents: 0,
        progression_factor: 0,
    };
    bet.validate(None);
    assert_eq!(bet.bet_state, BetState::Inactive);
}
