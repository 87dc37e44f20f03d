use roulette_sim::agent::Agent;
use roulette_sim::bet::{Bet, BetState};
use roulette_sim::bet_value::BetValue;
use roulette_sim::categories::Color;

fn simple_bet(bet_value: BetValue, amount: i64, state: BetState) -> Bet {
    Bet {
        amount_cents: amount,
        bet_logs: Vec::new(),
        bet_state: state,
        bet_value,
        initial_amount_cents: amount,
        progression_factor: 2,
    }
}

#[test]
fn test_consolidate_bets() {
    let mut agent = Agent {
        balance_cents: 100000,
        name: String::from("Test Agent"),
        strategic_bets: vec![
            simple_bet(BetValue::Number(1), 1000, BetState::Active),
            simple_bet(BetValue::Number(1), 1000, BetState::Active),
        ],
        agent_logs: Vec::new(),
    };

    let ok = agent.consolidate_bets();
    assert!(ok);
    assert_eq!(agent.strategic_bets.len(), 1);
    assert_eq!(agent.strategic_bets[0].amount_cents, 2000);
}

#[test]
fn consolidate_bets_distinct_signatures_never_merge() {
    let mut agent = Agent {
        balance_cents: 100000,
        name: String::from("Test Agent"),
        strategic_bets: vec![
            simple_bet(BetValue::Number(1), 1000, BetState::Active),
            simple_bet(BetValue::Number(2), 1000, BetState::Active),
            Bet {
                amount_cents: 1000,
                bet_logs: Vec::new(),
                bet_state: BetState::Active,
                bet_value: BetValue::Number(1),
                initial_amount_cents: 1000,
                progression_factor: 3,
            },
        ],
        agent_logs: Vec::new(),
    };

    let ok = agent.consolidate_bets();
    assert!(ok);
    assert_eq!(agent.strategic_bets.len(), 3);
    assert_eq!(agent.strategic_bets[0].amount_cents, 1000);
    assert_eq!(agent.strategic_bets[1].amount_cents, 1000);
    assert_eq!(agent.strategic_bets[2].amount_cents, 1000);
}

#[test]
fn consolidate_bets_sums_initial_amounts() {
    let mut agent = Agent {
        balance_cents: 100000,
        name: String::from("Test Agent"),
        strategic_bets: vec![
            Bet {
                amount_cents: 1500,
                bet_logs: Vec::new(),
                bet_state: BetState::Active,
                bet_value: BetValue::Color(Color::Red),
                initial_amount_cents: 1000,
                progression_factor: 2,
            },
            Bet {
                amount_cents: 500,
                bet_logs: Vec::new(),
                bet_state: BetState::Active,
                bet_value: BetValue::Color(Color::Red),
                initial_amount_cents: 700,
                progression_factor: 2,
            },
        ],
        agent_logs: Vec::new(),
    };

    let ok = agent.consolidate_bets();
    assert!(ok);
    assert_eq!(agent.strategic_bets.len(), 1);
    assert_eq!(agent.strategic_bets[0].amount_cents, 2000);
    assert_eq!(agent.strategic_bets[0].initial_amount_cents, 1700);
}

#[test]
fn consolidate_bets_overflow_reports_failure() {
    let mut agent = Agent {
        balance_cents: 0,
        name: String::from("Test Agent"),
        strategic_bets: vec![
            simple_bet(BetValue::Number(1), i64::MAX, BetState::Active),
            simple_bet(BetValue::Number(1), 1, BetState::Active),
        ],
        agent_logs: Vec::new(),
    };

    let ok = agent.consolidate_bets();
    assert!(!ok);
}

#[test]
fn test_allow_all_bets() {
    let mut agent = Agent {
        balance_cents: 100000,
        name: String::from("Test Agent"),
        strategic_bets: vec![
            simple_bet(BetValue::Number(1), 1000, BetState::Inactive),
            simple_bet(BetValue::Color(Color::Black), 1000, BetState::Active),
        ],
        agent_logs: Vec::new(),
    };

    agent.allow_all_bets();
    assert_eq!(agent.strategic_bets.len(), 2);
    assert_eq!(agent.strategic_bets[0].bet_state, BetState::Active);
    assert_eq!(agent.strategic_bets[1].bet_state, BetState::Active);
}

#[test]
fn test_determine_affordable_bets() {
    let mut agent = Agent {
        balance_cents: 100000,
        name: String::from("Test Agent"),
        strategic_bets: vec![
            simple_bet(BetValue::Number(1), 1000, BetState::Inactive),
            simple_bet(BetValue::Color(Color::Black), 1000, BetState::Active),
        ],
        agent_logs: Vec::new(),
    };

    agent.allow_all_bets();
    assert_eq!(agent.strategic_bets.len(), 2);
    assert_eq!(agent.strategic_bets[0].bet_state, BetState::Active);
    assert_eq!(agent.strategic_bets[1].bet_state, BetState::Active);
}

#[test]
fn determine_affordable_bets_marks_unaffordable_tail() {
    let mut agent = Agent {
        balance_cents: 1500,
        name: String::from("Test Agent"),
        strategic_bets: vec![
            simple_bet(BetValue::Number(1), 1000, BetState::Won),
            simple_bet(BetValue::Color(Color::Black), 1000, BetState::Lost),
            simple_bet(BetValue::Number(7), 400, BetState::Inactive),
        ],
        agent_logs: Vec::new(),
    };

    agent.determine_affordable_bets();
    assert_eq!(agent.strategic_bets[0].bet_state, BetState::Active);
    assert_eq!(agent.strategic_bets[1].bet_state, BetState::Inactive);
    assert_eq!(agent.strategic_bets[2].bet_state, BetState::Inactive);
}

#[test]
fn test_play_strategy() {
    let mut agent = Agent {
        balance_cents: 100000,
        name: String::from("Test Agent"),
        strategic_bets: vec![
            Bet {
                amount_cents: 3500,
                bet_logs: Vec::new(),
                bet_state: BetState::Won,
                bet_value: BetValue::Number(1),
                initial_amount_cents: 3500,
                progression_factor: 2,
            },
            Bet {
                amount_cents: 5000,
                bet_logs: Vec::new(),
                bet_state: BetState::Lost,
                bet_value: BetValue::Color(Color::Black),
                initial_amount_cents: 5000,
                progression_factor: 2,
            },
        ],
        agent_logs: Vec::new(),
    };

    agent.play_strategy();
    assert_eq!(agent.strategic_bets.len(), 2);
    let sum_of_amounts = agent
        .strategic_bets
        .iter()
        .map(|bet| bet.amount_cents)
        .sum::<i64>();
    assert_eq!(sum_of_amounts, 13500);
}

#[test]
fn play_strategy_doubles_lost_and_resets_won() {
    let mut agent = Agent {
        balance_cents: 100000,
        name: String::from("Test Agent"),
        strategic_bets: vec![
            Bet {
                amount_cents: 1000,
                bet_logs: Vec::new(),
                bet_state: BetState::Lost,
                bet_value: BetValue::Color(Color::Red),
                initial_amount_cents: 1000,
                progression_factor: 2,
            },
            Bet {
                amount_cents: 8000,
                bet_logs: Vec::new(),
                bet_state: BetState::Won,
                bet_value: BetValue::Color(Color::Black),
                initial_amount_cents: 1000,
                progression_factor: 2,
            },
            Bet {
                amount_cents: 4000,
                bet_logs: Vec::new(),
                bet_state: BetState::Active,
                bet_value: BetValue::Number(5),
                initial_amount_cents: 1000,
                progression_factor: 2,
            },
        ],
        agent_logs: Vec::new(),
    };

    agent.play_strategy();
    assert_eq!(agent.strategic_bets[0].amount_cents, 2000);
    assert_eq!(agent.strategic_bets[1].amount_cents, 1000);
    assert_eq!(agent.strategic_bets[2].amount_cents, 4000);
}
