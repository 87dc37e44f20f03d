use std::collections::HashMap;

use roulette_sim::agent::{Agent, AgentLog};
use roulette_sim::bet::{Bet, BetLog, BetState};
use roulette_sim::bet_value::BetValue;
use roulette_sim::board::Board;
use roulette_sim::categories::{Color, Column, Dozen, EvenOdd, Half, RouletteType, Row};
use roulette_sim::game::{GameLog, RouletteGame};
use roulette_sim::slot::Slot;
use roulette_sim::stats::{BetHash, BetStatEntry, Stats};

const AGENT_1_NAME: &'static str = "BOB";
const AGENT_2_NAME: &'static str = "ALICE";

fn create_testing_board() -> Board {
    let mut slots = Vec::new();
    slots.push(Slot {
        number: 0,
        color: Color::Green,
        even_odd: EvenOdd::Zero,
        dozen: Dozen::Zero,
        half: Half::Zero,
        row: Row::Zero,
        column: Column::Zero,
    });
    for i in 1..37 {
        slots.push(Slot {
            number: i,
            color: if i % 2 == 0 { Color::Red } else { Color::Black },
            even_odd: if i % 2 == 0 {
                EvenOdd::Even
            } else {
                EvenOdd::Odd
            },
            dozen: Dozen::from_slot_number(i).unwrap(),
            half: Half::from_slot_number(i).unwrap(),
            row: Row::from_slot_number(i).unwrap(),
            column: Column::from_slot_number(i).unwrap(),
        });
    }
    Board { slots }
}

fn create_games() -> Vec<RouletteGame> {
    let board = create_testing_board();
    let mut number_to_slot = HashMap::new();
    for slot in board.slots.iter() {
        number_to_slot.insert(slot.number, slot.clone());
    }
    let agent1_bet1 = Bet {
        amount_cents: 1000,
        bet_logs: vec![
            BetLog {
                bet_state: BetState::Lost,
                amount_cents: 1000,
                round_number: 1,
            },
            BetLog {
                bet_state: BetState::Won,
                amount_cents: 2000,
                round_number: 2,
            },
            BetLog {
                bet_state: BetState::Won,
                amount_cents: 1000,
                round_number: 3,
            },
            BetLog {
                bet_state: BetState::Lost,
                amount_cents: 1000,
                round_number: 4,
            },
            BetLog {
                bet_state: BetState::Lost,
                amount_cents: 2000,
                round_number: 5,
            },
        ],
        bet_value: BetValue::Color(Color::Red),
        initial_amount_cents: 1000,
        progression_factor: 2,
        bet_state: BetState::Active,
    };
    let agent1_bet2 = Bet {
        amount_cents: 1000,
        bet_logs: vec![
            BetLog {
                bet_state: BetState::Lost,
                amount_cents: 1000,
                round_number: 1,
            },
            BetLog {
                bet_state: BetState::Lost,
                amount_cents: 1000,
                round_number: 2,
            },
            BetLog {
                bet_state: BetState::Lost,
                amount_cents: 1000,
                round_number: 3,
            },
            BetLog {
                bet_state: BetState::Won,
                amount_cents: 36000,
                round_number: 4,
            },
            BetLog {
                bet_state: BetState::Lost,
                amount_cents: 1000,
                round_number: 5,
            },
        ],
        bet_value: BetValue::Number(23),
        initial_amount_cents: 1000,
        progression_factor: 1,
        bet_state: BetState::Active,
    };

    let agent2_bet1 = Bet {
        amount_cents: 1000,
        bet_logs: vec![
            BetLog {
                bet_state: BetState::Lost,
                amount_cents: 1000,
                round_number: 1,
            },
            BetLog {
                bet_state: BetState::Won,
                amount_cents: 2000,
                round_number: 2,
            },
            BetLog {
                bet_state: BetState::Won,
                amount_cents: 1000,
                round_number: 3,
            },
            BetLog {
                bet_state: BetState::Lost,
                amount_cents: 1000,
                round_number: 4,
            },
            BetLog {
                bet_state: BetState::Lost,
                amount_cents: 2000,
                round_number: 5,
            },
        ],
        bet_value: BetValue::Dozen(Dozen::One),
        initial_amount_cents: 1000,
        progression_factor: 2,
        bet_state: BetState::Active,
    };

    let game = RouletteGame {
        game_number: 1,
        board: board.clone(),
        agents: vec![
            Agent {
                name: AGENT_1_NAME.to_string(),
                balance_cents: 131000,
                strategic_bets: vec![agent1_bet1.clone(), agent1_bet2.clone()],
                agent_logs: vec![
                    AgentLog {
                        round_number: 1,
                        balance_cents: 98000,
                    },
                    AgentLog {
                        round_number: 2,
                        balance_cents: 99000,
                    },
                    AgentLog {
                        round_number: 3,
                        balance_cents: 99000,
                    },
                    AgentLog {
                        round_number: 4,
                        balance_cents: 134000,
                    },
                    AgentLog {
                        round_number: 5,
                        balance_cents: 131000,
                    },
                ],
            },
            Agent {
                name: AGENT_2_NAME.to_string(),
                balance_cents: 99000,
                strategic_bets: vec![agent2_bet1.clone()],
                agent_logs: vec![
                    AgentLog {
                        round_number: 1,
                        balance_cents: 99000,
                    },
                    AgentLog {
                        round_number: 2,
                        balance_cents: 101000,
                    },
                    AgentLog {
                        round_number: 3,
                        balance_cents: 102000,
                    },
                    AgentLog {
                        round_number: 4,
                        balance_cents: 101000,
                    },
                    AgentLog {
                        round_number: 5,
                        balance_cents: 99000,
                    },
                ],
            },
        ],
        number_of_rounds: 10,
        allow_negative_balance: false,
        game_logs: vec![
            GameLog {
                round_number: 1,
                winning_slot: number_to_slot[&13].clone(),
            },
            GameLog {
                round_number: 2,
                winning_slot: number_to_slot[&12].clone(),
            },
            GameLog {
                round_number: 3,
                winning_slot: number_to_slot[&4].clone(),
            },
            GameLog {
                round_number: 4,
                winning_slot: number_to_slot[&23].clone(),
            },
            GameLog {
                round_number: 5,
                winning_slot: number_to_slot[&33].clone(),
            },
        ],
        roulette_type: RouletteType::European,
    };
    vec![game]
}

fn bet_entry<'a>(stats: &'a Stats, name: &str, hash: &BetHash) -> &'a BetStatEntry {
    stats
        .bet_statistics
        .iter()
        .find(|e| e.agent_name == name && &e.bet_hash == hash)
        .unwrap()
}

fn bet_entry_count(stats: &Stats, name: &str) -> usize {
    stats
        .bet_statistics
        .iter()
        .filter(|e| e.agent_name == name)
        .count()
}

fn win_percentage(stats: &Stats, entry: &BetStatEntry) -> f64 {
    let sum: f64 = entry
        .win_ratios
        .iter()
        .map(|r| r.wins as f64 / r.rounds as f64)
        .sum();
    sum / stats.number_of_games as f64
}

#[test]
fn test_average_bet_win_percentage() {
    let games = create_games();
    let stats = Stats::from_games(&games);
    let agent1_bet1_hash = &BetHash::from_bet(&games[0].agents[0].strategic_bets[0]);
    let agent1_bet2_hash = &BetHash::from_bet(&games[0].agents[0].strategic_bets[1]);
    let agent2_bet1_hash = &BetHash::from_bet(&games[0].agents[1].strategic_bets[0]);
    assert_eq!(
        bet_entry_count(&stats, AGENT_1_NAME),
        2,
        "{} should have 2 bet types",
        AGENT_1_NAME
    );
    assert_eq!(
        bet_entry_count(&stats, AGENT_2_NAME),
        1,
        "{} should have 1 bet type",
        AGENT_2_NAME
    );
    assert_eq!(
        win_percentage(&stats, bet_entry(&stats, AGENT_1_NAME, agent1_bet1_hash)),
        0.4 as f64,
        "{}-Bet1 average win percentage has not been calculated correctly",
        AGENT_1_NAME
    );
    assert_eq!(
        win_percentage(&stats, bet_entry(&stats, AGENT_1_NAME, agent1_bet2_hash)),
        0.2 as f64,
        "{}-Bet2 average win percentage has not been calculated correctly",
        AGENT_1_NAME
    );
    assert_eq!(
        win_percentage(&stats, bet_entry(&stats, AGENT_2_NAME, agent2_bet1_hash)),
        0.4 as f64,
        "{}-Bet1 average win percentage has not been calculated correctly",
        AGENT_2_NAME
    );
}

#[test]
fn test_average_bet_income() {
    let games = create_games();
    let stats = Stats::from_games(&games);
    let agent1_bet1_hash = &BetHash::from_bet(&games[0].agents[0].strategic_bets[0]);
    let agent1_bet2_hash = &BetHash::from_bet(&games[0].agents[0].strategic_bets[1]);
    let agent2_bet1_hash = &BetHash::from_bet(&games[0].agents[1].strategic_bets[0]);
    assert_eq!(
        bet_entry_count(&stats, AGENT_1_NAME),
        2,
        "{} should have 2 bet types",
        AGENT_1_NAME
    );
    assert_eq!(
        bet_entry_count(&stats, AGENT_2_NAME),
        1,
        "{} should have 1 bet type",
        AGENT_2_NAME
    );
    assert_eq!(
        bet_entry(&stats, AGENT_1_NAME, agent1_bet1_hash).average_bet_income,
        -1000,
        "{}-Bet1 average bet income is calculated incorrectly",
        AGENT_1_NAME
    );
    assert_eq!(
        bet_entry(&stats, AGENT_1_NAME, agent1_bet2_hash).average_bet_income,
        32000,
        "{}-Bet2 average bet income is calculated incorrectly",
        AGENT_1_NAME,
    );
    assert_eq!(
        bet_entry(&stats, AGENT_2_NAME, agent2_bet1_hash).average_bet_income,
        -1000,
        "{}-Bet2 average bet income is calculated incorrectly",
        AGENT_2_NAME
    );
}

#[test]
fn test_longest_loss_streak_pet_bet() {
    let games = create_games();
    let stats = Stats::from_games(&games);
    let agent1_bet1_hash = &BetHash::from_bet(&games[0].agents[0].strategic_bets[0]);
    let agent1_bet2_hash = &BetHash::from_bet(&games[0].agents[0].strategic_bets[1]);
    let agent2_bet1_hash = &BetHash::from_bet(&games[0].agents[1].strategic_bets[0]);

    assert_eq!(
        bet_entry_count(&stats, AGENT_1_NAME),
        2,
        "{} should have 2 bet types",
        AGENT_1_NAME
    );
    assert_eq!(
        bet_entry_count(&stats, AGENT_2_NAME),
        1,
        "{} should have 1 bet type1",
        AGENT_2_NAME
    );
    assert_eq!(
        bet_entry(&stats, AGENT_1_NAME, agent1_bet1_hash).longest_loss_streak,
        2,
        "{}-Bet1 longests loss streak is calculated incorrectly",
        AGENT_1_NAME
    );
    assert_eq!(
        bet_entry(&stats, AGENT_1_NAME, agent1_bet2_hash).longest_loss_streak,
        3,
        "{}-Bet2 longests loss streak is calculated incorrectly",
        AGENT_1_NAME
    );
    assert_eq!(
        bet_entry(&stats, AGENT_2_NAME, agent2_bet1_hash).longest_loss_streak,
        2,
        "{}-Bet1 longests loss streak is calculated incorrectly",
        AGENT_2_NAME
    );
}

#[test]
fn test_average_agent_balances() {
    let games = create_games();
    let stats = Stats::from_games(&games);

    let bob = stats
        .average_agent_balances
        .iter()
        .find(|e| e.agent_name == AGENT_1_NAME)
        .unwrap();
    let alice = stats
        .average_agent_balances
        .iter()
        .find(|e| e.agent_name == AGENT_2_NAME)
        .unwrap();
    assert_eq!(
        bob.average_balance_cents, 131000,
        "average agent balance for {} was miscalculated",
        AGENT_1_NAME
    );
    assert_eq!(
        alice.average_balance_cents, 99000,
        "average agent balance for {} was miscalculated",
        AGENT_1_NAME
    );
}

#[test]
fn try_from_games_empty_batch() {
    let games: Vec<RouletteGame> = Vec::new();
    let stats = Stats::try_from_games(&games).unwrap();
    assert_eq!(stats.number_of_games, 0);
    assert!(stats.average_agent_balances.is_empty());
    assert!(stats.bet_statistics.is_empty());
}

#[test]
fn stats_average_over_two_games() {
    let mut games = create_games();
    let mut second = games[0].clone();
    second.game_number = 2;
    second.agents[0].balance_cents = 100000;
    second.agents[1].balance_cents = 100000;
    games.push(second);
    let stats = Stats::from_games(&games);
    let bob = stats
        .average_agent_balances
        .iter()
        .find(|e| e.agent_name == AGENT_1_NAME)
        .unwrap();
    assert_eq!(bob.average_balance_cents, (131000 + 100000) / 2);
    let agent1_bet1_hash = &BetHash::from_bet(&games[0].agents[0].strategic_bets[0]);
    let entry = bet_entry(&stats, AGENT_1_NAME, agent1_bet1_hash);
    assert_eq!(entry.win_ratios.len(), 2);
    assert_eq!(entry.average_bet_income, -1000);
    assert_eq!(entry.longest_loss_streak, 2);
}
