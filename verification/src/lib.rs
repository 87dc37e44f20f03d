//! A verified roulette simulation engine: wheel generation, bet validation,
//! per-round settlement, a batch runner, and a statistics reducer, each with
//! machine-checked contracts.

pub mod agent;
pub mod bet;
pub mod bet_value;
pub mod board;
pub mod categories;
pub mod error;
pub mod game;
pub mod runner;
pub mod slot;
pub mod stats;
pub mod strutil;
