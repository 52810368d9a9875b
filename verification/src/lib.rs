//! Core of a market-making signal engine for a single instrument: a limit
//! order book snapshot, two rolling-window statistical detectors over it, a
//! signal aggregator, and a risk circuit breaker gating every trade decision.
//!
//! All quantities, prices, strengths and confidences are fixed-point values:
//! an `i64` holding the real value times [`num::SCALE`].

pub mod num;
pub mod types;
pub mod book;
mod clock;
pub mod imbalance;
pub mod flow;
pub mod composite;
pub mod risk;
pub mod position;
pub mod auth;
pub mod wire;
pub mod config;
pub mod execution;
pub mod backtest;

