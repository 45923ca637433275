//! A deterministic backtesting core for a single-instrument, single-strategy
//! trading rule.
//!
//! Price bars are replayed, in time order, through a pluggable decision policy
//! ([`engine::Strategy`]) and an execution/accounting engine
//! ([`engine::BacktestEngine`]), producing a list of realized trades and a
//! final equity value.
//!
//! All prices, quantities, fractions and money values are fixed-point integers
//! with [`fixed::SCALE`] units per 1.0, so that every accounting step is exact
//! integer arithmetic and can be specified precisely.

pub mod candle;
pub mod engine;
pub mod errors;
pub mod fixed;
pub mod indicators;
pub mod strategy;
