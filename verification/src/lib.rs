//! A traffic accounting and billing-cycle engine.
//!
//! The library converts raw cumulative interface counters into non-negative
//! usage deltas, rolls fine-grained samples up into hour and day aggregates,
//! derives the active billing-cycle window from a cycle specification, and
//! evaluates ordered percentage thresholds against a traffic limit, firing
//! each threshold at most once per cycle.

pub mod config;
pub mod cycle;
pub mod date;
pub mod datetime;
pub mod engine;
pub mod error;
pub mod parse;
pub mod report;
pub mod state;
pub mod store;
pub mod units;
