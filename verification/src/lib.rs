//! Pricing and settlement engine for binary and three-way prediction markets.
//!
//! All quantities are signed 128-bit integers; prices and probabilities are
//! fixed-point values scaled by [`fixed_point::SCALE`].

pub mod fixed_point;
pub mod cpmm;
pub mod ledger;
pub mod lsmr;
pub mod balances;
pub mod settlement;
pub mod soromarket;
pub mod prediction;
pub mod theorems;
