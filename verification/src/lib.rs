//! Securities position tracking: quote acquisition with graceful fallback and
//! a two-level profit/loss aggregation engine (per instrument, per portfolio).
//!
//! All monetary amounts are fixed-point integers in minor units (hundredths),
//! and every ratio is an exact fraction, so each computation is verified to be
//! exact rather than approximate.

pub mod closed_trade;
pub mod error;
pub mod ordering;
pub mod portfolio_service;
pub mod position;
pub mod profit_loss;
pub mod quote;
pub mod quote_service;
pub mod rational;
pub mod summary;
pub mod text;
