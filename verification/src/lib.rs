//! Core of a limit-order-book exchange: price-time priority matching,
//! order-book indexes, balance keeping and the reports the engine emits.
//!
//! Prices, quantities and balances are fixed-point numbers: an integer count
//! of units of 10^-8 (see [`units`]).

pub mod units;
pub mod accounts;
pub mod text;
pub mod trade;
pub mod model;
pub mod orderbook;
pub mod ledger;
pub mod utils;
pub mod api;
pub mod engine;
pub mod persistence;
pub mod market_data;
