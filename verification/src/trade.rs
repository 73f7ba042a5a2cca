//! The single-market matching engine: order model, order book, matching and bank.

pub mod model;
pub mod orderbook;
pub mod engine;
pub mod laws;
pub mod bank;
pub mod depth;
