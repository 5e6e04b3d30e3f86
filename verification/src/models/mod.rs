//! The records that the backend stores and exchanges.

pub mod arbitrage;
pub mod coin;
pub mod exchange;
pub mod exchange_rate;
