//! Helpers that every component uses.

pub mod error;
pub mod ranking;
