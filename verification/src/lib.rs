//! Verified core of a cryptocurrency price-ingestion and arbitrage backend.
//!
//! The crate holds the decision logic of the backend: decimal arithmetic over
//! `bigdecimal`, the relational store, the per-venue adapters, catalog
//! synchronisation, price ingestion, the USD/KRW rate chain, the directional
//! arbitrage calculator and the job schedule. Every function carries a
//! contract that Verus proves. What is taken on trust is the behaviour of
//! `bigdecimal` and of three functions of the standard library; it is stated
//! in [`decimal`] and [`text`].

pub mod config;
pub mod decimal;
pub mod handlers;
pub mod models;
pub mod services;
pub mod store;
pub mod text;
pub mod utils;
