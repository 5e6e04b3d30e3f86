//! The services of the backend: catalog and price ingestion, the USD/KRW
//! rate, the arbitrage calculator and the job schedule.

pub mod arbitrage_service;
pub mod catalog_rows;
pub mod exchange_rate_service;
pub mod exchange_service;
pub mod scheduler_service;
