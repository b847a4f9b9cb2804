//! Real-time DeFi risk detection over the typed contract events of executed
//! transactions: flash-loan arbitrage, price manipulation, sandwich attacks and
//! oracle manipulation, with the pipelines that run detectors and action handlers.

pub mod text;
pub mod risk;
pub mod codec;
pub mod events;
pub mod sandwich;
pub mod flash_loan;
pub mod oracle_manipulation;
pub mod price;
pub mod pipeline;
pub mod action;
pub mod models;
