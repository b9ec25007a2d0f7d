//! A population dataset with deterministic cohort generation and exact
//! integer statistics over it.
//!
//! The dataset only grows, by whole cohorts; every statistic is computed in
//! integers from all the observations stored, so that the same dataset gives
//! the same report wherever it is computed.

pub mod cohort;
pub mod contract;
pub mod laws;
pub mod models;
pub mod record;
pub mod report;
pub mod stats;
pub mod text;

pub use contract::{Contract, ContractInterface};
pub use record::Dataform;
