//! Coordination core of a rollup prover: a registry that leases unproven
//! blocks to workers, the decision logic of a proving worker, and a notifier
//! that turns block events into one-shot subscription deliveries.

pub mod types;
pub mod registry;
pub mod worker;
pub mod notifier;
pub mod cache;
pub mod config;
pub mod price_source;
