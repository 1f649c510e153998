//! Idempotent newsletter publishing and a crash-safe delivery queue.
pub mod domain;
pub mod idempotency;
pub mod store;
pub mod worker;
pub mod newsletter;
pub mod laws;
pub mod errors;
pub mod telemetry;
pub mod configuration;
pub mod subscriptions;
pub mod authentication;
