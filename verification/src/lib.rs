//! Verified core of a payout-distribution subsystem: fixed-point money
//! arithmetic, gateway response classification, credential and catalog
//! caches with expiry, a per-user lock registry, and the daily
//! distribution computation.

pub mod catalog;
pub mod credential;
pub mod distribution;
pub mod gateway;
pub mod money;
pub mod queue;
pub mod ranking;
pub mod registry;
pub mod types;
