//! A verified core for a local limit order book replica.
//!
//! The crate keeps a per-symbol order book in sync with an exchange by
//! combining a point-in-time snapshot with a stream of incremental depth
//! updates. Prices and quantities are fixed-point integers with eight
//! decimal places, so every merge, sort and sequence check is exact and
//! machine-checked. Network transport and task plumbing live outside the
//! crate; the algorithms, the state machine and the store live here.

pub mod book;
pub mod clock;
pub mod client;
pub mod errors;
pub mod fixed;
pub mod laws;
pub mod reconcile;
pub mod snapshot;
pub mod wire;
