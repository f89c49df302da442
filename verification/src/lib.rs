//! Peg maintenance for a two-party stable payment channel.
//!
//! One party (the stable receiver) wants the USD value of its channel
//! balance pinned to a fixed target; the counterparty (the stable
//! provider) absorbs the exchange-rate risk. This crate holds the
//! decision logic of the periodic reconciliation cycle: exact monetary
//! conversions, median aggregation of oracle price samples, and the
//! classification of the deviation from the peg into a corrective
//! action. Network, node and user-interface plumbing live outside and
//! hand in plain values.

pub mod config;
pub mod money;
pub mod price_feeds;
pub mod stable;
