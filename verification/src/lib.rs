//! Analytical engine for decoded game-telemetry streams.
//!
//! The crate consumes a sequential stream of per-tick messages (player-state
//! updates, world-geometry updates, string-table entries and combat events)
//! and derives higher-level artifacts: a deduplicated player roster, per-tick
//! state snapshots, world-bounds changes, and correlated damage traces that
//! reconstruct the recent state history of an attacker and victim around each
//! qualifying damage event.

pub mod aggregator;
pub mod correlator;
pub mod delta;
pub mod errors;
pub mod model;
pub mod roster;
pub mod serialize;
pub mod tracer;
