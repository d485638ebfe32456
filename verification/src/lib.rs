//! Verified core of a funding-rate arbitrage execution engine.
//!
//! The library holds the logic of a small request/response server: decoding
//! an arbitrage request from its wire bytes, resolving the two named
//! exchanges against a configured registry, applying the rate-difference
//! decision rule, and encoding the outcome. Rates, amounts and profits are
//! fixed-point values scaled by `10^8` so that every computation is exact.
//! The transport (TCP, task spawning, timing delays) lives outside the
//! library and hands it plain byte messages.

use vstd::prelude::*;

pub mod clock;
pub mod codec;
pub mod engine;
pub mod handler;
pub mod messages;
pub mod rng;

verus! {

/// Scale of all fixed-point quantities: one unit is `10^-8`.
pub const FIXED_POINT_SCALE: u64 = 100_000_000;

} // verus!
