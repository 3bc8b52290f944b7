//! A reward-accrual and distribution engine for stake-weighted fungible-token
//! rewards.
//!
//! The engine continuously accrues rewards to participants in proportion to
//! their voting power, under pausable, immediate or linear emission schedules.
//! It supports funding top-ups, mid-stream rate changes, claims, and exact
//! clawback of unearned future emissions, using only fixed-point integer
//! arithmetic over a wide (256-bit) accumulator so that per-unit-power
//! division never silently rounds meaningful rewards down to zero.

pub mod asset;
pub mod distribution;
pub mod emission;
pub mod engine;
pub mod epoch;
pub mod error;
pub mod laws;
pub mod massdist;
pub mod msg;
pub mod num;
pub mod ownership;
pub mod time;
pub mod user;

use vstd::prelude::*;

verus! {

/// The largest page a listing query may return.
pub const MAX_LIMIT: u32 = 50;

/// The page size a listing query uses when the caller gives none.
pub const DEFAULT_LIMIT: u32 = 10;

} // verus!
