//! MDSORTO: a standup-meeting helper that shuffles the speaking order and
//! gives every speaker a fixed amount of time.
//!
//! All durations in this library are whole nanoseconds, the resolution of the clock.

use vstd::prelude::*;

pub mod app;
pub mod decimal;
pub mod display;
pub mod laws;
pub mod names;
pub mod setup;
pub mod shuffle;
pub mod terminal;
pub mod time_config;

verus! {

/// Update tick interval, in milliseconds.
pub const TICK_INTERVAL_MS: u64 = 60;

} // verus!
