//! Timing and threshold defaults of the ducking loop.
use vstd::prelude::*;

verus! {

/// Length of one classification tick, in milliseconds.
pub const TICK_MS: u32 = 200;

/// Length of the window over which tick results are resolved, in
/// milliseconds.
pub const PERIOD_MS: u32 = 1000;

/// Time (ms) after which a lower priority starts to recover its volume.
pub const RECOVERY_MS: u128 = 1000;

/// Minimal peak level (0–100) for an application to count as playing.
pub const ACTIVE_PEAK_THRESHOLD: i32 = 3;

/// Silence (ms) after which an application leaves the list.
pub const INACTIVITY_TIMEOUT_MS: u32 = 3000;

} // verus!
