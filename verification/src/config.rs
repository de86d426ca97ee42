use vstd::prelude::*;

verus! {

/// Side length of the square canvas, in pixels.
pub const BOARD_SIZE: usize = 250;

/// Shared pixel budget for one reconcile-and-place cycle.
pub const MAX_PIXELS_PER_BATCH: usize = 10;

/// Fallback wait between cycles when no cooldown signal was observed, in minutes.
pub const BATCH_DELAY_MINUTES: u64 = 31;

/// Bound on connection-level retries of the board fetch.
pub const MAX_RETRIES: u32 = 10;

/// Fixed backoff between board-fetch retries, in seconds.
pub const RETRY_DELAY_SECS: u64 = 120;

/// Fixed backoff between placement retries on one cell, in milliseconds.
pub const PLACEMENT_RETRY_MILLIS: u64 = 500;

/// Bound on placement retries for one cell in one cycle.
pub const MAX_PLACEMENT_RETRIES: u32 = 3;

} // verus!
