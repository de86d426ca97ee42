use vstd::prelude::*;

use crate::board::Board;
use crate::board::is_square;
use crate::board::rows_view;
use crate::board::spec_normalize;
use crate::config::BATCH_DELAY_MINUTES;
use crate::config::MAX_RETRIES;
use crate::config::RETRY_DELAY_SECS;

verus! {

// The board-fetch policy and the control loop's timing decisions. The
// network work itself stays with the caller; these functions decide what
// each fetch event means and when the next cycle is due.

/// What one board-fetch attempt came to, before its body is read.
#[derive(Debug, Clone, Copy, PartialEq, Eq, Structural)]
pub enum FetchEvent {
    /// The connection itself failed.
    ConnectionFailed,
    /// The server answered with this status.
    Status(u16),
}

/// What the fetcher should do next.
#[derive(Debug, Clone, Copy, PartialEq, Eq, Structural)]
pub enum FetchDecision {
    /// A successful answer: read and use the body.
    Proceed,
    /// A transient failure: wait this many seconds and try again.
    RetryAfter(u64),
    /// Give up; the run cannot continue without a board.
    Fatal,
}

/// The fetch policy's one decision: a connection failure or the
/// distinguished upstream-unavailable status is retried with the fixed
/// backoff until the retry bound is spent; any other non-success is fatal
/// at once; a success proceeds.
pub open spec fn spec_fetch_decision(ev: FetchEvent, retries: u32) -> FetchDecision {
    match ev {
        FetchEvent::ConnectionFailed => if retries < MAX_RETRIES {
            FetchDecision::RetryAfter(RETRY_DELAY_SECS)
        } else {
            FetchDecision::Fatal
        },
        FetchEvent::Status(st) => if st == 502 {
            if retries < MAX_RETRIES {
                FetchDecision::RetryAfter(RETRY_DELAY_SECS)
            } else {
                FetchDecision::Fatal
            }
        } else if 200 <= st < 300 {
            FetchDecision::Proceed
        } else {
            FetchDecision::Fatal
        },
    }
}

/// The connection-level retry counter for one board fetch.
#[derive(Debug, Clone, Copy)]
pub struct FetchPolicy {
    pub retries: u32,
}

impl FetchPolicy {
    /// A fresh fetch with no retries spent.
    pub fn start() -> (r: FetchPolicy)
        ensures
            r.retries == 0,
    {
        FetchPolicy { retries: 0 }
    }

    /// Decides what one fetch event means, spending one retry exactly when
    /// the decision is to try again.
    pub fn on_event(&mut self, ev: &FetchEvent) -> (d: FetchDecision)
        requires
            old(self).retries <= MAX_RETRIES,
        ensures
            d == spec_fetch_decision(*ev, old(self).retries),
            final(self).retries == (if d is RetryAfter {
                old(self).retries + 1
            } else {
                old(self).retries as int
            }),
            final(self).retries <= MAX_RETRIES,
    {
        let transient = match ev {
            FetchEvent::ConnectionFailed => true,
            FetchEvent::Status(st) => *st == 502,
        };
        if transient {
            if self.retries < MAX_RETRIES {
                self.retries = self.retries + 1;
                return FetchDecision::RetryAfter(RETRY_DELAY_SECS);
            }
            return FetchDecision::Fatal;
        }
        match ev {
            FetchEvent::ConnectionFailed => FetchDecision::Fatal,
            FetchEvent::Status(st) => {
                if 200 <= *st && *st < 300 {
                    FetchDecision::Proceed
                } else {
                    FetchDecision::Fatal
                }
            },
        }
    }
}

/// Builds the canonical board from the raw server rows: the rows must form
/// a square matrix, which is then rotated a quarter turn clockwise and
/// mirrored horizontally into the canonical frame.
pub fn canonical_board(rows: Vec<Vec<u8>>) -> (r: Option<Board>)
    ensures
        match r {
            Some(b) => {
                &&& b@ == spec_normalize(rows_view(rows@))
                &&& b.wf()
                &&& b.spec_side() == rows@.len()
            },
            None => !is_square(rows_view(rows@)),
        },
{
    match Board::from_rows(rows) {
        Some(raw) => Some(raw.normalize_orientation()),
        None => None,
    }
}

/// Whether a cycle is due.
pub fn cycle_due(now_ms: i64, next_due_ms: i64) -> (r: bool)
    ensures
        r == (now_ms >= next_due_ms),
{
    now_ms >= next_due_ms
}

/// When the next cycle is due: the batch's tightest cooldown past now, or
/// the fixed batch delay when the batch saw none; saturated at the far end
/// of the clock.
pub open spec fn spec_next_due(now_ms: i64, min_cooldown: Option<u64>) -> i64 {
    let wait_ms: int = match min_cooldown {
        Some(s) => s * 1000,
        None => BATCH_DELAY_MINUTES * 60 * 1000,
    };
    if now_ms + wait_ms > i64::MAX {
        i64::MAX
    } else {
        (now_ms + wait_ms) as i64
    }
}

/// Computes when the next cycle is due.
pub fn next_due(now_ms: i64, min_cooldown: Option<u64>) -> (r: i64)
    ensures
        r == spec_next_due(now_ms, min_cooldown),
{
    let wait_ms: u128 = match min_cooldown {
        Some(s) => s as u128 * 1000,
        None => BATCH_DELAY_MINUTES as u128 * 60 * 1000,
    };
    let total: i128 = now_ms as i128 + wait_ms as i128;
    if total > i64::MAX as i128 {
        i64::MAX
    } else {
        total as i64
    }
}

} // verus!
