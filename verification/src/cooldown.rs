use vstd::prelude::*;

use crate::config::BATCH_DELAY_MINUTES;
use crate::json::views_of;

verus! {

// The cooldown calculator: turns the server's availability timestamps into
// a concrete wait, measured from a caller-supplied notion of "now" in
// milliseconds since the Unix epoch.

/// The instant a byte string denotes, in milliseconds since the Unix epoch,
/// when it is a valid RFC 3339 timestamp.
pub uninterp spec fn rfc3339_millis_of(b: Seq<u8>) -> Option<i64>;

/// Relies on chrono::DateTime::parse_from_rfc3339 and timestamp_millis:
/// whether bytes spell a valid RFC 3339 timestamp, and which instant they
/// denote, depend on the bytes alone.
#[verifier::external_body]
fn parse_rfc3339_millis(b: &Vec<u8>) -> (r: Option<i64>)
    ensures
        r == rfc3339_millis_of(b@),
{
    match core::str::from_utf8(b) {
        Ok(t) => match chrono::DateTime::parse_from_rfc3339(t) {
            Ok(d) => Some(d.timestamp_millis()),
            Err(_) => None,
        },
        Err(_) => None,
    }
}

/// The earliest parsed timestamp strictly ahead of `now_ms`, over the given
/// timer strings; unparseable entries are ignored.
pub open spec fn spec_earliest_future(timers: Seq<Seq<u8>>, now_ms: i64) -> Option<i64>
    decreases timers.len(),
{
    if timers.len() == 0 {
        None
    } else {
        let rest = spec_earliest_future(timers.drop_last(), now_ms);
        match rfc3339_millis_of(timers.last()) {
            Some(t) => if t > now_ms {
                match rest {
                    Some(e) => if t < e {
                        Some(t)
                    } else {
                        Some(e)
                    },
                    None => Some(t),
                }
            } else {
                rest
            },
            None => rest,
        }
    }
}

/// The wait before the next placement attempt, in seconds: one second past
/// the earliest future timestamp, or the fixed batch delay when no timer
/// points ahead of now.
pub open spec fn spec_wait_secs(timers: Seq<Seq<u8>>, now_ms: i64) -> u64 {
    match spec_earliest_future(timers, now_ms) {
        Some(e) => ((e - now_ms) / 1000 + 1) as u64,
        None => (BATCH_DELAY_MINUTES * 60) as u64,
    }
}

/// Computes the wait demanded by the server's timer strings, measured from
/// `now_ms`: one second past the earliest future timestamp, or the fixed
/// batch delay when none exists. Never shorter than one second.
pub fn calculate_wait_interval(timers: &Vec<Vec<u8>>, now_ms: i64) -> (r: u64)
    ensures
        r == spec_wait_secs(views_of(timers@), now_ms),
        r >= 1,
{
    let ghost tv = views_of(timers@);
    let mut earliest: Option<i64> = None;
    let mut i: usize = 0;
    while i < timers.len()
        invariant
            i <= timers@.len(),
            tv == views_of(timers@),
            earliest == spec_earliest_future(tv.take(i as int), now_ms),
            match earliest {
                Some(e) => e > now_ms,
                None => true,
            },
        decreases timers@.len() - i,
    {
        let parsed = parse_rfc3339_millis(&timers[i]);
        proof {
            assert(tv.take(i + 1).drop_last() =~= tv.take(i as int));
            assert(tv.take(i + 1).last() == tv[i as int]);
            assert(tv[i as int] == timers@[i as int]@);
        }
        match parsed {
            Some(t) => {
                if t > now_ms {
                    match earliest {
                        Some(e) => {
                            if t < e {
                                earliest = Some(t);
                            }
                        },
                        None => {
                            earliest = Some(t);
                        },
                    }
                }
            },
            None => {},
        }
        i += 1;
    }
    proof {
        assert(tv.take(timers@.len() as int) =~= tv);
    }
    match earliest {
        Some(e) => {
            let diff: i128 = e as i128 - now_ms as i128;
            let secs: i128 = diff / 1000 + 1;
            proof {
                assert(secs >= 1);
                assert(secs <= u64::MAX as i128);
            }
            secs as u64
        },
        None => BATCH_DELAY_MINUTES * 60,
    }
}

} // verus!
