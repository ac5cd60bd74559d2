//! The wall clock.

use vstd::prelude::*;
use crate::models::Timestamp;

verus! {

/// The latest second the clock can read, plus one: `Utc::now` builds its value
/// with `DateTime::from_timestamp`, which refuses a number of days past the epoch
/// above `i32::MAX - 719_163`.
pub open spec fn clock_limit() -> int {
    185_480_451_504_000
}

/// The current time (`chrono::Utc::now`): seconds since the epoch and the
/// nanoseconds past that second. Claimed: the seconds are not negative and below
/// `clock_limit()`, and the nanoseconds under a second (`Utc::now` takes the time
/// since the epoch as a `Duration`, stopping the program when the system clock
/// reads before 1970, and unwraps `DateTime::from_timestamp`, which refuses times
/// past its range). Not claimed: which time.
#[verifier::external_body]
pub(crate) fn now() -> (t: Timestamp)
    ensures
        0 <= t.secs < clock_limit(),
        t.nanos < 1_000_000_000,
{
    let n = chrono::Utc::now();
    Timestamp { secs: n.timestamp(), nanos: n.timestamp_subsec_nanos() }
}

/// Seconds since the epoch as an unsigned count: clamped to 0 before the epoch
/// and to `usize::MAX` beyond it.
pub fn epoch_secs(t: Timestamp) -> (s: usize)
    ensures
        t.secs < 0 ==> s == 0,
        0 <= t.secs <= usize::MAX ==> s == t.secs,
        t.secs > usize::MAX ==> s == usize::MAX,
{
    if t.secs < 0 {
        0
    } else if (t.secs as u64) > (usize::MAX as u64) {
        usize::MAX
    } else {
        t.secs as usize
    }
}

} // verus!
