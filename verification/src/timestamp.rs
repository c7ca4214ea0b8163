//! Wall-clock seconds for save-data timestamps.

use vstd::prelude::*;

use std::time::SystemTime;

verus! {

#[verifier::external_type_specification]
#[verifier::external_body]
pub struct ExSystemTime(SystemTime);

/// The current wall-clock time (`SystemTime::now`). Nothing is stated of
/// it: it depends on the machine's clock.
#[verifier::external_body]
fn system_now() -> SystemTime {
    SystemTime::now()
}

/// Whole seconds from the Unix epoch to `t` (`SystemTime::duration_since`
/// with `UNIX_EPOCH`), `None` when `t` is earlier. Nothing more is stated:
/// the value depends on the clock reading passed in.
#[verifier::external_body]
fn seconds_since_epoch(t: &SystemTime) -> Option<u64> {
    match t.duration_since(std::time::UNIX_EPOCH) {
        Ok(d) => Some(d.as_secs()),
        Err(_) => None,
    }
}

/// A save timestamp from a count of seconds since the Unix epoch: the count
/// itself, or 0 when there is none (the clock reads before the epoch) or it
/// does not fit in an `i64`.
pub fn timestamp_from_seconds(seconds: Option<u64>) -> (res: i64)
    ensures
        res == match seconds {
            Some(secs) => if secs <= i64::MAX {
                secs as int
            } else {
                0
            },
            None => 0,
        },
{
    match seconds {
        Some(secs) => {
            if secs <= i64::MAX as u64 {
                secs as i64
            } else {
                0
            }
        },
        None => 0,
    }
}

/// Seconds since the Unix epoch by the machine's clock, 0 when the clock
/// reads earlier or the count does not fit. The reading itself depends on
/// the clock, so only that it is not negative is stated.
pub fn current_unix_timestamp() -> (res: i64)
    ensures
        res >= 0,
{
    let now = system_now();
    timestamp_from_seconds(seconds_since_epoch(&now))
}

} // verus!
