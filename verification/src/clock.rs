//! The wall clock, in whole seconds since the Unix epoch.
use crate::numbers::{signed_of, to_signed};
use std::time::{Duration, SystemTime, SystemTimeError};
use vstd::prelude::*;

verus! {

/// A reading of the system clock (`std::time::SystemTime`).
#[verifier::external_type_specification]
#[verifier::external_body]
pub struct ExSystemTime(SystemTime);

/// What `std::time::SystemTime::duration_since` gives back when the clock stands before
/// the moment it is measured from.
#[verifier::external_type_specification]
#[verifier::external_body]
pub struct ExSystemTimeError(SystemTimeError);

/// The time from the Unix epoch to a clock reading; `None` for a reading before the epoch.
pub uninterp spec fn time_since_epoch(reading: SystemTime) -> Option<Duration>;

/// The whole seconds that a duration holds.
pub uninterp spec fn whole_seconds(span: Duration) -> u64;

/// `std::time::SystemTime::now`: some reading of the system clock. Which one is not said.
pub assume_specification[ SystemTime::now ]() -> SystemTime;

/// `std::time::Duration::as_secs`: the whole seconds in the duration.
pub assume_specification[ Duration::as_secs ](span: &Duration) -> (secs: u64)
    ensures
        secs == whole_seconds(*span),
;

/// `std::time::SystemTime::duration_since`, measured from `UNIX_EPOCH`: the time between
/// the two, or an error for a reading before the epoch.
#[verifier::external_body]
fn duration_since_epoch(reading: &SystemTime) -> (span: Result<Duration, SystemTimeError>)
    ensures
        match span {
            Ok(d) => time_since_epoch(*reading) == Some(d),
            Err(_) => time_since_epoch(*reading) is None,
        },
{
    reading.duration_since(std::time::UNIX_EPOCH)
}

/// The system clock can show this reading: it is one that `std::time::SystemTime::now`
/// gives back.
pub open spec fn clock_shows(reading: SystemTime) -> bool {
    call_ensures(SystemTime::now, (), reading)
}

/// The system clock can show this second of the Unix epoch.
pub open spec fn clock_shows_second(now: u64) -> bool {
    exists|reading: SystemTime| #[trigger]
        clock_shows(reading) && time_since_epoch(reading) is Some && whole_seconds(
            time_since_epoch(reading)->0,
        ) == now
}

/// The system clock stands before the Unix epoch.
#[derive(Debug, Clone, Copy, PartialEq, Eq, Structural)]
pub struct ClockBeforeEpoch;

/// The whole seconds from the Unix epoch to a clock reading, or an error exactly when the
/// reading lies before the epoch.
pub fn timestamp_of(reading: &SystemTime) -> (timestamp: Result<i64, ClockBeforeEpoch>)
    ensures
        match timestamp {
            Ok(secs) => {
                &&& time_since_epoch(*reading) is Some
                &&& secs == signed_of(whole_seconds(time_since_epoch(*reading)->0))
            },
            Err(_) => time_since_epoch(*reading) is None,
        },
{
    match duration_since_epoch(reading) {
        Ok(span) => Ok(to_signed(span.as_secs())),
        Err(_) => Err(ClockBeforeEpoch),
    }
}

/// The current time in whole seconds since the Unix epoch.
///
/// The answer is the timestamp of a reading that the system clock shows, and an error exactly
/// when that reading lies before the epoch.
pub fn current_timestamp_sec() -> (now: Result<i64, ClockBeforeEpoch>)
    ensures
        exists|reading: SystemTime|
            {
                &&& #[trigger] clock_shows(reading)
                &&& match now {
                    Ok(timestamp) => {
                        &&& time_since_epoch(reading) is Some
                        &&& timestamp == signed_of(whole_seconds(time_since_epoch(reading)->0))
                    },
                    Err(_) => time_since_epoch(reading) is None,
                }
            },
{
    let reading = SystemTime::now();
    let now = timestamp_of(&reading);
    assert(clock_shows(reading));
    now
}

/// A second that the clock shows is that of a reading which `std::time::SystemTime::now` gives
/// back, and every such reading from the epoch on shows a second.
pub proof fn law_shown_seconds_come_from_readings(now: u64, reading: SystemTime)
    ensures
        clock_shows_second(now) ==> exists|shown: SystemTime|
            #![trigger call_ensures(SystemTime::now, (), shown)]
            call_ensures(SystemTime::now, (), shown) && time_since_epoch(shown) is Some
                && whole_seconds(time_since_epoch(shown)->0) == now,
        call_ensures(SystemTime::now, (), reading) && time_since_epoch(reading) is Some
            ==> clock_shows_second(whole_seconds(time_since_epoch(reading)->0)),
{
    if clock_shows_second(now) {
        let shown = choose|shown: SystemTime| #[trigger]
            clock_shows(shown) && time_since_epoch(shown) is Some && whole_seconds(
                time_since_epoch(shown)->0,
            ) == now;
        assert(call_ensures(SystemTime::now, (), shown));
    }
    if call_ensures(SystemTime::now, (), reading) {
        assert(clock_shows(reading));
    }
}

} // verus!
