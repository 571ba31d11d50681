//! The clock.

use vstd::prelude::*;

use crate::source::{taken, taken_from};

verus! {

/// A reading of the system clock.
#[verifier::external_type_specification]
#[verifier::external_body]
pub struct ExSystemTime(std::time::SystemTime);

/// A clock reading before the one it was measured from.
#[verifier::external_type_specification]
#[verifier::external_body]
pub struct ExSystemTimeError(std::time::SystemTimeError);

/// `SystemTime::now`: a reading of the system clock. Nothing holds of every
/// reading.
pub assume_specification[ std::time::SystemTime::now ]() -> std::time::SystemTime;

/// `SystemTime::duration_since`, from `UNIX_EPOCH`: how long after the epoch a
/// reading was taken, or an error where it was taken before. Which of the two,
/// and how long, is left unsaid: it rests on the clock.
#[verifier::external_body]
pub(crate) fn since_epoch(reading: std::time::SystemTime) -> (r: Result<
    std::time::Duration,
    std::time::SystemTimeError,
>) {
    reading.duration_since(std::time::UNIX_EPOCH)
}

/// `Duration::as_millis`: the whole milliseconds of a duration, which holds its
/// seconds in a `u64`. Which number it is of which duration is left unsaid: it
/// rests on the clock that was read.
pub assume_specification[ std::time::Duration::as_millis ](
    elapsed: &std::time::Duration,
) -> (r: u128)
    ensures
        r <= max_duration_millis(),
;

/// The most milliseconds that a duration holds: its seconds are a `u64`.
pub open spec fn max_duration_millis() -> int {
    u64::MAX * 1000 + 999
}

/// What a clock shows that has `elapsed` milliseconds behind it since the epoch,
/// or that is set before the epoch (`None`): the low 64 bits as a signed number,
/// and 0 before the epoch.
pub open spec fn clock_shows(elapsed: Option<u128>) -> i64 {
    match elapsed {
        Some(millis) => millis as i64,
        None => 0,
    }
}

/// Epoch milliseconds of a clock that has `elapsed` milliseconds behind it since
/// the epoch, or `None` where it is set before the epoch.
pub fn epoch_millis(elapsed: Option<u128>) -> (r: i64)
    ensures
        r == clock_shows(elapsed),
        elapsed matches Some(millis) ==> millis <= i64::MAX ==> r == millis,
{
    match elapsed {
        Some(millis) => #[verifier::truncate] (millis as i64),
        None => 0,
    }
}

/// `t` is a time that the system clock gave: a reading of it was taken, and `t`
/// are the milliseconds that had gone by since the epoch.
pub closed spec fn is_reading(t: int) -> bool {
    exists|reading: std::time::SystemTime, since: Result<
        std::time::Duration,
        std::time::SystemTimeError,
    >, elapsed: Option<u128>| #[trigger] read_at(reading, since, elapsed) && t == clock_shows(elapsed)
}

spec fn read_at(
    reading: std::time::SystemTime,
    since: Result<std::time::Duration, std::time::SystemTimeError>,
    elapsed: Option<u128>,
) -> bool {
    &&& call_ensures(std::time::SystemTime::now, (), reading)
    &&& call_ensures(since_epoch, (reading,), since)
    &&& match (since, elapsed) {
        (Ok(d), Some(millis)) => call_ensures(std::time::Duration::as_millis, (&d,), millis),
        (Err(_), None) => true,
        _ => false,
    }
}

/// A time comes from the clock: `SystemTime::now` gave a reading, what had gone by
/// since the epoch was taken from that reading, and the time is its milliseconds,
/// as far as they fit; a clock set before the epoch gives 0.
pub(crate) proof fn law_times_come_from_the_clock(t: int)
    requires
        is_reading(t),
    ensures
        exists|
            reading: std::time::SystemTime,
            since: Result<std::time::Duration, std::time::SystemTimeError>,
        |
            {
                &&& #[trigger] call_ensures(std::time::SystemTime::now, (), reading)
                &&& #[trigger] call_ensures(since_epoch, (reading,), since)
                &&& match since {
                    Ok(d) => exists|millis: u128|
                        {
                            &&& #[trigger] call_ensures(
                                std::time::Duration::as_millis,
                                (&d,),
                                millis,
                            )
                            &&& millis <= i64::MAX ==> t == millis
                            &&& t == millis as i64
                        },
                    Err(_) => t == 0,
                }
            },
{
    let (reading, since, elapsed) = choose|
        reading: std::time::SystemTime,
        since: Result<std::time::Duration, std::time::SystemTimeError>,
        elapsed: Option<u128>,
    | #[trigger] read_at(reading, since, elapsed) && t == clock_shows(elapsed);
    assert(call_ensures(std::time::SystemTime::now, (), reading));
    assert(call_ensures(since_epoch, (reading,), since));
    if let Some(millis) = elapsed {
        assert(call_ensures(std::time::Duration::as_millis, (&since->Ok_0,), millis));
    }
}

/// Wall-clock epoch milliseconds. Single source of time for the whole store.
pub fn now_millis() -> (r: i64)
    ensures
        is_reading(r as int),
        exists|elapsed: Option<u128>|
            r == #[trigger] clock_shows(elapsed) && (elapsed matches Some(millis)
                ==> millis <= max_duration_millis()),
{
    let reading: std::time::SystemTime = taken(std::time::SystemTime::now);
    let since: Result<std::time::Duration, std::time::SystemTimeError> = taken_from(
        since_epoch,
        reading,
    );
    let elapsed: Option<u128> = match &since {
        Ok(d) => Some(taken_from(std::time::Duration::as_millis, d)),
        Err(_) => None,
    };
    proof {
        assert(read_at(reading, since, elapsed));
    }
    epoch_millis(elapsed)
}

} // verus!
