//! Expected arrivals of buses: the line, the time at which the bus is expected, and how
//! many minutes that is away.

use vstd::prelude::*;
use crate::arith::quotient_towards_zero;

verus! {

/// Largest magnitude of the seconds of a time that the library works with.
pub const MAX_SECS: i64 = 1_000_000_000_000;

/// A point in time: seconds since the start of 1970 in UTC, not counting leap seconds, and
/// the nanoseconds since the last whole second. During a leap second the seconds stay on
/// the 59th second of the minute and the nanoseconds run from 1,000,000,000 on.
#[derive(Clone, Copy, Debug, PartialEq, Eq, Structural)]
pub struct Timestamp {
    pub secs: i64,
    pub nanos: u32,
}

impl Timestamp {
    /// The time is one that a calendar date and time of day can stand for, within about
    /// thirty thousand years of 1970.
    pub open spec fn wf(self) -> bool {
        &&& -MAX_SECS <= self.secs <= MAX_SECS
        &&& self.nanos < 2_000_000_000
        &&& (self.nanos >= 1_000_000_000 ==> self.secs % 60 == 59)
    }

    /// Whether the time is well formed.
    pub fn is_wf(self) -> (ok: bool)
        ensures
            ok == self.wf(),
    {
        if self.secs < -MAX_SECS || self.secs > MAX_SECS || self.nanos >= 2_000_000_000 {
            return false;
        }
        if self.nanos < 1_000_000_000 {
            return true;
        }
        // 1_000_000_000_020 is a multiple of 60 that lifts every well-formed time above 0
        let lifted: i64 = self.secs + 1_000_000_000_020;
        lifted % 60 == 59
    }
}

/// chrono's reason for refusing a text as a time.
#[verifier::external_type_specification]
#[verifier::external_body]
pub struct ExParseError(chrono::ParseError);

/// The time that a text in the format of RFC 3339 stands for, if it stands for one.
pub uninterp spec fn rfc3339_instant(text: Seq<char>) -> Option<Timestamp>;

/// Whole minutes from `earlier` to `later`, negative if `later` comes first.
pub uninterp spec fn minutes_between(later: Timestamp, earlier: Timestamp) -> int;

/// Whole minutes from `earlier` to `later` where neither time lies in a leap second: the
/// difference in whole seconds, and of that the whole minutes, both rounded towards zero.
pub open spec fn plain_minutes(later: Timestamp, earlier: Timestamp) -> int {
    quotient_towards_zero(
        quotient_towards_zero(
            (later.secs - earlier.secs) * 1_000_000_000 + (later.nanos - earlier.nanos),
            1_000_000_000,
        ),
        60,
    )
}

/// `chrono::DateTime::parse_from_rfc3339`, with the time it finds given as seconds and
/// nanoseconds (`timestamp`, `timestamp_subsec_nanos`). The result depends on the text
/// alone. A time that was parsed is well formed: the format has four digits for the year,
/// and a second numbered 60 is kept as a leap second on second 59.
#[verifier::external_body]
pub(crate) fn parse_rfc3339(text: &str) -> (result: Result<Timestamp, chrono::ParseError>)
    ensures
        result is Ok <==> rfc3339_instant(text@) is Some,
        result matches Ok(t) ==> rfc3339_instant(text@) == Some(t) && t.wf(),
{
    match chrono::DateTime::parse_from_rfc3339(text) {
        Ok(t) => Ok(Timestamp { secs: t.timestamp(), nanos: t.timestamp_subsec_nanos() }),
        Err(e) => Err(e),
    }
}

/// `chrono::Local::now`, given as seconds and nanoseconds. Nothing is claimed of the time
/// that comes back. chrono stops the program if the system clock stands before 1970.
#[verifier::external_body]
pub(crate) fn clock_now() -> (now: Timestamp) {
    let t = chrono::Local::now();
    Timestamp { secs: t.timestamp(), nanos: t.timestamp_subsec_nanos() }
}

/// The difference of two `chrono::DateTime` in whole minutes (`-` and
/// `TimeDelta::num_minutes`), the two times made by `DateTime::from_timestamp`. The result
/// depends on the two times alone. Outside of leap seconds chrono takes the exact
/// difference, drops the fraction of a second towards zero, and divides by 60 towards zero.
#[verifier::external_body]
pub(crate) fn whole_minutes(later: Timestamp, earlier: Timestamp) -> (minutes: i64)
    requires
        later.wf(),
        earlier.wf(),
    ensures
        minutes == minutes_between(later, earlier),
        later.nanos < 1_000_000_000 && earlier.nanos < 1_000_000_000 ==> minutes == plain_minutes(
            later,
            earlier,
        ),
{
    let a = chrono::DateTime::from_timestamp(later.secs, later.nanos).unwrap();
    let b = chrono::DateTime::from_timestamp(earlier.secs, earlier.nanos).unwrap();
    (a - b).num_minutes()
}

/// What can go wrong between the feed's answer and the list of arrivals.
#[derive(Clone, Copy, Debug, PartialEq, Eq, Structural)]
pub enum FeedError {
    /// The answer is not well-formed XML.
    Xml,
    /// A departure time is not in the format of RFC 3339.
    Time,
    /// A visit lacks its line, or both of its departure times.
    DidNotParse,
    /// The setting that says how many minutes away a bus must be is missing.
    Setting,
    /// The setting that says how many minutes away a bus must be is not a number.
    Threshold,
    /// The minutes until an arrival do not fit: the bus was expected before now, or the
    /// time is too far away.
    MinutesOutOfRange,
    /// The clock gave a time that the library does not work with.
    Clock,
}

/// A bus that is expected at a stop.
#[derive(Clone, Debug, PartialEq)]
pub struct ExpectedBusArrival {
    pub line: String,
    pub expected_time: Timestamp,
}

/// The minutes as the number that is shown, or the reason why they cannot be shown.
pub open spec fn shown_minutes(minutes: int) -> Result<u32, FeedError> {
    if 0 <= minutes <= u32::MAX {
        Ok(minutes as u32)
    } else {
        Err(FeedError::MinutesOutOfRange)
    }
}

impl ExpectedBusArrival {
    /// The arrival's time is one that the library works with.
    pub open spec fn wf(&self) -> bool {
        self.expected_time.wf()
    }

    /// The arrival that a visit's fields make: the line, and the expected departure time,
    /// or the aimed one where no expected one is given. A visit without a line or without
    /// any time does not make an arrival.
    pub fn from_fields(
        line: Option<String>,
        expected: Option<Timestamp>,
        aimed: Option<Timestamp>,
    ) -> (result: Result<ExpectedBusArrival, FeedError>)
        ensures
            result is Ok <==> line is Some && (expected is Some || aimed is Some),
            result matches Ok(arrival) ==> arrival.line == line->0 && arrival.expected_time == (
            if expected is Some {
                expected->0
            } else {
                aimed->0
            }),
            result matches Err(e) ==> e == FeedError::DidNotParse,
    {
        let time = match expected {
            Some(t) => Some(t),
            None => aimed,
        };
        match (line, time) {
            (Some(line), Some(expected_time)) => Ok(ExpectedBusArrival { line, expected_time }),
            _ => Err(FeedError::DidNotParse),
        }
    }

    /// An arrival equal to this one.
    pub fn duplicate(&self) -> (copy: ExpectedBusArrival)
        ensures
            copy == *self,
    {
        ExpectedBusArrival { line: self.line.clone(), expected_time: self.expected_time }
    }

    /// Whole minutes from `now` until the bus is expected. A bus that was expected before
    /// `now`, by a minute or more, has no such number.
    pub fn minutes_from(&self, now: Timestamp) -> (result: Result<u32, FeedError>)
        requires
            self.wf(),
            now.wf(),
        ensures
            result == shown_minutes(minutes_between(self.expected_time, now)),
            self.expected_time.nanos < 1_000_000_000 && now.nanos < 1_000_000_000 ==> result
                == shown_minutes(plain_minutes(self.expected_time, now)),
    {
        let minutes: i64 = whole_minutes(self.expected_time, now);
        if 0 <= minutes && minutes <= u32::MAX as i64 {
            Ok(minutes as u32)
        } else {
            Err(FeedError::MinutesOutOfRange)
        }
    }

    /// Whole minutes from now until the bus is expected, by the system clock.
    pub fn minutes_from_now(&self) -> (result: Result<u32, FeedError>)
        requires
            self.wf(),
        ensures
            result == Err::<u32, FeedError>(FeedError::Clock) || exists|now: Timestamp|
                now.wf() && result == shown_minutes(
                    #[trigger] minutes_between(self.expected_time, now),
                ),
    {
        let now = clock_now();
        if !now.is_wf() {
            return Err(FeedError::Clock);
        }
        self.minutes_from(now)
    }
}

} // verus!
