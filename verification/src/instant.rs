//! Points in time, normalised to UTC, and their RFC 3339 text.

use chrono::{DateTime, Utc};
use vstd::prelude::*;

use crate::error::StoreError;

verus! {

/// The first second of the year 0000 in UTC, counted from the Unix epoch.
pub const MIN_SECONDS: i64 = -62_167_219_200;

/// The last second of the year 9999 in UTC, counted from the Unix epoch.
pub const MAX_SECONDS: i64 = 253_402_300_799;

/// Nanoseconds in one second.
pub const NANOS_PER_SECOND: u32 = 1_000_000_000;

/// Seconds in one week.
pub const SECONDS_PER_WEEK: i64 = 604_800;

/// Seconds from Monday 29 December 1969, 00:00, to the Unix epoch.
pub const EPOCH_INTO_WEEK: i64 = 259_200;

/// A number of weeks that lifts the week of every [`Instant`] above zero,
/// whatever the offset of the clock.
const LIFT_WEEKS: i128 = 15_250_284_456_023;

/// chrono's `ParseError`: why `DateTime::parse_from_rfc3339` rejected a text.
/// It is carried from the reader to its caller; nothing is claimed of what
/// it holds.
#[verifier::external_type_specification]
#[verifier::external_body]
pub struct ExParseError(chrono::ParseError);

/// What chrono's `DateTime::parse_from_rfc3339` reads from a text: `None` where
/// it rejects the text, else the instant as seconds since the Unix epoch in
/// UTC and nanoseconds into that second.
pub uninterp spec fn rfc3339_reading(text: Seq<char>) -> Option<(int, int)>;

/// The text that chrono's `DateTime::to_rfc3339` writes for the UTC instant
/// with these seconds since the Unix epoch and nanoseconds into the second.
pub uninterp spec fn rfc3339_text(secs: int, nanos: int) -> Seq<char>;

/// Whether a pair of seconds and nanoseconds is a point in time that can be
/// written as a text that reads back: a year of four digits in UTC, and
/// nanoseconds past the full second only within a leap second.
pub open spec fn writable_instant(secs: int, nanos: int) -> bool {
    &&& MIN_SECONDS <= secs <= MAX_SECONDS
    &&& 0 <= nanos < 2 * NANOS_PER_SECOND
    &&& nanos >= NANOS_PER_SECOND ==> (secs - MIN_SECONDS) % 60 == 59
}

/// The instant that a stored text stands for: whatever chrono reads from
/// it, and `None` exactly where chrono rejects the text.
pub open spec fn decode_instant(text: Seq<char>) -> Option<Instant> {
    match rfc3339_reading(text) {
        Some((secs, nanos)) => Some(Instant { secs: secs as i64, nanos: nanos as u32 }),
        None => None,
    }
}

/// The week in which a local time falls: full weeks from Monday 29 December
/// 1969 to `secs + offset`, rounded down. Two local times lie in the same
/// ISO week of the same ISO year exactly if this number is the same.
pub open spec fn week_number(secs: int, offset: int) -> int {
    (secs + offset + EPOCH_INTO_WEEK) / (SECONDS_PER_WEEK as int)
}

/// Calls chrono's `DateTime::parse_from_rfc3339`, moves the result to UTC with
/// `with_timezone` and hands out its `timestamp` and `timestamp_subsec_nanos`.
/// The contract claims nothing of the text or of the instant: it gives what
/// was read its name, [`rfc3339_reading`].
#[verifier::external_body]
fn read_rfc3339(text: &str) -> (result: Result<(i64, u32), chrono::ParseError>)
    ensures
        match result {
            Ok(at) => rfc3339_reading(text@) == Some((at.0 as int, at.1 as int)),
            Err(_) => rfc3339_reading(text@) is None,
        },
{
    let parsed = DateTime::parse_from_rfc3339(text)?;
    let utc = parsed.with_timezone(&Utc);
    Ok((utc.timestamp(), utc.timestamp_subsec_nanos()))
}

/// Calls chrono's `DateTime::from_timestamp` and, on what it gives,
/// `DateTime::to_rfc3339`. The contract claims three things of them.
/// A writable instant has a text: `from_timestamp` gives a date and time
/// for all seconds of the years 0000 to 9999 and every nanosecond part that
/// [`writable_instant`] admits. The text is the named one, [`rfc3339_text`].
/// And `parse_from_rfc3339` reads a writable instant back from its text:
/// `to_rfc3339` is documented to return an RFC 3339 string of the date and
/// time, `parse_from_rfc3339` to parse all valid RFC 3339 values; for a year
/// of four digits the writer puts out the year, the month, the day, the
/// time of day with `60` for a leap second, the fraction and the offset
/// `+00:00`, which is the form the reader takes apart.
#[verifier::external_body]
fn write_rfc3339(secs: i64, nanos: u32) -> (result: Option<String>)
    ensures
        writable_instant(secs as int, nanos as int) ==> result is Some,
        result matches Some(text) ==> text@ == rfc3339_text(secs as int, nanos as int),
        result matches Some(text) ==> writable_instant(secs as int, nanos as int)
            ==> rfc3339_reading(text@) == Some((secs as int, nanos as int)),
{
    let at = DateTime::from_timestamp(secs, nanos)?;
    Some(at.to_rfc3339())
}

/// A point in time, normalised to UTC. Every instant that chrono reads from
/// a text is one; only those that [`Instant::writable`] holds of can be
/// written.
#[derive(Clone, Copy, Debug, PartialEq, Eq, Structural)]
pub struct Instant {
    /// Seconds since the Unix epoch.
    pub secs: i64,
    /// Nanoseconds into the second; a billion or more within a leap second.
    pub nanos: u32,
}

impl Instant {
    /// Whether this instant can be written as a text that reads back.
    pub open spec fn writable(self) -> bool {
        writable_instant(self.secs as int, self.nanos as int)
    }

    /// Whether `self` is strictly later than `other`.
    pub open spec fn later_than(self, other: Instant) -> bool {
        self.secs > other.secs || (self.secs == other.secs && self.nanos > other.nanos)
    }

    /// The text under which this instant is stored.
    pub open spec fn text(self) -> Seq<char> {
        rfc3339_text(self.secs as int, self.nanos as int)
    }

    /// Whether the text of this instant is read back as this instant.
    /// [`Instant::to_rfc3339`] shows it of every instant that it writes.
    pub open spec fn reads_back(self) -> bool {
        decode_instant(self.text()) == Some(self)
    }

    /// The week of this instant on a clock that is `offset` seconds ahead of UTC.
    pub open spec fn week(self, offset: int) -> int {
        week_number(self.secs as int, offset)
    }

    /// The instant with the given seconds and nanoseconds, if it is one
    /// that can be written.
    pub fn new(secs: i64, nanos: u32) -> (result: Option<Instant>)
        ensures
            result == if writable_instant(secs as int, nanos as int) {
                Some(Instant { secs, nanos })
            } else {
                None
            },
    {
        if secs < MIN_SECONDS || secs > MAX_SECONDS {
            return None;
        }
        if nanos >= 2 * NANOS_PER_SECOND {
            return None;
        }
        if nanos >= NANOS_PER_SECOND && (secs - MIN_SECONDS) % 60 != 59 {
            return None;
        }
        Some(Instant { secs, nanos })
    }

    /// Reads an instant from its stored text: every instant that chrono
    /// reads, whatever its year. Fails with `CorruptData` exactly if chrono
    /// rejects the text.
    pub fn parse(text: &str) -> (result: Result<Instant, StoreError>)
        ensures
            result == match decode_instant(text@) {
                Some(at) => Ok::<Instant, StoreError>(at),
                None => Err(StoreError::CorruptData),
            },
            result is Err <==> rfc3339_reading(text@) is None,
    {
        match read_rfc3339(text) {
            Ok((secs, nanos)) => Ok(Instant { secs, nanos }),
            Err(_) => Err(StoreError::CorruptData),
        }
    }

    /// Writes the text under which this instant is stored: RFC 3339 with
    /// the offset `+00:00`. The text reads back as this instant.
    pub fn to_rfc3339(&self) -> (result: String)
        requires
            self.writable(),
        ensures
            result@ == self.text(),
            self.reads_back(),
    {
        write_rfc3339(self.secs, self.nanos).unwrap()
    }

    /// Seconds since the Unix epoch.
    pub fn seconds(&self) -> (result: i64)
        ensures
            result == self.secs,
    {
        self.secs
    }

    /// Nanoseconds into the second.
    pub fn nanoseconds(&self) -> (result: u32)
        ensures
            result == self.nanos,
    {
        self.nanos
    }

    /// Whether `self` is strictly later than `other`.
    pub fn is_later_than(&self, other: &Instant) -> (result: bool)
        ensures
            result == self.later_than(*other),
    {
        self.secs > other.secs || (self.secs == other.secs && self.nanos > other.nanos)
    }

    /// The week of this instant on a clock that is `offset` seconds ahead
    /// of UTC, for every instant and every offset.
    pub fn week_on_clock(&self, offset: i32) -> (result: i64)
        ensures
            result == self.week(offset as int),
    {
        // Rust rounds a quotient towards zero, the week is rounded down:
        // the division is made on a number that cannot be negative, in a
        // type wide enough for every sum.
        let local: i128 = (self.secs as i128) + (offset as i128) + (EPOCH_INTO_WEEK as i128);
        let lifted: i128 = local + LIFT_WEEKS * (SECONDS_PER_WEEK as i128);
        let weeks: i128 = lifted / (SECONDS_PER_WEEK as i128);
        assert(weeks - LIFT_WEEKS == week_number(self.secs as int, offset as int)) by {
            assert(lifted as int == local as int + 15_250_284_456_023 * 604_800);
            assert((local as int + 15_250_284_456_023 * 604_800) / 604_800 == (local as int)
                / 604_800 + 15_250_284_456_023) by (nonlinear_arith);
        }
        (weeks - LIFT_WEEKS) as i64
    }
}

} // verus!
