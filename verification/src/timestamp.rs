//! Points in time: reading and writing them through `chrono`, and how far back a limit lies.

use crate::text;
use vstd::prelude::*;

verus! {

/// The error of reading a point in time.
#[verifier::external_type_specification]
#[verifier::external_body]
pub struct ExParseError(chrono::ParseError);

/// A point in time: the seconds since the start of 1970 in UTC, and the nanoseconds beyond
/// them. In a leap second the nanoseconds go on beyond a full second.
#[derive(Debug, Clone, Copy, PartialEq, Eq, Structural)]
pub struct Timestamp {
    pub secs: i64,
    pub nanos: u32,
}

/// The second of the earliest point in time that `chrono` knows.
pub const MIN_SECS: i64 = -8_334_601_228_800;

/// The second of the latest point in time that `chrono` knows.
pub const MAX_SECS: i64 = 8_210_266_876_799;

/// The first second of the year 0.
pub const YEAR_0: i64 = -62_167_219_200;

/// The last second of the year 9999.
pub const YEAR_9999: i64 = 253_402_300_799;

/// The seconds of a day.
pub const SECS_PER_DAY: i64 = 86_400;

/// Whether a time is one that `chrono` knows, outside of leap seconds.
pub open spec fn known(t: Timestamp) -> bool {
    MIN_SECS <= t.secs <= MAX_SECS && t.nanos < 1_000_000_000
}

/// Whether `a` comes before `b`.
pub open spec fn before(a: Timestamp, b: Timestamp) -> bool {
    a.secs < b.secs || (a.secs == b.secs && a.nanos < b.nanos)
}

/// The time that a text in the format of RFC 3339 gives, as seconds and nanoseconds.
pub uninterp spec fn rfc3339_parsed(text: Seq<char>) -> Option<(i64, u32)>;

/// The time that a text gives when it is read by a format, as seconds and nanoseconds.
pub uninterp spec fn format_parsed(text: Seq<char>, format: Seq<char>) -> Option<(i64, u32)>;

/// A time in the format of RFC 3339.
pub uninterp spec fn rfc3339_text(secs: i64, nanos: u32) -> Seq<char>;

/// The day in UTC that a second belongs to, as year, month and day with dashes between them.
pub uninterp spec fn day_text(secs: i64) -> Seq<char>;

/// `chrono::DateTime::parse_from_rfc3339`: the time that the text gives, whatever offset from
/// UTC it is written in. The result depends on the text alone.
#[verifier::external_body]
fn parse_from_rfc3339(text: &str) -> (r: Result<(i64, u32), chrono::ParseError>)
    ensures
        match r {
            Ok(t) => rfc3339_parsed(text@) == Some(t),
            Err(_) => rfc3339_parsed(text@) is None,
        },
{
    chrono::DateTime::parse_from_rfc3339(text).map(|t| (t.timestamp(), t.timestamp_subsec_nanos()))
}

/// `chrono::DateTime::parse_from_str`: the time that the text gives when it is read by the
/// format. The result depends on the two alone.
#[verifier::external_body]
fn parse_from_str(text: &str, format: &str) -> (r: Result<(i64, u32), chrono::ParseError>)
    ensures
        match r {
            Ok(t) => format_parsed(text@, format@) == Some(t),
            Err(_) => format_parsed(text@, format@) is None,
        },
{
    chrono::DateTime::parse_from_str(text, format).map(
        |t| (t.timestamp(), t.timestamp_subsec_nanos()),
    )
}

/// `chrono::DateTime::to_rfc3339` of a time in UTC. The text holds no white space. A year of
/// four digits is written without a sign, and the text then gives the same time when it is
/// read as RFC 3339.
#[verifier::external_body]
fn to_rfc3339(secs: i64, nanos: u32) -> (r: String)
    requires
        MIN_SECS <= secs <= MAX_SECS,
        nanos < 1_000_000_000,
    ensures
        r@ == rfc3339_text(secs, nanos),
        forall|i: int| 0 <= i < r@.len() ==> !text::white_space(#[trigger] r@[i]),
        YEAR_0 <= secs <= YEAR_9999 ==> rfc3339_parsed(r@) == Some((secs, nanos)),
{
    chrono::DateTime::from_timestamp(secs, nanos).unwrap().to_rfc3339()
}

/// `chrono::DateTime::format` with `%Y-%m-%d`, of a time in UTC. The result depends on the
/// second alone.
#[verifier::external_body]
fn format_day(secs: i64) -> (r: String)
    requires
        MIN_SECS <= secs <= MAX_SECS,
    ensures
        r@ == day_text(secs),
{
    chrono::DateTime::from_timestamp(secs, 0).unwrap().format("%Y-%m-%d").to_string()
}

/// The earliest point in time that `chrono` knows.
pub open spec fn earliest() -> Timestamp {
    Timestamp { secs: MIN_SECS, nanos: 0 }
}

/// A time from its seconds and nanoseconds.
pub open spec fn stamp(t: Option<(i64, u32)>) -> Option<Timestamp> {
    match t {
        Some((secs, nanos)) => Some(Timestamp { secs, nanos }),
        None => None,
    }
}

/// The second that lies so many days before a time.
pub open spec fn secs_back(t: Timestamp, days: u64) -> int {
    t.secs - days * SECS_PER_DAY
}

impl Timestamp {
    /// The earliest point in time that `chrono` knows.
    pub fn earliest() -> (r: Timestamp)
        ensures
            r == earliest(),
    {
        Timestamp { secs: MIN_SECS, nanos: 0 }
    }

    /// Whether `self` comes before `other`.
    pub fn is_before(&self, other: &Timestamp) -> (r: bool)
        ensures
            r == before(*self, *other),
    {
        self.secs < other.secs || (self.secs == other.secs && self.nanos < other.nanos)
    }

    /// Reads a time in the format of RFC 3339.
    pub fn from_rfc3339(s: &str) -> (r: Result<Timestamp, chrono::ParseError>)
        ensures
            match r {
                Ok(t) => stamp(rfc3339_parsed(s@)) == Some(t),
                Err(_) => rfc3339_parsed(s@) is None,
            },
    {
        match parse_from_rfc3339(s) {
            Ok((secs, nanos)) => Ok(Timestamp { secs, nanos }),
            Err(e) => Err(e),
        }
    }

    /// Reads a time by a format.
    pub fn from_format(s: &str, format: &str) -> (r: Result<Timestamp, chrono::ParseError>)
        ensures
            match r {
                Ok(t) => stamp(format_parsed(s@, format@)) == Some(t),
                Err(_) => format_parsed(s@, format@) is None,
            },
    {
        match parse_from_str(s, format) {
            Ok((secs, nanos)) => Ok(Timestamp { secs, nanos }),
            Err(e) => Err(e),
        }
    }

    /// Writes the time in the format of RFC 3339.
    pub fn to_rfc3339(&self) -> (r: String)
        requires
            known(*self),
        ensures
            r@ == rfc3339_text(self.secs, self.nanos),
            text::trimmed(r@) == r@,
            YEAR_0 <= self.secs <= YEAR_9999 ==> rfc3339_parsed(r@) == Some(
                (self.secs, self.nanos),
            ),
    {
        to_rfc3339(self.secs, self.nanos)
    }

    /// The day that the time belongs to, in UTC. `None` where `chrono` does not know the time.
    pub fn day(&self) -> (r: Option<String>)
        ensures
            match r {
                Some(s) => MIN_SECS <= self.secs <= MAX_SECS && s@ == day_text(self.secs),
                None => !(MIN_SECS <= self.secs <= MAX_SECS),
            },
    {
        if MIN_SECS <= self.secs && self.secs <= MAX_SECS {
            Some(format_day(self.secs))
        } else {
            None
        }
    }

    /// The time that lies so many days back. `None` where that is before the earliest time.
    pub fn days_back(&self, days: u64) -> (r: Option<Timestamp>)
        requires
            known(*self),
        ensures
            r == if MIN_SECS <= secs_back(*self, days) {
                Some(Timestamp { secs: secs_back(*self, days) as i64, nanos: self.nanos })
            } else {
                None
            },
    {
        let secs: i128 = self.secs as i128 - days as i128 * 86_400;
        if MIN_SECS as i128 <= secs {
            Some(Timestamp { secs: secs as i64, nanos: self.nanos })
        } else {
            None
        }
    }
}

/// The times that are known, and the days between them, in seconds.
pub proof fn law_times(t: Timestamp, days: u64)
    ensures
        known(t) <==> -8_334_601_228_800 <= t.secs <= 8_210_266_876_799 && t.nanos < 1_000_000_000,
        secs_back(t, days) + days * 86_400 == t.secs,
        MIN_SECS == -8_334_601_228_800,
        MAX_SECS == 8_210_266_876_799,
        SECS_PER_DAY == 86_400,
        // The years 0 to 9999 have 3652425 days.
        YEAR_9999 + 1 - YEAR_0 == 3_652_425 * 86_400,
        // The year 0 begins 719528 days before 1970.
        YEAR_0 == -719_528 * 86_400,
{
}

} // verus!
