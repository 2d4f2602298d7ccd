//! Points in time and spans of it.
use vstd::prelude::*;

verus! {

/// A point in time: microseconds since the start of 1970, UTC.
pub type Timestamp = i64;

/// The earliest point in time that the calendar covers.
pub const MIN_TIMESTAMP: i64 = -8_334_601_228_800_000_000;

/// The latest point in time that the calendar covers.
pub const MAX_TIMESTAMP: i64 = 8_210_266_876_799_999_999;

/// The most seconds that an interval can have, in either direction.
pub const MAX_INTERVAL_SECS: i64 = 9_223_372_036_854_775;

/// A length of time in microseconds.
#[derive(Debug, Clone, Copy, PartialEq, Eq, Structural)]
pub struct Span {
    pub micros: u64,
}

impl Span {
    pub fn from_secs(secs: u64) -> (r: Span)
        requires
            secs * 1_000_000 <= u64::MAX,
        ensures
            r.micros == secs * 1_000_000,
    {
        Span { micros: secs * 1_000_000 }
    }

    pub fn from_millis(millis: u64) -> (r: Span)
        requires
            millis * 1_000 <= u64::MAX,
        ensures
            r.micros == millis * 1_000,
    {
        Span { micros: millis * 1_000 }
    }

    /// The whole seconds.
    pub fn as_secs(&self) -> (r: u64)
        ensures
            r == self.micros / 1_000_000,
    {
        self.micros / 1_000_000
    }
}

/// The point in time a span after `at`, where there is one.
pub open spec fn later(at: Timestamp, span: Span) -> Option<Timestamp> {
    if at + span.micros <= i64::MAX {
        Some((at + span.micros) as i64)
    } else {
        None
    }
}

/// Adds a span to a point in time.
pub fn add_span(at: Timestamp, span: Span) -> (r: Option<Timestamp>)
    ensures
        r == later(at, span),
{
    let sum: i128 = at as i128 + span.micros as i128;
    if sum <= i64::MAX as i128 {
        Some(sum as i64)
    } else {
        None
    }
}

/// A unit in which a schedule's interval is written.
#[derive(Debug, Clone, Copy, PartialEq, Eq, Structural)]
pub enum Unit {
    Second,
    Minute,
    Hour,
    Day,
    Week,
}

impl Unit {
    /// The seconds in one unit.
    pub open spec fn secs(self) -> int {
        match self {
            Unit::Second => 1,
            Unit::Minute => 60,
            Unit::Hour => 3_600,
            Unit::Day => 86_400,
            Unit::Week => 604_800,
        }
    }
}

/// A number of units.
#[derive(Debug, Clone, Copy, PartialEq, Eq, Structural)]
pub struct Interval {
    pub count: i64,
    pub unit: Unit,
}

impl Interval {
    /// The seconds in the interval.
    pub open spec fn secs(self) -> int {
        self.count * self.unit.secs()
    }

    /// Whether the interval is within the range of intervals.
    pub open spec fn in_range(self) -> bool {
        -MAX_INTERVAL_SECS <= self.secs() <= MAX_INTERVAL_SECS
    }

    /// Whether the calendar covers the point in time that lies this interval after `at`.
    pub open spec fn reaches(self, at: Timestamp) -> bool {
        MIN_TIMESTAMP <= at + self.secs() * 1_000_000 <= MAX_TIMESTAMP
    }

    /// The number of seconds.
    pub fn to_secs(self) -> (r: i64)
        requires
            self.in_range(),
        ensures
            r == self.secs(),
    {
        match self.unit {
            Unit::Second => seconds(self.count),
            Unit::Minute => minutes(self.count),
            Unit::Hour => hours(self.count),
            Unit::Day => days(self.count),
            Unit::Week => weeks(self.count),
        }
    }

    /// Whether the calendar covers the point in time that lies this interval after `at`.
    pub fn fits_after(self, at: Timestamp) -> (r: bool)
        ensures
            r == self.reaches(at),
    {
        let unit: i128 = match self.unit {
            Unit::Second => 1,
            Unit::Minute => 60,
            Unit::Hour => 3_600,
            Unit::Day => 86_400,
            Unit::Week => 604_800,
        };
        let sum: i128 = at as i128 + self.count as i128 * unit * 1_000_000;
        MIN_TIMESTAMP as i128 <= sum && sum <= MAX_TIMESTAMP as i128
    }

    /// The point in time that lies this interval after `at`.
    pub fn after(self, at: Timestamp) -> (r: Timestamp)
        requires
            MIN_TIMESTAMP <= at <= MAX_TIMESTAMP,
            self.reaches(at),
        ensures
            r == at + self.secs() * 1_000_000,
    {
        let secs: i64 = self.to_secs();
        add_seconds(at, secs)
    }
}

/// `chrono::Duration::seconds`: an interval of that many seconds. It panics on more seconds than
/// an interval can have.
#[verifier::external_body]
fn seconds(count: i64) -> (r: i64)
    requires
        -MAX_INTERVAL_SECS <= count <= MAX_INTERVAL_SECS,
    ensures
        r == count,
{
    chrono::Duration::seconds(count).num_seconds()
}

/// `chrono::Duration::minutes`: an interval of sixty seconds each. It panics on more seconds than
/// an interval can have.
#[verifier::external_body]
fn minutes(count: i64) -> (r: i64)
    requires
        -MAX_INTERVAL_SECS <= count * 60 <= MAX_INTERVAL_SECS,
    ensures
        r == count * 60,
{
    chrono::Duration::minutes(count).num_seconds()
}

/// `chrono::Duration::hours`: an interval of 3600 seconds each. It panics on more seconds than an
/// interval can have.
#[verifier::external_body]
fn hours(count: i64) -> (r: i64)
    requires
        -MAX_INTERVAL_SECS <= count * 3_600 <= MAX_INTERVAL_SECS,
    ensures
        r == count * 3_600,
{
    chrono::Duration::hours(count).num_seconds()
}

/// `chrono::Duration::days`: an interval of 86400 seconds each. It panics on more seconds than an
/// interval can have.
#[verifier::external_body]
fn days(count: i64) -> (r: i64)
    requires
        -MAX_INTERVAL_SECS <= count * 86_400 <= MAX_INTERVAL_SECS,
    ensures
        r == count * 86_400,
{
    chrono::Duration::days(count).num_seconds()
}

/// `chrono::Duration::weeks`: an interval of 604800 seconds each. It panics on more seconds than
/// an interval can have.
#[verifier::external_body]
fn weeks(count: i64) -> (r: i64)
    requires
        -MAX_INTERVAL_SECS <= count * 604_800 <= MAX_INTERVAL_SECS,
    ensures
        r == count * 604_800,
{
    chrono::Duration::weeks(count).num_seconds()
}

/// `+` of a `chrono::DateTime<Utc>` and a `chrono::Duration`: the point in time that many seconds
/// later. It panics where the calendar ends.
#[verifier::external_body]
fn add_seconds(at: i64, secs: i64) -> (r: i64)
    requires
        MIN_TIMESTAMP <= at <= MAX_TIMESTAMP,
        -MAX_INTERVAL_SECS <= secs <= MAX_INTERVAL_SECS,
        MIN_TIMESTAMP <= at + secs * 1_000_000 <= MAX_TIMESTAMP,
    ensures
        r == at + secs * 1_000_000,
{
    let start = chrono::DateTime::from_timestamp_micros(at).unwrap();
    (start + chrono::Duration::seconds(secs)).timestamp_micros()
}

/// `chrono::Utc::now`: the time of the system's clock, which is a point in time after 1970 that
/// the calendar covers; a clock that is set to any other time makes it panic. Nothing more is known
/// of it.
#[verifier::external_body]
pub(crate) fn utc_now() -> (r: Timestamp)
    ensures
        0 <= r <= MAX_TIMESTAMP,
{
    chrono::Utc::now().timestamp_micros()
}

/// How a minute is written: year, month, day, hour and minute without anything between them.
pub const MINUTE_PATTERN: &'static str = "%Y%m%d%H%M";

/// How a second is written: as a date and a time of day.
pub const SECOND_PATTERN: &'static str = "%Y-%m-%d %H:%M:%S";

/// The microseconds that are written alike by a pattern.
pub open spec fn grain(pattern: Seq<char>) -> int {
    if pattern == MINUTE_PATTERN@ {
        60_000_000
    } else {
        1_000_000
    }
}

/// How a minute or a second, counted from the start of 1970, is written by a pattern.
pub uninterp spec fn time_text(count: int, pattern: Seq<char>) -> Seq<char>;

/// `chrono::DateTime::format`: with one of the two patterns, what is written depends on the minute
/// or the second alone, and no two minutes or seconds of the calendar are written alike.
#[verifier::external_body]
pub(crate) fn format_time(at: Timestamp, pattern: &str) -> (r: String)
    requires
        MIN_TIMESTAMP <= at <= MAX_TIMESTAMP,
        pattern@ == MINUTE_PATTERN@ || pattern@ == SECOND_PATTERN@,
    ensures
        r@ == time_text(at as int / grain(pattern@), pattern@),
        forall|other: i64|
            MIN_TIMESTAMP <= other <= MAX_TIMESTAMP && r@ == #[trigger] time_text(
                other as int / grain(pattern@),
                pattern@,
            ) ==> other as int / grain(pattern@) == at as int / grain(pattern@),
{
    chrono::DateTime::from_timestamp_micros(at).unwrap().format(pattern).to_string()
}

} // verus!
