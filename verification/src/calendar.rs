//! Instants, time zones and local clock readings.
//!
//! The calendar itself and the time zone data belong to `chrono` and
//! `chrono_tz`. What they compute has names here, and the functions that call
//! them say which name their result is.
use std::str::FromStr;

use chrono::{DateTime, NaiveDateTime, TimeZone, Timelike};
use vstd::prelude::*;

use crate::text;
use crate::text::copy_of;

verus! {

/// The layout of a local date and time in a trigger.
pub const LOCAL_DATE_TIME_FORMAT: &'static str = "%Y-%m-%dT%H:%M:%S";

/// The layout of a local date and time in a recurrence rule set.
pub const RRULE_DATE_TIME_FORMAT: &'static str = "%Y%m%dT%H%M%S";

/// The timestamp of the first second of the calendar.
pub const MIN_TIMESTAMP: i64 = -8_334_601_228_800;

/// The timestamp of the last second of the calendar.
pub const MAX_TIMESTAMP: i64 = 8_210_266_876_799;

/// The most seconds that a time span can have.
pub const MAX_SPAN_SECONDS: i64 = 9_223_372_036_854_775;

/// A point on a clock: whole seconds, and the nanoseconds after them. In a
/// leap second there are a billion nanoseconds or more.
pub struct Moment {
    pub secs: int,
    pub frac: int,
}

/// Whether the calendar holds the moment.
pub open spec fn in_calendar(secs: int, frac: int) -> bool {
    MIN_TIMESTAMP <= secs <= MAX_TIMESTAMP && 0 <= frac < 2_000_000_000
}

/// Whether the calendar holds the moment and the day before and after it.
pub open spec fn day_inside_calendar(secs: int) -> bool {
    MIN_TIMESTAMP + 86_400 <= secs <= MAX_TIMESTAMP - 86_400
}

/// Whether `a` is not later than `b`.
pub open spec fn moment_le(a: Moment, b: Moment) -> bool {
    a.secs < b.secs || (a.secs == b.secs && a.frac <= b.frac)
}

/// The moment `delta` seconds after `m`. A step out of a leap second keeps the
/// part after its billion nanoseconds.
pub open spec fn shifted(m: Moment, delta: int) -> Moment {
    if m.frac < 1_000_000_000 {
        Moment { secs: m.secs + delta, frac: m.frac }
    } else if delta > 0 {
        Moment { secs: m.secs + delta, frac: m.frac - 1_000_000_000 }
    } else if delta < 0 {
        Moment { secs: m.secs + 1 + delta, frac: m.frac - 1_000_000_000 }
    } else {
        m
    }
}

/// The moment `delta` seconds after `m`, where the calendar holds it.
pub open spec fn checked_shift(m: Moment, delta: int) -> Option<Moment> {
    let to = shifted(m, delta);
    if MIN_TIMESTAMP <= to.secs <= MAX_TIMESTAMP {
        Some(to)
    } else {
        None
    }
}

/// Calls `DateTime::<Utc>::checked_add_signed` with a whole number of seconds.
/// It adds them, and gives `None` where the calendar does not hold the sum.
/// `TimeDelta::seconds` panics above `i64::MAX` milliseconds.
#[verifier::external_body]
fn add_seconds(secs: i64, nanos: u32, delta: i64) -> (r: Option<(i64, u32)>)
    requires
        in_calendar(secs as int, nanos as int),
        0 <= delta <= MAX_SPAN_SECONDS,
    ensures
        match r {
            Some((s, n)) => checked_shift(
                (Moment { secs: secs as int, frac: nanos as int }),
                delta as int,
            ) == Some(Moment { secs: s as int, frac: n as int }),
            None => checked_shift(
                (Moment { secs: secs as int, frac: nanos as int }),
                delta as int,
            ) is None,
        },
{
    let start = DateTime::from_timestamp(secs, 0).unwrap().naive_utc();
    let start = start.with_nanosecond(nanos).unwrap().and_utc();
    let end = start.checked_add_signed(chrono::Duration::seconds(delta));
    end.map(|end| (end.timestamp(), end.timestamp_subsec_nanos()))
}

/// Calls `DateTime::<Utc>::checked_sub_signed` with a whole number of seconds.
/// It takes them away, and gives `None` where the calendar does not hold the
/// difference.
#[verifier::external_body]
fn sub_seconds(secs: i64, nanos: u32, delta: i64) -> (r: Option<(i64, u32)>)
    requires
        in_calendar(secs as int, nanos as int),
        0 <= delta <= MAX_SPAN_SECONDS,
    ensures
        match r {
            Some((s, n)) => checked_shift(
                (Moment { secs: secs as int, frac: nanos as int }),
                -delta,
            ) == Some(Moment { secs: s as int, frac: n as int }),
            None => checked_shift(
                (Moment { secs: secs as int, frac: nanos as int }),
                -delta,
            ) is None,
        },
{
    let start = DateTime::from_timestamp(secs, 0).unwrap().naive_utc();
    let start = start.with_nanosecond(nanos).unwrap().and_utc();
    let end = start.checked_sub_signed(chrono::Duration::seconds(delta));
    end.map(|end| (end.timestamp(), end.timestamp_subsec_nanos()))
}

/// An instant in UTC that the calendar holds.
#[derive(Debug, Clone, Copy, PartialEq, Eq)]
pub struct UtcInstant {
    secs: i64,
    nanos: u32,
}

impl UtcInstant {
    #[verifier::type_invariant]
    spec fn held(&self) -> bool {
        in_calendar(self.secs as int, self.nanos as int)
    }

    /// The instant as a moment.
    pub closed spec fn view(&self) -> Moment {
        Moment { secs: self.secs as int, frac: self.nanos as int }
    }

    /// The instant with the given Unix timestamp and nanoseconds, where the
    /// calendar holds it.
    pub fn new(timestamp: i64, nanos: u32) -> (r: Option<UtcInstant>)
        ensures
            match r {
                Some(t) => in_calendar(timestamp as int, nanos as int) && t@ == (Moment {
                    secs: timestamp as int,
                    frac: nanos as int,
                }),
                None => !in_calendar(timestamp as int, nanos as int),
            },
    {
        if MIN_TIMESTAMP <= timestamp && timestamp <= MAX_TIMESTAMP && nanos < 2_000_000_000 {
            Some(UtcInstant { secs: timestamp, nanos })
        } else {
            None
        }
    }

    /// The Unix timestamp of the instant.
    pub fn timestamp(&self) -> (r: i64)
        ensures
            r == self@.secs,
            in_calendar(self@.secs, self@.frac),
    {
        proof {
            use_type_invariant(self);
        }
        self.secs
    }

    /// The nanoseconds after the whole second of the instant.
    pub fn nanos(&self) -> (r: u32)
        ensures
            r == self@.frac,
    {
        self.nanos
    }

    /// Whether the instant is not later than `other`.
    pub fn not_after(&self, other: UtcInstant) -> (r: bool)
        ensures
            r == moment_le(self@, other@),
    {
        self.secs < other.secs || (self.secs == other.secs && self.nanos <= other.nanos)
    }

    /// The instant `seconds` later, where the calendar holds it.
    pub fn plus(&self, seconds: i64) -> (r: Option<UtcInstant>)
        requires
            0 <= seconds <= MAX_SPAN_SECONDS,
        ensures
            (match r {
                Some(t) => Some(t@),
                None => None,
            }) == checked_shift(self@, seconds as int),
    {
        proof {
            use_type_invariant(self);
        }
        match add_seconds(self.secs, self.nanos, seconds) {
            Some((secs, nanos)) => Some(UtcInstant { secs, nanos }),
            None => None,
        }
    }

    /// The instant `seconds` earlier, where the calendar holds it.
    pub fn minus(&self, seconds: i64) -> (r: Option<UtcInstant>)
        requires
            0 <= seconds <= MAX_SPAN_SECONDS,
        ensures
            (match r {
                Some(t) => Some(t@),
                None => None,
            }) == checked_shift(self@, -seconds),
    {
        proof {
            use_type_invariant(self);
        }
        match sub_seconds(self.secs, self.nanos, seconds) {
            Some((secs, nanos)) => Some(UtcInstant { secs, nanos }),
            None => None,
        }
    }
}

/// Whether the time zone database has a zone of this name.
pub uninterp spec fn known_timezone(name: Seq<char>) -> bool;

/// Calls `chrono_tz::Tz::from_str`, which finds a zone by its name. The
/// database has `UTC`.
#[verifier::external_body]
fn find_timezone(name: &str) -> (r: bool)
    ensures
        r == known_timezone(name@),
        name@ == "UTC"@ ==> r,
{
    chrono_tz::Tz::from_str(name).is_ok()
}

/// Calls `iana_time_zone::get_timezone`, which asks the machine for the name of
/// its time zone. Nothing holds of every machine's answer.
#[verifier::external_body]
fn machine_timezone() -> (r: Option<String>) {
    iana_time_zone::get_timezone().ok()
}

/// A time zone of the database.
pub struct Timezone {
    name: String,
}

impl Timezone {
    #[verifier::type_invariant]
    spec fn known(&self) -> bool {
        known_timezone(self.name@)
    }

    /// The name of the zone.
    pub closed spec fn view(&self) -> Seq<char> {
        self.name@
    }

    /// Coordinated universal time.
    pub fn utc() -> (r: Timezone)
        ensures
            r@ == "UTC"@,
            known_timezone(r@),
    {
        let found = find_timezone("UTC");
        Timezone { name: copy_of("UTC") }
    }

    /// The zone of this name, where the database has one.
    pub fn named(name: &str) -> (r: Option<Timezone>)
        ensures
            match r {
                Some(zone) => known_timezone(name@) && zone@ == name@,
                None => !known_timezone(name@),
            },
    {
        if find_timezone(name) {
            Some(Timezone { name: copy_of(name) })
        } else {
            None
        }
    }

    /// The name of the zone.
    pub fn name(&self) -> (r: &str)
        ensures
            r@ == self@,
            known_timezone(self@),
    {
        proof {
            use_type_invariant(self);
        }
        self.name.as_str()
    }
}

/// The zone that an answer of the machine names: that of the database with this
/// name, else `UTC`.
pub open spec fn answered_timezone(answer: Option<Seq<char>>) -> Seq<char> {
    match answer {
        Some(name) => if known_timezone(name) {
            name
        } else {
            "UTC"@
        },
        None => "UTC"@,
    }
}

/// Finds the zone that an answer of the machine names.
pub fn timezone_for_answer(answer: Option<String>) -> (r: Timezone)
    ensures
        r@ == answered_timezone(text::opt_view(answer)),
        known_timezone(r@),
{
    match answer {
        Some(name) => match Timezone::named(name.as_str()) {
            Some(zone) => zone,
            None => Timezone::utc(),
        },
        None => Timezone::utc(),
    }
}

/// The machine's time zone; `UTC` where the machine does not say, or names a
/// zone that the database lacks.
pub fn local_timezone() -> (r: Timezone)
    ensures
        known_timezone(r@),
        exists|answer: Option<Seq<char>>| r@ == #[trigger] answered_timezone(answer),
{
    let answer = machine_timezone();
    let ghost seen = text::opt_view(answer);
    let zone = timezone_for_answer(answer);
    assert(zone@ == answered_timezone(seen));
    zone
}

/// A reading of a local clock: the Unix timestamp that the reading would have
/// in UTC, and the nanoseconds after it.
#[derive(Debug, Clone, Copy, PartialEq, Eq)]
pub struct ClockReading {
    pub secs: i64,
    pub nanos: u32,
}

/// The clock reading that a text writes in the given layout.
pub uninterp spec fn parsed_reading(text: Seq<char>, format: Seq<char>) -> Option<ClockReading>;

/// Calls `NaiveDateTime::parse_from_str`, which reads a date and time in the
/// given layout. The calendar holds what it reads.
#[verifier::external_body]
pub(crate) fn parse_reading(text: &str, format: &str) -> (r: Option<ClockReading>)
    ensures
        r == parsed_reading(text@, format@),
        r matches Some(reading) ==> in_calendar(reading.secs as int, reading.nanos as int),
{
    let parsed = NaiveDateTime::parse_from_str(text, format).ok()?.and_utc();
    Some(ClockReading { secs: parsed.timestamp(), nanos: parsed.timestamp_subsec_nanos() })
}

/// Whether a reading is in no leap second, or in one after the last second of a
/// minute.
pub open spec fn is_plain_reading(reading: ClockReading) -> bool {
    reading.nanos < 1_000_000_000 || reading.secs as int % 60 == 59
}

/// A reading without what is less than a second.
pub open spec fn whole_seconds(reading: ClockReading) -> ClockReading {
    ClockReading {
        secs: reading.secs,
        nanos: if reading.nanos < 1_000_000_000 {
            0
        } else {
            1_000_000_000
        },
    }
}

/// The text of a clock reading in the given layout.
pub uninterp spec fn formatted_reading(reading: ClockReading, format: Seq<char>) -> Seq<char>;

/// Calls `NaiveDateTime::format`, which writes a date and time in the given
/// layout. It panics on a layout that it does not know, so the two that it is
/// called with are named. They write digits, signs, colons and a `T`, and no
/// white space. The layout of triggers writes whole seconds, and what it writes
/// is read back. A leap second is written as the second 60 after the last second
/// of a minute; of one after another second nothing is claimed.
#[verifier::external_body]
pub(crate) fn format_reading(reading: ClockReading, format: &str) -> (r: String)
    requires
        in_calendar(reading.secs as int, reading.nanos as int),
        format@ == LOCAL_DATE_TIME_FORMAT@ || format@ == RRULE_DATE_TIME_FORMAT@,
    ensures
        r@ == formatted_reading(reading, format@),
        r@.len() > 0,
        forall|i: int| 0 <= i < r@.len() ==> !text::white_space(#[trigger] r@[i]),
        format@ == LOCAL_DATE_TIME_FORMAT@ && is_plain_reading(reading) ==> parsed_reading(
            r@,
            format@,
        ) == Some(whole_seconds(reading)),
{
    let date_time = DateTime::from_timestamp(reading.secs, 0).unwrap().naive_utc();
    date_time.with_nanosecond(reading.nanos).unwrap().format(format).to_string()
}

/// The reading of the clock of a zone at a moment.
pub uninterp spec fn local_reading(zone: Seq<char>, secs: int, frac: int) -> ClockReading;

/// Calls `DateTime::with_timezone` and `DateTime::naive_local`, which give the
/// reading of a zone's clock. No zone is a day or more away from UTC;
/// `naive_local` panics where the calendar does not hold the reading. A reading
/// that the clock of a zone of the database shows is found again, down to its
/// second, when it is looked for.
#[verifier::external_body]
fn read_clock(zone: &str, secs: i64, nanos: u32) -> (r: ClockReading)
    requires
        known_timezone(zone@),
        in_calendar(secs as int, nanos as int),
        day_inside_calendar(secs as int),
    ensures
        r == local_reading(zone@, secs as int, nanos as int),
        in_calendar(r.secs as int, r.nanos as int),
        r.nanos == nanos,
        !(resolved_reading(zone@, whole_seconds(r)) is Missing),
{
    let zone = rrule::Tz::Tz(chrono_tz::Tz::from_str(zone).unwrap());
    let instant = DateTime::from_timestamp(secs, 0).unwrap().naive_utc();
    let instant = instant.with_nanosecond(nanos).unwrap().and_utc();
    let local = instant.with_timezone(&zone).naive_local().and_utc();
    ClockReading { secs: local.timestamp(), nanos: local.timestamp_subsec_nanos() }
}

/// The reading of the clock of `zone` at `instant`.
pub(crate) fn clock_in(zone: &Timezone, instant: UtcInstant) -> (r: ClockReading)
    requires
        day_inside_calendar(instant@.secs),
    ensures
        r == local_reading(zone@, instant@.secs, instant@.frac),
        in_calendar(r.secs as int, r.nanos as int),
        r.nanos == instant@.frac,
        !(resolved_reading(zone@, whole_seconds(r)) is Missing),
{
    let secs: i64 = instant.timestamp();
    read_clock(zone.name(), secs, instant.nanos())
}

/// The moments at which the clock of a zone shows a reading.
#[derive(Debug, Clone, Copy, PartialEq, Eq)]
pub enum LocalResolution {
    /// One moment.
    Single { secs: i64, nanos: u32 },
    /// Two moments, as where the clock is set back.
    Ambiguous { earliest_secs: i64, earliest_nanos: u32, latest_secs: i64, latest_nanos: u32 },
    /// No moment, as where the clock is set forward.
    Missing,
}

/// The moments at which the clock of a zone shows a reading.
pub uninterp spec fn resolved_reading(zone: Seq<char>, reading: ClockReading) -> LocalResolution;

/// Calls `TimeZone::from_local_datetime`, which finds the instants at which a
/// zone's clock shows a reading. The calendar holds them.
#[verifier::external_body]
fn resolve_reading(zone: &str, reading: ClockReading) -> (r: LocalResolution)
    requires
        known_timezone(zone@),
        in_calendar(reading.secs as int, reading.nanos as int),
    ensures
        r == resolved_reading(zone@, reading),
        r matches LocalResolution::Single { secs, nanos } ==> in_calendar(secs as int, nanos as int),
        r matches LocalResolution::Ambiguous { earliest_secs, earliest_nanos, .. } ==> in_calendar(
            earliest_secs as int,
            earliest_nanos as int,
        ),
{
    let zone = rrule::Tz::Tz(chrono_tz::Tz::from_str(zone).unwrap());
    let local = DateTime::from_timestamp(reading.secs, 0).unwrap().naive_utc();
    let local = local.with_nanosecond(reading.nanos).unwrap();
    match zone.from_local_datetime(&local) {
        chrono::LocalResult::Single(at) => LocalResolution::Single { secs: at.timestamp(), nanos: at.timestamp_subsec_nanos() },
        chrono::LocalResult::Ambiguous(a, b) => LocalResolution::Ambiguous {
            earliest_secs: a.timestamp(),
            earliest_nanos: a.timestamp_subsec_nanos(),
            latest_secs: b.timestamp(),
            latest_nanos: b.timestamp_subsec_nanos(),
        },
        chrono::LocalResult::None => LocalResolution::Missing,
    }
}

/// The earliest moment at which the clock of a zone shows a reading.
pub open spec fn earliest_moment(resolution: LocalResolution) -> Option<Moment> {
    match resolution {
        LocalResolution::Single { secs, nanos } => Some(
            Moment { secs: secs as int, frac: nanos as int },
        ),
        LocalResolution::Ambiguous { earliest_secs, earliest_nanos, .. } => Some(
            Moment { secs: earliest_secs as int, frac: earliest_nanos as int },
        ),
        LocalResolution::Missing => None,
    }
}

/// The earliest instant at which the clock of `zone` shows `reading`.
pub(crate) fn earliest_instant(zone: &Timezone, reading: ClockReading) -> (r: Option<UtcInstant>)
    requires
        in_calendar(reading.secs as int, reading.nanos as int),
    ensures
        (match r {
            Some(t) => Some(t@),
            None => None,
        }) == earliest_moment(resolved_reading(zone@, reading)),
{
    match resolve_reading(zone.name(), reading) {
        LocalResolution::Single { secs, nanos } => UtcInstant::new(secs, nanos),
        LocalResolution::Ambiguous { earliest_secs, earliest_nanos, .. } => UtcInstant::new(
            earliest_secs,
            earliest_nanos,
        ),
        LocalResolution::Missing => None,
    }
}

} // verus!
