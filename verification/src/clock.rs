//! Instants, time zones and the local clock.

use chrono::{Datelike, Offset, TimeZone as ChronoZone, Timelike};
use vstd::prelude::*;

verus! {

/// First and last second, counted from 1970-01-01T00:00:00Z, of the years
/// -262143 and 262142 that an instant can fall into.
pub const MIN_SECS: i64 = -8_334_601_228_800;

pub const MAX_SECS: i64 = 8_210_266_876_799;

/// First and last second of the years 0000 and 9999.
pub const RFC3339_MIN_SECS: i64 = -62_167_219_200;

pub const RFC3339_MAX_SECS: i64 = 253_402_300_799;

pub const NANOS_PER_SEC: u32 = 1_000_000_000;

/// A day of the week.
#[derive(Debug, Clone, Copy, PartialEq, Eq, Structural)]
pub enum Weekday {
    Mon,
    Tue,
    Wed,
    Thu,
    Fri,
    Sat,
    Sun,
}

impl Weekday {
    /// Days from the Monday before, 0 for Monday itself.
    pub open spec fn index(self) -> int {
        match self {
            Weekday::Mon => 0,
            Weekday::Tue => 1,
            Weekday::Wed => 2,
            Weekday::Thu => 3,
            Weekday::Fri => 4,
            Weekday::Sat => 5,
            Weekday::Sun => 6,
        }
    }

    pub fn num_days_from_monday(self) -> (n: u8)
        ensures
            n == self.index(),
    {
        match self {
            Weekday::Mon => 0,
            Weekday::Tue => 1,
            Weekday::Wed => 2,
            Weekday::Thu => 3,
            Weekday::Fri => 4,
            Weekday::Sat => 5,
            Weekday::Sun => 6,
        }
    }

    /// The weekday that comes `n` days after Monday.
    pub fn from_monday(n: u32) -> (day: Weekday)
        requires
            n < 7,
        ensures
            day.index() == n,
    {
        match n {
            0 => Weekday::Mon,
            1 => Weekday::Tue,
            2 => Weekday::Wed,
            3 => Weekday::Thu,
            4 => Weekday::Fri,
            5 => Weekday::Sat,
            _ => Weekday::Sun,
        }
    }
}

// ---------------------------------------------------------------------------
// The calendar
// ---------------------------------------------------------------------------
pub open spec fn is_leap_year(year: int) -> bool {
    year % 4 == 0 && (year % 100 != 0 || year % 400 == 0)
}

pub open spec fn days_in_month(year: int, month: int) -> int {
    if month == 2 {
        if is_leap_year(year) {
            29
        } else {
            28
        }
    } else if month == 4 || month == 6 || month == 9 || month == 11 {
        30
    } else {
        31
    }
}

/// Days of `year` before the first of `month`.
pub open spec fn days_before_month(year: int, month: int) -> int
    decreases month,
{
    if month <= 1 {
        0
    } else {
        days_before_month(year, month - 1) + days_in_month(year, month - 1)
    }
}

/// The number of a date of the proleptic Gregorian calendar, 1970-01-01 being
/// day 0.
pub open spec fn day_number(year: int, month: int, day: int) -> int {
    365 * (year - 1) + (year - 1) / 4 - (year - 1) / 100 + (year - 1) / 400 + days_before_month(
        year,
        month,
    ) + day - 719_163
}

/// What a wall clock and a calendar show: an instant, how far the local time
/// is ahead of UTC, and the local date and time of day.
pub struct Clock {
    pub secs: int,
    pub nanos: int,
    pub offset: int,
    pub year: int,
    pub month: int,
    pub day: int,
    pub weekday: Weekday,
    pub hour: int,
    pub minute: int,
    pub second: int,
}

impl Clock {
    /// Seconds of local time since the start of 1970.
    pub open spec fn local_secs(self) -> int {
        self.secs + self.offset
    }

    /// The date and the time of day are those of the instant, `offset` seconds
    /// ahead of UTC.
    pub open spec fn valid(self) -> bool {
        &&& MIN_SECS <= self.secs <= MAX_SECS
        &&& 0 <= self.nanos < NANOS_PER_SEC
        &&& -86_400 < self.offset < 86_400
        &&& 1 <= self.month <= 12
        &&& 1 <= self.day <= days_in_month(self.year, self.month)
        &&& day_number(self.year, self.month, self.day) == self.local_secs() / 86_400
        &&& self.weekday.index() == (self.local_secs() / 86_400 + 3) % 7
        &&& self.hour == self.local_secs() % 86_400 / 3_600
        &&& self.minute == self.local_secs() % 3_600 / 60
        &&& self.second == self.local_secs() % 60
    }

    /// The instant at which the local minute began, or the instant itself where
    /// that would be out of range.
    pub open spec fn minute_start(self) -> (int, int) {
        if self.secs - self.second < MIN_SECS {
            (self.secs, self.nanos)
        } else {
            (self.secs - self.second, 0)
        }
    }
}

/// The number of the last day before `year`.
spec fn year_end(year: int) -> int {
    365 * (year - 1) + (year - 1) / 4 - (year - 1) / 100 + (year - 1) / 400 - 719_163
}

proof fn lemma_years_do_not_overlap(year: int, later: int)
    requires
        year < later,
    ensures
        year_end(year) + 365 + (if is_leap_year(year) { 1int } else { 0 }) <= year_end(later),
    decreases later - year,
{
    if year + 1 < later {
        lemma_years_do_not_overlap(year + 1, later);
        lemma_years_do_not_overlap(year, year + 1);
    }
}

proof fn lemma_months_do_not_overlap(year: int, month: int, later: int)
    requires
        1 <= month < later,
    ensures
        days_before_month(year, month) + days_in_month(year, month) <= days_before_month(
            year,
            later,
        ),
    decreases later - month,
{
    if month + 1 < later {
        lemma_months_do_not_overlap(year, month, later - 1);
    }
}

proof fn lemma_day_of_year(year: int, month: int, day: int)
    requires
        1 <= month <= 12,
        1 <= day <= days_in_month(year, month),
    ensures
        1 <= days_before_month(year, month) + day <= 365 + (if is_leap_year(year) {
            1int
        } else {
            0
        }),
{
    reveal_with_fuel(days_before_month, 13);
}

/// A day of the calendar has one date: two dates with the same number are the same.
pub proof fn law_dates_are_unique(
    year: int,
    month: int,
    day: int,
    other_year: int,
    other_month: int,
    other_day: int,
)
    requires
        1 <= month <= 12,
        1 <= day <= days_in_month(year, month),
        1 <= other_month <= 12,
        1 <= other_day <= days_in_month(other_year, other_month),
        day_number(year, month, day) == day_number(other_year, other_month, other_day),
    ensures
        year == other_year,
        month == other_month,
        day == other_day,
{
    lemma_day_of_year(year, month, day);
    lemma_day_of_year(other_year, other_month, other_day);
    if year < other_year {
        lemma_years_do_not_overlap(year, other_year);
    }
    if other_year < year {
        lemma_years_do_not_overlap(other_year, year);
    }
    if month < other_month {
        lemma_months_do_not_overlap(year, month, other_month);
    }
    if other_month < month {
        lemma_months_do_not_overlap(year, other_month, month);
    }
}

/// An instant and an offset from UTC leave nothing open: they fix all that the clock
/// and the calendar show.
pub proof fn law_clocks_are_determined(clock: Clock, other: Clock)
    requires
        clock.valid(),
        other.valid(),
        clock.secs == other.secs,
        clock.nanos == other.nanos,
        clock.offset == other.offset,
    ensures
        clock == other,
{
    law_dates_are_unique(
        clock.year,
        clock.month,
        clock.day,
        other.year,
        other.month,
        other.day,
    );
}

// ---------------------------------------------------------------------------
// Instants
// ---------------------------------------------------------------------------
/// Seconds and nanoseconds that name an instant. A nanosecond part of a second
/// or more stands for a leap second, which only follows the last second of a
/// minute.
pub open spec fn representable(secs: int, nanos: int) -> bool {
    &&& MIN_SECS <= secs <= MAX_SECS
    &&& 0 <= nanos < 2 * NANOS_PER_SEC
    &&& nanos >= NANOS_PER_SEC ==> secs % 60 == 59
}

/// Strictly earlier.
pub open spec fn earlier(a: (int, int), b: (int, int)) -> bool {
    a.0 < b.0 || (a.0 == b.0 && a.1 < b.1)
}

/// A UTC instant as a feed reports it: leap seconds may occur.
#[derive(Debug, Clone, Copy, PartialEq, Eq, Structural)]
pub struct Timestamp {
    secs: i64,
    nanos: u32,
}

impl View for Timestamp {
    type V = (int, int);

    /// Seconds since 1970, and nanoseconds.
    closed spec fn view(&self) -> (int, int) {
        (self.secs as int, self.nanos as int)
    }
}

impl Timestamp {
    #[verifier::type_invariant]
    pub open spec fn wf(&self) -> bool {
        representable(self@.0, self@.1)
    }

    pub fn new(secs: i64, nanos: u32) -> (r: Option<Timestamp>)
        ensures
            r is Some <==> representable(secs as int, nanos as int),
            r matches Some(t) ==> t@ == (secs as int, nanos as int),
    {
        if secs < MIN_SECS || secs > MAX_SECS || nanos >= 2_000_000_000 {
            return None;
        }
        // The range starts with a minute, so this is the second of the minute.
        let second: u64 = (secs - MIN_SECS) as u64 % 60;
        if nanos >= NANOS_PER_SEC && second != 59 {
            return None;
        }
        Some(Timestamp { secs, nanos })
    }

    pub fn secs(&self) -> (secs: i64)
        ensures
            secs == self@.0,
    {
        self.secs
    }

    pub fn nanos(&self) -> (nanos: u32)
        ensures
            nanos == self@.1,
    {
        self.nanos
    }

    /// Is this instant strictly earlier than `other`?
    pub fn precedes(&self, other: &Timestamp) -> (r: bool)
        ensures
            r == earlier(self@, other@),
    {
        self.secs < other.secs || (self.secs == other.secs && self.nanos < other.nanos)
    }

    /// Reads an RFC 3339 date and time; `None` where the text is none.
    pub fn parse_rfc3339(text: &str) -> (r: Option<Timestamp>)
        ensures
            r is Some <==> rfc3339_instant(text@) is Some,
            r matches Some(t) ==> rfc3339_instant(text@) == Some(t@),
    {
        match chrono_parse_rfc3339(text) {
            Some((secs, nanos)) => Some(Timestamp { secs, nanos }),
            None => None,
        }
    }

    /// The instant in RFC 3339, in UTC.
    pub fn to_rfc3339(&self) -> (text: String)
        ensures
            text@ == rfc3339_text(self@.0, self@.1),
            RFC3339_MIN_SECS <= self@.0 <= RFC3339_MAX_SECS ==> rfc3339_instant(text@) == Some(
                self@,
            ),
    {
        proof {
            use_type_invariant(self);
        }
        chrono_to_rfc3339(self.secs, self.nanos)
    }
}

/// What `chrono::DateTime::parse_from_rfc3339` reads in a text, in UTC: seconds
/// since 1970 and nanoseconds.
pub uninterp spec fn rfc3339_instant(text: Seq<char>) -> Option<(int, int)>;

/// What `chrono::DateTime::<Utc>::to_rfc3339` writes for an instant.
pub uninterp spec fn rfc3339_text(secs: int, nanos: int) -> Seq<char>;

/// `chrono::DateTime::parse_from_rfc3339`, with the result in UTC as seconds
/// and nanoseconds. The result depends on the text alone and is an instant that
/// chrono can represent.
#[verifier::external_body]
fn chrono_parse_rfc3339(text: &str) -> (r: Option<(i64, u32)>)
    ensures
        match r {
            Some((secs, nanos)) => {
                &&& rfc3339_instant(text@) == Some((secs as int, nanos as int))
                &&& representable(secs as int, nanos as int)
            },
            None => rfc3339_instant(text@) is None,
        },
{
    match chrono::DateTime::parse_from_rfc3339(text) {
        Ok(t) => {
            let utc = t.with_timezone(&chrono::Utc);
            Some((utc.timestamp(), utc.timestamp_subsec_nanos()))
        },
        Err(_) => None,
    }
}

/// `chrono::DateTime::<Utc>::to_rfc3339`. The text depends on the instant alone and
/// is never empty; where the year has the four digits that RFC 3339 asks for, chrono
/// reads the same instant back, since the text holds every nanosecond and a leap
/// second as second 60.
#[verifier::external_body]
fn chrono_to_rfc3339(secs: i64, nanos: u32) -> (text: String)
    requires
        representable(secs as int, nanos as int),
    ensures
        text@ == rfc3339_text(secs as int, nanos as int),
        text@.len() > 0,
        RFC3339_MIN_SECS <= secs <= RFC3339_MAX_SECS ==> rfc3339_instant(text@) == Some(
            (secs as int, nanos as int),
        ),
{
    chrono::DateTime::from_timestamp(secs, nanos).unwrap().to_rfc3339()
}

/// A reading of the system clock, which knows no leap seconds.
#[derive(Debug, Clone, Copy, PartialEq, Eq, Structural)]
pub struct Moment {
    secs: i64,
    nanos: u32,
}

impl View for Moment {
    type V = (int, int);

    /// Seconds since 1970, and nanoseconds.
    closed spec fn view(&self) -> (int, int) {
        (self.secs as int, self.nanos as int)
    }
}

/// Whole seconds in a number of nanoseconds, cut towards zero.
pub open spec fn whole_seconds(nanos: int) -> int {
    if nanos >= 0 {
        nanos / NANOS_PER_SEC as int
    } else {
        -(-nanos / NANOS_PER_SEC as int)
    }
}

/// Nanoseconds from the start of 1970 to an instant.
pub open spec fn total_nanos(m: (int, int)) -> int {
    m.0 * NANOS_PER_SEC + m.1
}

/// Whole seconds from `earlier` to `later`, negative where `later` comes first.
pub open spec fn elapsed(later: (int, int), earlier: (int, int)) -> int {
    whole_seconds(total_nanos(later) - total_nanos(earlier))
}

impl Moment {
    #[verifier::type_invariant]
    pub open spec fn wf(&self) -> bool {
        MIN_SECS <= self@.0 <= MAX_SECS && 0 <= self@.1 < NANOS_PER_SEC
    }

    pub fn new(secs: i64, nanos: u32) -> (r: Option<Moment>)
        ensures
            r is Some <==> MIN_SECS <= secs <= MAX_SECS && nanos < NANOS_PER_SEC,
            r matches Some(m) ==> m@ == (secs as int, nanos as int),
    {
        if secs < MIN_SECS || secs > MAX_SECS || nanos >= NANOS_PER_SEC {
            None
        } else {
            Some(Moment { secs, nanos })
        }
    }

    pub fn secs(&self) -> (secs: i64)
        ensures
            secs == self@.0,
    {
        self.secs
    }

    pub fn nanos(&self) -> (nanos: u32)
        ensures
            nanos == self@.1,
    {
        self.nanos
    }

    /// Is this the same instant as `other`?
    pub fn same(&self, other: &Moment) -> (r: bool)
        ensures
            r == (self@ == other@),
    {
        self.secs == other.secs && self.nanos == other.nanos
    }

    /// The instant in RFC 3339, in UTC.
    pub fn to_rfc3339(&self) -> (text: String)
        ensures
            text@ == rfc3339_text(self@.0, self@.1),
            text@.len() > 0,
            RFC3339_MIN_SECS <= self@.0 <= RFC3339_MAX_SECS ==> rfc3339_instant(text@) == Some(
                self@,
            ),
    {
        proof {
            use_type_invariant(self);
        }
        chrono_to_rfc3339(self.secs, self.nanos)
    }

    /// Whole seconds since `previous`, negative where `previous` is yet to come.
    pub fn elapsed_since(&self, previous: &Moment) -> (secs: i64)
        ensures
            secs == elapsed(self@, previous@),
    {
        proof {
            use_type_invariant(self);
            use_type_invariant(previous);
        }
        chrono_seconds_between(self.secs, self.nanos, previous.secs, previous.nanos)
    }
}

/// `chrono::DateTime::signed_duration_since` and the `TimeDelta::num_seconds` of
/// its result: on instants without leap seconds the difference, cut towards zero
/// to whole seconds.
#[verifier::external_body]
fn chrono_seconds_between(secs: i64, nanos: u32, previous_secs: i64, previous_nanos: u32) -> (r:
    i64)
    requires
        MIN_SECS <= secs <= MAX_SECS,
        MIN_SECS <= previous_secs <= MAX_SECS,
        nanos < NANOS_PER_SEC,
        previous_nanos < NANOS_PER_SEC,
    ensures
        r == elapsed(
            (secs as int, nanos as int),
            (previous_secs as int, previous_nanos as int),
        ),
{
    let now = chrono::DateTime::from_timestamp(secs, nanos).unwrap();
    let previous = chrono::DateTime::from_timestamp(previous_secs, previous_nanos).unwrap();
    now.signed_duration_since(previous).num_seconds()
}

// ---------------------------------------------------------------------------
// Time zones
// ---------------------------------------------------------------------------
/// Does `chrono_tz::Tz` parse from this name?
pub uninterp spec fn known_zone(name: Seq<char>) -> bool;

/// Seconds by which the local time of the named zone is ahead of UTC at `secs`
/// seconds after the start of 1970, as `chrono_tz` has it.
pub uninterp spec fn zone_offset(name: Seq<char>, secs: int) -> int;

/// The `FromStr` of `chrono_tz::Tz`, as a test of the name alone.
#[verifier::external_body]
fn tz_is_known(name: &str) -> (r: bool)
    ensures
        r == known_zone(name@),
{
    name.parse::<chrono_tz::Tz>().is_ok()
}

/// The offset that `chrono_tz::Tz::offset_from_utc_datetime` finds for an
/// instant. It depends on the zone's name and the second alone, and chrono's
/// `FixedOffset` keeps it under a day either way.
#[verifier::external_body]
fn tz_offset(name: &str, secs: i64) -> (offset: i32)
    requires
        known_zone(name@),
        MIN_SECS <= secs <= MAX_SECS,
    ensures
        offset == zone_offset(name@, secs as int),
        -86_400 < offset < 86_400,
{
    let zone = name.parse::<chrono_tz::Tz>().unwrap();
    let utc = chrono::DateTime::from_timestamp(secs, 0).unwrap().naive_utc();
    zone.offset_from_utc_datetime(&utc).fix().local_minus_utc()
}

/// Year, month, day, days from Monday, hour, minute and second that
/// `chrono::DateTime` shows for an instant at a fixed offset from UTC.
#[verifier::external_body]
fn chrono_fields(secs: i64, offset: i32) -> (r: (i32, u32, u32, u32, u32, u32, u32))
    requires
        MIN_SECS <= secs <= MAX_SECS,
        -86_400 < offset < 86_400,
    ensures
        1 <= r.1 <= 12,
        1 <= r.2 <= days_in_month(r.0 as int, r.1 as int),
        day_number(r.0 as int, r.1 as int, r.2 as int) == (secs + offset) / 86_400,
        r.3 == ((secs + offset) / 86_400 + 3) % 7,
        r.4 == (secs + offset) % 86_400 / 3_600,
        r.5 == (secs + offset) % 3_600 / 60,
        r.6 == (secs + offset) % 60,
{
    let zone = chrono::FixedOffset::east_opt(offset).unwrap();
    let t = chrono::DateTime::from_timestamp(secs, 0).unwrap().with_timezone(&zone);
    let weekday = t.weekday().num_days_from_monday();
    (t.year(), t.month(), t.day(), weekday, t.hour(), t.minute(), t.second())
}

/// A time zone of the IANA database, by its name.
#[derive(Debug)]
pub struct TimeZone {
    name: String,
}

impl View for TimeZone {
    type V = Seq<char>;

    closed spec fn view(&self) -> Seq<char> {
        self.name@
    }
}

impl TimeZone {
    #[verifier::type_invariant]
    pub open spec fn wf(&self) -> bool {
        known_zone(self@)
    }

    /// `None` where the database has no zone of that name.
    pub fn new(name: &str) -> (r: Option<TimeZone>)
        ensures
            r is Some <==> known_zone(name@),
            r matches Some(zone) ==> zone@ == name@,
    {
        if tz_is_known(name) {
            Some(TimeZone { name: name.to_owned() })
        } else {
            None
        }
    }

    pub fn name(&self) -> (name: &str)
        ensures
            name@ == self@,
    {
        self.name.as_str()
    }
}

impl Clone for TimeZone {
    fn clone(&self) -> (zone: Self)
        ensures
            zone@ == self@,
    {
        proof {
            use_type_invariant(self);
        }
        TimeZone { name: self.name.clone() }
    }
}

/// An instant together with what the clock and the calendar of a time zone show
/// at it.
#[derive(Debug, Clone, Copy)]
pub struct LocalTime {
    at: Moment,
    offset: i32,
    year: i32,
    month: u32,
    day: u32,
    weekday: Weekday,
    hour: u32,
    minute: u32,
    second: u32,
}

impl View for LocalTime {
    type V = Clock;

    closed spec fn view(&self) -> Clock {
        Clock {
            secs: self.at@.0,
            nanos: self.at@.1,
            offset: self.offset as int,
            year: self.year as int,
            month: self.month as int,
            day: self.day as int,
            weekday: self.weekday,
            hour: self.hour as int,
            minute: self.minute as int,
            second: self.second as int,
        }
    }
}

impl LocalTime {
    #[verifier::type_invariant]
    pub open spec fn wf(&self) -> bool {
        self@.valid()
    }

    /// The local time of `zone` at `at`.
    pub fn in_zone(at: Moment, zone: &TimeZone) -> (now: LocalTime)
        ensures
            now@.valid(),
            now@.secs == at@.0,
            now@.nanos == at@.1,
            now@.offset == zone_offset(zone@, at@.0),
    {
        proof {
            use_type_invariant(&at);
            use_type_invariant(zone);
        }
        LocalTime::at_offset(at, tz_offset(zone.name(), at.secs))
    }

    /// The local time at `at` where the clocks are `offset` seconds ahead of UTC.
    pub fn at_offset(at: Moment, offset: i32) -> (now: LocalTime)
        requires
            -86_400 < offset < 86_400,
        ensures
            now@.valid(),
            now@.secs == at@.0,
            now@.nanos == at@.1,
            now@.offset == offset,
    {
        proof {
            use_type_invariant(&at);
        }
        let (year, month, day, weekday, hour, minute, second) = chrono_fields(at.secs, offset);
        LocalTime {
            at,
            offset,
            year,
            month,
            day,
            weekday: Weekday::from_monday(weekday),
            hour,
            minute,
            second,
        }
    }

    pub fn at(&self) -> (at: Moment)
        ensures
            at@ == (self@.secs, self@.nanos),
    {
        self.at
    }

    pub fn day(&self) -> (day: u32)
        ensures
            day == self@.day,
    {
        self.day
    }

    pub fn weekday(&self) -> (weekday: Weekday)
        ensures
            weekday == self@.weekday,
    {
        self.weekday
    }

    pub fn hour(&self) -> (hour: u32)
        ensures
            hour == self@.hour,
    {
        self.hour
    }

    pub fn minute(&self) -> (minute: u32)
        ensures
            minute == self@.minute,
    {
        self.minute
    }

    pub fn second(&self) -> (second: u32)
        ensures
            second == self@.second,
    {
        self.second
    }
}

/// The instant at which the current local minute began.
pub fn truncate_to_minute(t: &LocalTime) -> (start: Moment)
    ensures
        start@ == t@.minute_start(),
{
    proof {
        use_type_invariant(t);
        use_type_invariant(&t.at);
    }
    let secs: i64 = t.at.secs - t.second as i64;
    if secs < MIN_SECS {
        t.at
    } else {
        Moment { secs, nanos: 0 }
    }
}

/// A length of time.
#[derive(Debug, Clone, Copy, PartialEq, Eq, Structural)]
pub struct Span {
    pub secs: u64,
    pub nanos: u32,
}

impl Span {
    /// The whole length in nanoseconds.
    pub open spec fn total(self) -> int {
        self.secs * NANOS_PER_SEC + self.nanos
    }

    pub fn from_secs(secs: u64) -> (span: Span)
        ensures
            span == (Span { secs, nanos: 0 }),
    {
        Span { secs, nanos: 0 }
    }

    pub fn as_secs(&self) -> (secs: u64)
        ensures
            secs == self.secs,
    {
        self.secs
    }
}

// ---------------------------------------------------------------------------
// What holds of every clock
// ---------------------------------------------------------------------------
/// The weekdays follow one another from Monday, the first, to Sunday, the seventh.
pub proof fn law_weekdays_follow_one_another(day: Weekday, other: Weekday)
    ensures
        Weekday::Mon.index() == 0,
        Weekday::Tue.index() == 1,
        Weekday::Wed.index() == 2,
        Weekday::Thu.index() == 3,
        Weekday::Fri.index() == 4,
        Weekday::Sat.index() == 5,
        Weekday::Sun.index() == 6,
        day.index() == other.index() ==> day == other,
{
}

/// The minute of a time starts at second zero of its local minute, on the second, at most
/// 59 seconds earlier. Where that is out of range the time itself stands for it.
pub proof fn law_minutes_start_on_the_minute(now: Clock)
    requires
        now.valid(),
    ensures
        ({
            let past = (now.secs + now.offset) % 60;
            &&& 0 <= past < 60
            &&& now.secs - past >= MIN_SECS ==> now.minute_start() == (now.secs - past, 0int)
            &&& now.secs - past < MIN_SECS ==> now.minute_start() == (now.secs, now.nanos)
        }),
{
}

/// An instant lies in the years from -262143 to 262142, and its second has a thousand
/// million nanoseconds, or twice as many where a leap second follows the end of a minute.
pub proof fn law_instants_lie_within_range(secs: int, nanos: int)
    ensures
        representable(secs, nanos) <==> {
            &&& -8_334_601_228_800 <= secs <= 8_210_266_876_799
            &&& 0 <= nanos < if secs % 60 == 59 {
                2_000_000_000int
            } else {
                1_000_000_000int
            }
        },
{
}

/// Of two instants that differ one is earlier, and it is the one with fewer seconds, or
/// with as many and fewer nanoseconds.
pub proof fn law_instants_are_ordered(a: (int, int), b: (int, int))
    ensures
        a == b || earlier(a, b) || earlier(b, a),
        earlier(a, b) ==> !earlier(b, a) && a.0 <= b.0,
        a.0 < b.0 ==> earlier(a, b),
        a.0 == b.0 ==> (earlier(a, b) <==> a.1 < b.1),
{
}

/// The seconds from one instant to another are the whole ones that have passed, and as
/// many the other way round, counted back.
pub proof fn law_elapsed_seconds_are_whole(later: (int, int), previous: (int, int))
    ensures
        ({
            let nanos = (later.0 - previous.0) * 1_000_000_000 + (later.1 - previous.1);
            let secs = elapsed(later, previous);
            &&& nanos >= 0 ==> secs * 1_000_000_000 <= nanos < (secs + 1) * 1_000_000_000
            &&& elapsed(previous, later) == -secs
        }),
{
}

} // verus!
