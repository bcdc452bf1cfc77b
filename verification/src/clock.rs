//! Wall-clock time, the machine's UTC offset, fresh ids, and the calendar
//! (through the `time` crate) that the date labels are built from.
//!
//! A local date-time is read off a Unix timestamp the way
//! `OffsetDateTime::from_unix_timestamp(..).to_offset(..)` does: whole days
//! since the epoch give the Julian day, which the `time` crate turns into a
//! calendar date, and the seconds within the day give the time of day.

use crate::text::{padded, push_all, string_of, zero_pad};
use vstd::prelude::*;

verus! {

// ---------------------------------------------------------------------------
// Now, the offset, ids
// ---------------------------------------------------------------------------

/// `SystemTime::now().duration_since(UNIX_EPOCH)`, in whole seconds; `None`
/// when the clock reads before the epoch. The value depends on the clock,
/// so nothing is stated of it.
#[verifier::external_body]
fn system_seconds() -> (r: Option<u64>) {
    match std::time::SystemTime::now().duration_since(std::time::UNIX_EPOCH) {
        Ok(d) => Some(d.as_secs()),
        Err(_) => None,
    }
}

/// Seconds since the Unix epoch, or 0 when the clock reads before it.
pub fn unix_now() -> (r: i64) {
    match system_seconds() {
        Some(s) => {
            #[verifier::truncate]
            let r = s as i64;
            r
        },
        None => 0,
    }
}

/// `uuid::Uuid::new_v4().to_string()`: a random (version 4) UUID in its
/// hyphenated text form. Random, so nothing is stated of the value.
#[verifier::external_body]
pub(crate) fn new_id() -> (id: String) {
    uuid::Uuid::new_v4().to_string()
}

/// `time::UtcOffset::current_local_offset()` in whole seconds, or 0 (UTC)
/// when the local offset cannot be determined. The value depends on the
/// machine; only the range of a `UtcOffset` (±25:59:59) is stated.
#[verifier::external_body]
pub(crate) fn local_offset_seconds() -> (r: i32)
    ensures
        -93599 <= r <= 93599,
{
    match time::UtcOffset::current_local_offset() {
        Ok(o) => o.whole_seconds(),
        Err(_) => 0,
    }
}

/// The current instant and the machine's UTC offset, read together.
#[derive(Clone, Copy, Debug)]
pub struct LocalClock {
    pub now: i64,
    pub offset: i32,
}

impl LocalClock {
    pub open spec fn wf(&self) -> bool {
        -93599 <= self.offset <= 93599
    }
}

/// Reads the clock and the local offset.
pub fn local_clock() -> (c: LocalClock)
    ensures
        c.wf(),
{
    LocalClock { now: unix_now(), offset: local_offset_seconds() }
}

// ---------------------------------------------------------------------------
// The calendar
// ---------------------------------------------------------------------------

/// Julian day of -9999-01-01, the first date the `time` crate represents.
pub const MIN_JULIAN: i32 = -1930999;

/// Julian day of 9999-12-31, the last date the `time` crate represents.
pub const MAX_JULIAN: i32 = 5373484;

/// Julian day of 1970-01-01.
pub const EPOCH_JULIAN: i64 = 2440588;

/// Gregorian leap years.
pub open spec fn is_leap(y: int) -> bool {
    y % 4 == 0 && (y % 100 != 0 || y % 400 == 0)
}

pub open spec fn days_in_month(y: int, m: int) -> int {
    if m == 2 {
        if is_leap(y) { 29 } else { 28 }
    } else if m == 4 || m == 6 || m == 9 || m == 11 {
        30
    } else {
        31
    }
}

/// A date the `time` crate accepts: year within ±9999, a month, and a day
/// of that month.
pub open spec fn valid_date(y: int, m: int, d: int) -> bool {
    &&& -9999 <= y <= 9999
    &&& 1 <= m <= 12
    &&& 1 <= d <= days_in_month(y, m)
}

/// Days of year `y` before the first of month `m`: the cumulative month
/// table of the Gregorian calendar, one day more from March in leap years.
pub open spec fn days_before_month(y: int, m: int) -> int {
    let common: int = if m <= 1 {
        0
    } else if m == 2 {
        31
    } else if m == 3 {
        59
    } else if m == 4 {
        90
    } else if m == 5 {
        120
    } else if m == 6 {
        151
    } else if m == 7 {
        181
    } else if m == 8 {
        212
    } else if m == 9 {
        243
    } else if m == 10 {
        273
    } else if m == 11 {
        304
    } else {
        334
    };
    if m > 2 && is_leap(y) {
        common + 1
    } else {
        common
    }
}

/// Days before year `y`, counted from a year shifted by 999 999 so that the
/// count stays non-negative: 365 a day-year, plus the leap days.
pub open spec fn days_before_year(y: int) -> int {
    let a = y + 999_999;
    let c = a / 100;
    1461 * a / 4 - c + c / 4
}

/// `Date::from_calendar_date(y, m, d).to_julian_day()`: the days before
/// the year, plus the day of the year, shifted so that 2000-01-01 is day
/// 2 451 545.
#[verifier::opaque]
pub open spec fn spec_julian_of(y: int, m: int, d: int) -> int {
    days_before_year(y) + days_before_month(y, m) + d - 363_521_075
}

/// `Date::from_julian_day(jd)` as (year, month, day): the valid date whose
/// Julian day is `jd`.
#[verifier::opaque]
pub open spec fn spec_date_of_julian(jd: int) -> (int, int, int) {
    choose|t: (int, int, int)| valid_date(t.0, t.1, t.2) && spec_julian_of(t.0, t.1, t.2) == jd
}

proof fn lemma_year_length(y: int)
    requires
        -9999 <= y <= 9999,
    ensures
        days_before_year(y + 1) == days_before_year(y) + if is_leap(y) { 366int } else { 365int },
{
}

proof fn lemma_years_increase(y1: int, y2: int)
    requires
        -9999 <= y1 < y2 <= 10000,
    ensures
        days_before_year(y1 + 1) <= days_before_year(y2),
    decreases y2 - y1,
{
    if y2 > y1 + 1 {
        lemma_years_increase(y1, y2 - 1);
        lemma_year_length(y2 - 1);
    }
}

proof fn lemma_day_of_year(y: int, m: int, d: int)
    requires
        valid_date(y, m, d),
    ensures
        1 <= days_before_month(y, m) + d <= if is_leap(y) { 366int } else { 365int },
{
}

proof fn lemma_day_of_year_unique(y: int, m1: int, d1: int, m2: int, d2: int)
    requires
        valid_date(y, m1, d1),
        valid_date(y, m2, d2),
        days_before_month(y, m1) + d1 == days_before_month(y, m2) + d2,
    ensures
        m1 == m2 && d1 == d2,
{
}

/// Two valid dates with the same Julian day are the same date.
pub proof fn lemma_julian_unique(y1: int, m1: int, d1: int, y2: int, m2: int, d2: int)
    requires
        valid_date(y1, m1, d1),
        valid_date(y2, m2, d2),
        spec_julian_of(y1, m1, d1) == spec_julian_of(y2, m2, d2),
    ensures
        y1 == y2 && m1 == m2 && d1 == d2,
{
    reveal(spec_julian_of);
    lemma_day_of_year(y1, m1, d1);
    lemma_day_of_year(y2, m2, d2);
    if y1 < y2 {
        lemma_year_length(y1);
        lemma_years_increase(y1, y2);
    } else if y2 < y1 {
        lemma_year_length(y2);
        lemma_years_increase(y2, y1);
    } else {
        lemma_day_of_year_unique(y1, m1, d1, m2, d2);
    }
}

/// The Julian day of a valid date lies in the range the calendar holds.
pub proof fn lemma_julian_range(y: int, m: int, d: int)
    requires
        valid_date(y, m, d),
    ensures
        MIN_JULIAN <= spec_julian_of(y, m, d) <= MAX_JULIAN,
{
    reveal(spec_julian_of);
    lemma_day_of_year(y, m, d);
    lemma_year_length(y);
    lemma_year_length(-9999);
    if y > -9999 {
        lemma_years_increase(-9999, y);
    }
    if y < 9999 {
        lemma_years_increase(y, 10000);
    }
    assert(days_before_year(-9999) == 361590075);
    assert(days_before_year(10000) == 368894559);
}

/// The date of a valid date's Julian day is that date.
pub proof fn lemma_date_of_julian_of(y: int, m: int, d: int)
    requires
        valid_date(y, m, d),
    ensures
        spec_date_of_julian(spec_julian_of(y, m, d)) == (y, m, d),
{
    reveal(spec_date_of_julian);
    let j = spec_julian_of(y, m, d);
    let w = (y, m, d);
    assert(valid_date(w.0, w.1, w.2) && spec_julian_of(w.0, w.1, w.2) == j);
    let t = spec_date_of_julian(j);
    lemma_julian_unique(t.0, t.1, t.2, y, m, d);
}

/// `time::Date::from_julian_day`: the calendar date of a Julian day. It
/// exists exactly for the days of years ±9999; it is a valid date, and
/// `Date::to_julian_day` of it gives the day back.
#[verifier::external_body]
pub(crate) fn date_of_julian(jd: i32) -> (r: Option<(i32, u8, u8)>)
    ensures
        r is Some <==> MIN_JULIAN <= jd <= MAX_JULIAN,
        r matches Some(t) ==> (t.0 as int, t.1 as int, t.2 as int) == spec_date_of_julian(jd as int),
        r matches Some(t) ==> valid_date(t.0 as int, t.1 as int, t.2 as int),
        r matches Some(t) ==> spec_julian_of(t.0 as int, t.1 as int, t.2 as int) == jd as int,
{
    match time::Date::from_julian_day(jd) {
        Ok(d) => Some((d.year(), u8::from(d.month()), d.day())),
        Err(_) => None,
    }
}

/// `time::Date::from_calendar_date(y, m, d)` then `to_julian_day`: defined
/// exactly for valid dates, and then the day `spec_julian_of` computes (the
/// cumulative month table and the shifted day count of `to_julian_day`),
/// a day of the representable range.
#[verifier::external_body]
pub(crate) fn julian_of_date(y: i32, m: u8, d: u8) -> (r: Option<i32>)
    ensures
        r is Some <==> valid_date(y as int, m as int, d as int),
        r matches Some(j) ==> j as int == spec_julian_of(y as int, m as int, d as int),
        r matches Some(j) ==> MIN_JULIAN <= j <= MAX_JULIAN,
{
    let month = match time::Month::try_from(m) {
        Ok(month) => month,
        Err(_) => return None,
    };
    match time::Date::from_calendar_date(y, month, d) {
        Ok(date) => Some(date.to_julian_day()),
        Err(_) => None,
    }
}

/// A local date and time of day.
#[derive(Clone, Copy, Debug, PartialEq, Eq, Structural)]
pub struct LocalTime {
    pub year: i32,
    pub month: u8,
    pub day: u8,
    pub hour: u8,
    pub minute: u8,
    pub second: u8,
    /// The date's Julian day.
    pub julian: i32,
}

/// First and last Unix timestamps the `time` crate represents.
pub open spec fn min_ts() -> int {
    (MIN_JULIAN - EPOCH_JULIAN) * 86400
}

pub open spec fn max_ts() -> int {
    (MAX_JULIAN - EPOCH_JULIAN) * 86400 + 86399
}

/// The local date and time of `ts` at UTC offset `off` (seconds east):
/// `None` when `ts` or the local date falls outside the representable range.
pub open spec fn local_time_spec(ts: int, off: int) -> Option<LocalTime> {
    let t = ts + off;
    let jd = EPOCH_JULIAN + t / 86400;
    let sod = t % 86400;
    if ts < min_ts() || ts > max_ts() || jd < MIN_JULIAN || jd > MAX_JULIAN {
        None
    } else {
        let (y, m, d) = spec_date_of_julian(jd);
        Some(
            LocalTime {
                year: y as i32,
                month: m as u8,
                day: d as u8,
                hour: (sod / 3600) as u8,
                minute: (sod % 3600 / 60) as u8,
                second: (sod % 60) as u8,
                julian: jd as i32,
            },
        )
    }
}

/// A local time the calendar yields: a valid date whose Julian day is
/// `julian`, and a time of day.
pub open spec fn calendar_time(l: LocalTime) -> bool {
    &&& valid_date(l.year as int, l.month as int, l.day as int)
    &&& spec_julian_of(l.year as int, l.month as int, l.day as int) == l.julian as int
    &&& l.hour < 24 && l.minute < 60 && l.second < 60
}

/// Reads the local date and time of `ts` at UTC offset `offset`.
pub fn local_time(ts: i64, offset: i32) -> (r: Option<LocalTime>)
    requires
        -93599 <= offset <= 93599,
    ensures
        r == local_time_spec(ts as int, offset as int),
        r matches Some(l) ==> calendar_time(l),
{
    let lo: i64 = -377705116800;
    let hi: i64 = 253402300799;
    assert(lo == min_ts() && hi == max_ts());
    if ts < lo || ts > hi {
        return None;
    }
    let t: i64 = ts + offset as i64;
    let shift: i64 = 432000000000;
    let u: i64 = t + shift;
    assert(u >= 0);
    let days_shifted: i64 = u / 86400;
    let sod: i64 = u % 86400;
    proof {
        assert(u / 86400 == t / 86400 + 5000000) by (nonlinear_arith)
            requires
                u == t + 432000000000,
        ;
        assert(u % 86400 == t % 86400) by (nonlinear_arith)
            requires
                u == t + 432000000000,
        ;
    }
    let jd: i64 = EPOCH_JULIAN + (days_shifted - 5000000);
    if jd < MIN_JULIAN as i64 || jd > MAX_JULIAN as i64 {
        return None;
    }
    let (y, m, d) = match date_of_julian(jd as i32) {
        Some(date) => date,
        None => return None,
    };
    Some(
        LocalTime {
            year: y,
            month: m,
            day: d,
            hour: (sod / 3600) as u8,
            minute: (sod % 3600 / 60) as u8,
            second: (sod % 60) as u8,
            julian: jd as i32,
        },
    )
}

/// The Unix timestamp of a valid local date and time at UTC offset `off`:
/// what `PrimitiveDateTime::assume_offset(..).unix_timestamp()` yields.
pub open spec fn timestamp_of(julian: int, hour: int, minute: int, second: int, off: int) -> int {
    (julian - EPOCH_JULIAN) * 86400 + hour * 3600 + minute * 60 + second - off
}

/// Reading a timestamp and assembling it back yields the timestamp.
pub proof fn lemma_local_time_roundtrip(ts: int, off: int)
    requires
        local_time_spec(ts, off) is Some,
    ensures
        ({
            let l = local_time_spec(ts, off)->0;
            timestamp_of(l.julian as int, l.hour as int, l.minute as int, l.second as int, off) == ts
        }),
{
    let t = ts + off;
    let sod = t % 86400;
    vstd::arithmetic::div_mod::lemma_fundamental_div_mod(t, 86400);
    assert(sod == (sod / 3600) * 3600 + (sod % 3600 / 60) * 60 + sod % 60) by (nonlinear_arith)
        requires
            0 <= sod < 86400,
    ;
    assert(0 <= sod / 3600 < 24 && 0 <= sod % 3600 / 60 < 60 && 0 <= sod % 60 < 60) by (nonlinear_arith)
        requires
            0 <= sod < 86400,
    ;
}

// ---------------------------------------------------------------------------
// RFC 3339
// ---------------------------------------------------------------------------

/// `OffsetDateTime::from_unix_timestamp(secs)` formatted as RFC 3339: the
/// UTC date and time as `YYYY-MM-DDTHH:MM:SSZ` (a whole second, so no
/// fraction); none outside the calendar or outside the years 0 to 9999,
/// which the format cannot write.
#[verifier::opaque]
pub open spec fn spec_rfc3339(secs: int) -> Option<Seq<char>> {
    match local_time_spec(secs, 0) {
        None => None,
        Some(l) => if 0 <= l.year <= 9999 {
            Some(
                zero_pad(l.year as int, 4) + seq!['-'] + zero_pad(l.month as int, 2) + seq!['-'] + zero_pad(
                    l.day as int,
                    2,
                ) + seq!['T'] + zero_pad(l.hour as int, 2) + seq![':'] + zero_pad(l.minute as int, 2) + seq![':']
                    + zero_pad(l.second as int, 2) + seq!['Z'],
            )
        } else {
            None
        },
    }
}

/// `OffsetDateTime::parse(s, &Rfc3339)`, as the Unix timestamp of the
/// instant it denotes.
pub uninterp spec fn spec_rfc3339_instant(s: Seq<char>) -> Option<int>;

/// `time::OffsetDateTime::from_unix_timestamp(secs)` then
/// `format(&Rfc3339)`; `None` when either step fails. The text is
/// `spec_rfc3339` of the timestamp.
#[verifier::external_body]
pub(crate) fn rfc3339_utc(secs: i64) -> (r: Option<String>)
    ensures
        opt_seq(r) == spec_rfc3339(secs as int),
{
    match time::OffsetDateTime::from_unix_timestamp(secs) {
        Ok(t) => match t.format(&time::format_description::well_known::Rfc3339) {
            Ok(s) => Some(s),
            Err(_) => None,
        },
        Err(_) => None,
    }
}

/// `time::OffsetDateTime::parse(s, &Rfc3339)` then `unix_timestamp`; `None`
/// when the text is not RFC 3339. Named by `spec_rfc3339_instant`.
#[verifier::external_body]
pub(crate) fn rfc3339_instant(s: &str) -> (r: Option<i64>)
    ensures
        (match r {
            Some(t) => Some(t as int),
            None => None,
        }) == spec_rfc3339_instant(s@),
{
    match time::OffsetDateTime::parse(s, &time::format_description::well_known::Rfc3339) {
        Ok(t) => Some(t.unix_timestamp()),
        Err(_) => None,
    }
}

pub open spec fn opt_seq(o: Option<String>) -> Option<Seq<char>> {
    match o {
        Some(s) => Some(s@),
        None => None,
    }
}

// ---------------------------------------------------------------------------
// Day keys
// ---------------------------------------------------------------------------

/// `format!("{:04}-{:02}-{:02}", year, month, day)`: the day key the usage
/// reports group by; for years 0 to 9999 its text order is the date order.
pub open spec fn date_key(y: int, m: int, d: int) -> Seq<char> {
    zero_pad(y, 4) + seq!['-'] + zero_pad(m, 2) + seq!['-'] + zero_pad(d, 2)
}

/// The day key of a date.
pub fn date_key_string(y: i32, m: u8, d: u8) -> (s: String)
    ensures
        s@ == date_key(y as int, m as int, d as int),
{
    let mut v = padded(y as i64, 4);
    v.push('-');
    let mm = padded(m as i64, 2);
    push_all(&mut v, mm.as_slice());
    v.push('-');
    let dd = padded(d as i64, 2);
    push_all(&mut v, dd.as_slice());
    string_of(v.as_slice())
}

} // verus!
