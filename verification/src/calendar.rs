//! Civil (wall-clock) dates and times, with the calendar arithmetic that
//! recurring tasks need: day counting, weekdays, and adding whole days.
//!
//! A `Timestamp` is a local calendar date plus a time of day and the UTC
//! offset that was in force, at one-second precision. The supported calendar
//! runs from 1970-01-01 through 9999-12-31; adding days saturates at the
//! upper end of that range.

use vstd::prelude::*;

use chrono::{Datelike, Timelike};

verus! {

/// A local calendar date and time of day, with the UTC offset in minutes.
#[derive(Clone, Copy, PartialEq, Eq, Structural, Debug)]
pub struct Timestamp {
    pub year: u32,
    pub month: u32,
    pub day: u32,
    pub hour: u32,
    pub minute: u32,
    pub second: u32,
    pub offset_min: i32,
}

pub open spec fn is_leap_year(y: int) -> bool {
    (y % 4 == 0 && y % 100 != 0) || y % 400 == 0
}

pub open spec fn spec_days_in_month(y: int, m: int) -> int {
    if m == 2 {
        if is_leap_year(y) {
            29
        } else {
            28
        }
    } else if m == 4 || m == 6 || m == 9 || m == 11 {
        30
    } else {
        31
    }
}

pub open spec fn valid_date(y: int, m: int, d: int) -> bool {
    &&& 1970 <= y <= 9999
    &&& 1 <= m <= 12
    &&& 1 <= d <= spec_days_in_month(y, m)
}

pub open spec fn ts_valid(t: Timestamp) -> bool {
    &&& valid_date(t.year as int, t.month as int, t.day as int)
    &&& t.hour < 24
    &&& t.minute < 60
    &&& t.second < 60
    &&& -1440 < t.offset_min < 1440
}

/// Days in all years from 1970 (inclusive) up to `y` (exclusive).
pub open spec fn days_before_year(y: int) -> int
    decreases y,
{
    if y <= 1970 {
        0
    } else {
        days_before_year(y - 1) + if is_leap_year(y - 1) {
            366int
        } else {
            365int
        }
    }
}

/// Days in all months of year `y` before month `m`.
pub open spec fn days_before_month(y: int, m: int) -> int
    decreases m,
{
    if m <= 1 {
        0
    } else {
        days_before_month(y, m - 1) + spec_days_in_month(y, m - 1)
    }
}

/// Days elapsed since 1970-01-01 (which is day 0).
pub open spec fn day_number(y: int, m: int, d: int) -> int {
    days_before_year(y) + days_before_month(y, m) + d - 1
}

pub open spec fn ts_day_number(t: Timestamp) -> int {
    day_number(t.year as int, t.month as int, t.day as int)
}

/// Day of the week, with Monday = 0 through Sunday = 6.
/// 1970-01-01 (day 0) was a Thursday, hence the shift by 3.
pub open spec fn spec_weekday(y: int, m: int, d: int) -> int {
    (day_number(y, m, d) + 3) % 7
}

pub proof fn lemma_days_before_year_bound(y: int)
    requires
        1970 <= y,
    ensures
        0 <= days_before_year(y) <= 366 * (y - 1970),
    decreases y,
{
    if y > 1970 {
        lemma_days_before_year_bound(y - 1);
    }
}

pub proof fn lemma_days_before_month_bound(y: int, m: int)
    requires
        1 <= m <= 13,
    ensures
        0 <= days_before_month(y, m) <= 31 * (m - 1),
    decreases m,
{
    if m > 1 {
        lemma_days_before_month_bound(y, m - 1);
    }
}

pub fn leap_year(y: u32) -> (r: bool)
    ensures
        r == is_leap_year(y as int),
{
    (y % 4 == 0 && y % 100 != 0) || y % 400 == 0
}

pub fn days_in_month(y: u32, m: u32) -> (r: u32)
    requires
        1 <= m <= 12,
    ensures
        r as int == spec_days_in_month(y as int, m as int),
        28 <= r <= 31,
{
    if m == 2 {
        if leap_year(y) {
            29
        } else {
            28
        }
    } else if m == 4 || m == 6 || m == 9 || m == 11 {
        30
    } else {
        31
    }
}

/// Days elapsed since 1970-01-01, computed by summing whole years and months.
pub fn day_number_of(y: u32, m: u32, d: u32) -> (n: u32)
    requires
        valid_date(y as int, m as int, d as int),
    ensures
        n as int == day_number(y as int, m as int, d as int),
{
    let mut acc: u32 = 0;
    let mut yy: u32 = 1970;
    while yy < y
        invariant
            1970 <= yy <= y <= 9999,
            acc as int == days_before_year(yy as int),
        decreases y - yy,
    {
        proof {
            lemma_days_before_year_bound(yy as int);
        }
        acc = acc + if leap_year(yy) {
            366
        } else {
            365
        };
        yy = yy + 1;
    }
    proof {
        lemma_days_before_year_bound(y as int);
    }
    let mut mm: u32 = 1;
    while mm < m
        invariant
            1 <= mm <= m <= 12,
            1970 <= y <= 9999,
            acc as int == days_before_year(y as int) + days_before_month(y as int, mm as int),
            days_before_year(y as int) <= 366 * (y - 1970),
        decreases m - mm,
    {
        proof {
            lemma_days_before_month_bound(y as int, mm as int);
        }
        acc = acc + days_in_month(y, mm);
        mm = mm + 1;
    }
    proof {
        lemma_days_before_month_bound(y as int, m as int);
    }
    acc + (d - 1)
}

/// Day of the week, with Monday = 0 through Sunday = 6.
pub fn weekday_of(y: u32, m: u32, d: u32) -> (w: u32)
    requires
        valid_date(y as int, m as int, d as int),
    ensures
        w as int == spec_weekday(y as int, m as int, d as int),
        w < 7,
{
    proof {
        lemma_days_before_year_bound(y as int);
        lemma_days_before_month_bound(y as int, m as int);
    }
    let n = day_number_of(y, m, d);
    (n + 3) % 7
}

/// The calendar date after `(y, m, d)`. The last supported date has no
/// successor; callers saturate there instead.
pub open spec fn spec_next_date(y: int, m: int, d: int) -> (int, int, int) {
    if d < spec_days_in_month(y, m) {
        (y, m, d + 1)
    } else if m < 12 {
        (y, m + 1, 1)
    } else {
        (y + 1, 1, 1)
    }
}

pub open spec fn is_last_date(y: int, m: int, d: int) -> bool {
    y == 9999 && m == 12 && d == 31
}

/// `n` days after `(y, m, d)`, saturating at 9999-12-31.
pub open spec fn spec_add_days(y: int, m: int, d: int, n: nat) -> (int, int, int)
    decreases n,
{
    if n == 0 || is_last_date(y, m, d) {
        (y, m, d)
    } else {
        let (y2, m2, d2) = spec_next_date(y, m, d);
        spec_add_days(y2, m2, d2, (n - 1) as nat)
    }
}

pub proof fn lemma_next_date_valid(y: int, m: int, d: int)
    requires
        valid_date(y, m, d),
        !is_last_date(y, m, d),
    ensures
        ({
            let (y2, m2, d2) = spec_next_date(y, m, d);
            valid_date(y2, m2, d2) && day_number(y2, m2, d2) == day_number(y, m, d) + 1
        }),
{
    if d < spec_days_in_month(y, m) {
    } else if m < 12 {
        assert(days_before_month(y, m + 1) == days_before_month(y, m) + spec_days_in_month(y, m));
    } else {
        assert(days_before_month(y, 13) == if is_leap_year(y) {
            366int
        } else {
            365int
        }) by {
            reveal_with_fuel(days_before_month, 14);
        }
        assert(days_before_year(y + 1) == days_before_year(y) + if is_leap_year(y) {
            366int
        } else {
            365int
        });
        assert(days_before_month(y + 1, 1) == 0);
    }
}

pub proof fn lemma_add_days_valid(y: int, m: int, d: int, n: nat)
    requires
        valid_date(y, m, d),
    ensures
        ({
            let (y2, m2, d2) = spec_add_days(y, m, d, n);
            valid_date(y2, m2, d2) && day_number(y, m, d) <= day_number(y2, m2, d2)
                <= day_number(y, m, d) + n
        }),
    decreases n,
{
    if n == 0 || is_last_date(y, m, d) {
    } else {
        lemma_next_date_valid(y, m, d);
        let (y2, m2, d2) = spec_next_date(y, m, d);
        lemma_add_days_valid(y2, m2, d2, (n - 1) as nat);
    }
}

pub fn next_date(y: u32, m: u32, d: u32) -> (r: (u32, u32, u32))
    requires
        valid_date(y as int, m as int, d as int),
        !is_last_date(y as int, m as int, d as int),
    ensures
        (r.0 as int, r.1 as int, r.2 as int) == spec_next_date(y as int, m as int, d as int),
        valid_date(r.0 as int, r.1 as int, r.2 as int),
        day_number(r.0 as int, r.1 as int, r.2 as int) == day_number(y as int, m as int, d as int)
            + 1,
{
    proof {
        lemma_next_date_valid(y as int, m as int, d as int);
    }
    if d < days_in_month(y, m) {
        (y, m, d + 1)
    } else if m < 12 {
        (y, m + 1, 1)
    } else {
        (y + 1, 1, 1)
    }
}

/// The date of `t` moved forward by `n` days, saturating at 9999-12-31;
/// the time of day and the offset are kept.
pub open spec fn spec_ts_add_days(t: Timestamp, n: nat) -> Timestamp {
    let (y2, m2, d2) = spec_add_days(t.year as int, t.month as int, t.day as int, n);
    Timestamp { year: y2 as u32, month: m2 as u32, day: d2 as u32, ..t }
}

/// Moves the date of `t` forward by `n` days, saturating at 9999-12-31;
/// the time of day and the offset are kept.
pub fn ts_add_days(t: Timestamp, n: u32) -> (r: Timestamp)
    requires
        ts_valid(t),
    ensures
        ts_valid(r),
        r == spec_ts_add_days(t, n as nat),
{
    let mut y: u32 = t.year;
    let mut m: u32 = t.month;
    let mut d: u32 = t.day;
    let mut i: u32 = 0;
    while i < n
        invariant
            i <= n,
            valid_date(y as int, m as int, d as int),
            spec_add_days(y as int, m as int, d as int, (n - i) as nat) == spec_add_days(
                t.year as int,
                t.month as int,
                t.day as int,
                n as nat,
            ),
        decreases n - i,
    {
        if y == 9999 && m == 12 && d == 31 {
            i = n;
        } else {
            let (y2, m2, d2) = next_date(y, m, d);
            y = y2;
            m = m2;
            d = d2;
            i = i + 1;
        }
    }
    proof {
        lemma_add_days_valid(t.year as int, t.month as int, t.day as int, n as nat);
    }
    Timestamp { year: y, month: m, day: d, ..t }
}

/// The instant a timestamp names, in seconds since the epoch: the wall
/// clock converted to a day-and-second count, then shifted back by the UTC
/// offset that was in force.
pub open spec fn spec_instant_seconds(t: Timestamp) -> int {
    day_number(t.year as int, t.month as int, t.day as int) * 86400 + t.hour * 3600 + t.minute * 60
        + t.second - t.offset_min * 60
}

/// Whether `a` names a strictly earlier instant than `b`; two wall clocks
/// with different UTC offsets compare as instants, not as displayed text.
pub open spec fn spec_ts_before(a: Timestamp, b: Timestamp) -> bool {
    spec_instant_seconds(a) < spec_instant_seconds(b)
}

/// Seconds since the epoch of the instant `t` names.
pub fn instant_seconds(t: &Timestamp) -> (r: i64)
    requires
        ts_valid(*t),
    ensures
        r as int == spec_instant_seconds(*t),
{
    proof {
        lemma_days_before_year_bound(t.year as int);
        lemma_days_before_month_bound(t.year as int, t.month as int);
    }
    let n = day_number_of(t.year, t.month, t.day);
    (n as i64) * 86400 + (t.hour as i64) * 3600 + (t.minute as i64) * 60 + (t.second as i64) - (
    t.offset_min as i64) * 60
}

pub fn ts_before(a: &Timestamp, b: &Timestamp) -> (r: bool)
    requires
        ts_valid(*a),
        ts_valid(*b),
    ensures
        r == spec_ts_before(*a, *b),
{
    instant_seconds(a) < instant_seconds(b)
}

/// Whether `a` and `b` fall on the same calendar date.
pub open spec fn spec_same_date(a: Timestamp, b: Timestamp) -> bool {
    a.year == b.year && a.month == b.month && a.day == b.day
}

pub fn same_date(a: &Timestamp, b: &Timestamp) -> (r: bool)
    ensures
        r == spec_same_date(*a, *b),
{
    a.year == b.year && a.month == b.month && a.day == b.day
}

/// Builds a `Timestamp` from raw parts, checking every range; `None` exactly
/// when the parts do not name a supported calendar date and time.
pub fn timestamp_from_parts(
    year: i32,
    month: u32,
    day: u32,
    hour: u32,
    minute: u32,
    second: u32,
    offset_sec: i32,
) -> (r: Option<Timestamp>)
    ensures
        match r {
            Some(t) => {
                &&& ts_valid(t)
                &&& t.year == year
                &&& t.month == month
                &&& t.day == day
                &&& t.hour == hour
                &&& t.minute == minute
                &&& t.second == second
                &&& t.offset_min as int == offset_sec as int / 60 || t.offset_min as int == -((
                -offset_sec) as int / 60)
            },
            None => !(1970 <= year <= 9999 && 1 <= month <= 12 && 1 <= day
                <= spec_days_in_month(year as int, month as int) && hour < 24 && minute < 60
                && second < 60 && -86400 < offset_sec < 86400),
        },
{
    if !(1970 <= year && year <= 9999) {
        return None;
    }
    let y = year as u32;
    if !(1 <= month && month <= 12) {
        return None;
    }
    if !(1 <= day && day <= days_in_month(y, month)) {
        return None;
    }
    if !(hour < 24 && minute < 60 && second < 60) {
        return None;
    }
    if !(-86400 < offset_sec && offset_sec < 86400) {
        return None;
    }
    let offset_min: i32 = if offset_sec >= 0 {
        offset_sec / 60
    } else {
        -((-offset_sec) / 60)
    };
    Some(
        Timestamp {
            year: y,
            month,
            day,
            hour,
            minute,
            second,
            offset_min,
        },
    )
}

/// Relies on `chrono::Local::now` with the `Datelike`/`Timelike` accessors
/// and `FixedOffset::local_minus_utc` for the current local wall-clock time:
/// the month is in 1..=12, the day in 1..=31, the hour below 24, the minute
/// and second below 60, and the local offset strictly within one day of UTC.
/// Note that `chrono::Utc::now` itself panics when the system clock is set
/// before the Unix epoch; no `requires` can name that machine state.
#[verifier::external_body]
pub fn now_parts() -> (r: (i32, u32, u32, u32, u32, u32, i32))
    ensures
        1 <= r.1 <= 12,
        1 <= r.2 <= 31,
        r.3 < 24,
        r.4 < 60,
        r.5 < 60,
        -86400 < r.6 < 86400,
{
    let now = chrono::Local::now();
    (
        now.year(),
        now.month(),
        now.day(),
        now.hour(),
        now.minute(),
        now.second(),
        now.offset().local_minus_utc(),
    )
}

} // verus!
