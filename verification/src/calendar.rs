//! The proleptic Gregorian calendar model used by every schedule: a
//! second-precision local date-time and the weekday of a date.

use chrono::Datelike;
use vstd::prelude::*;

verus! {

/// First year that the calendar supports.
pub const MIN_YEAR: i32 = -262143;

/// Last year that the calendar supports.
pub const MAX_YEAR: i32 = 262142;

/// Day number (January 1 of year 1 is day 1) of January 1 of `MIN_YEAR`.
pub const MIN_DAY: i32 = -95746129;

/// Day number of December 31 of `MAX_YEAR`.
pub const MAX_DAY: i32 = 95745399;

/// Number of seconds in a calendar day.
pub const SECS_PER_DAY: u64 = 86400;

/// Largest tick value: the last second of `MAX_DAY`.
pub const MAX_TICKS: u64 = 16544868105599;

pub open spec fn is_leap_year(y: int) -> bool {
    y % 4 == 0 && (y % 100 != 0 || y % 400 == 0)
}

pub open spec fn days_in_month(y: int, m: int) -> int {
    if m == 2 {
        if is_leap_year(y) { 29 } else { 28 }
    } else if m == 4 || m == 6 || m == 9 || m == 11 {
        30
    } else {
        31
    }
}

/// A year/month/day triple names a date of the supported calendar.
pub open spec fn valid_ymd(y: int, m: int, d: int) -> bool {
    &&& MIN_YEAR <= y <= MAX_YEAR
    &&& 1 <= m <= 12
    &&& 1 <= d <= days_in_month(y, m)
}

/// Days of the year that precede the first day of month `m`.
pub open spec fn days_before_month(y: int, m: int) -> int {
    let base: int = if m == 1 { 0 }
        else if m == 2 { 31 }
        else if m == 3 { 59 }
        else if m == 4 { 90 }
        else if m == 5 { 120 }
        else if m == 6 { 151 }
        else if m == 7 { 181 }
        else if m == 8 { 212 }
        else if m == 9 { 243 }
        else if m == 10 { 273 }
        else if m == 11 { 304 }
        else { 334 };
    if m > 2 && is_leap_year(y) { base + 1 } else { base }
}

/// Number of a date in the proleptic Gregorian calendar, January 1 of
/// year 1 being day 1.
pub open spec fn days_from_ce(y: int, m: int, d: int) -> int {
    let p = y - 1;
    365 * p + p / 4 - p / 100 + p / 400 + days_before_month(y, m) + d
}

/// The year, month and day of a day number: the date whose day number it
/// is.
pub open spec fn civil_of_day(n: int) -> (int, int, int) {
    choose|t: (int, int, int)| valid_ymd(t.0, t.1, t.2) && days_from_ce(t.0, t.1, t.2) == n
}

/// Weekday index of a day number, Monday being 0.
pub open spec fn weekday_index_of_day(n: int) -> int {
    (n - 1) % 7
}

/// `chrono::NaiveDate::from_num_days_from_ce_opt` followed by `year`,
/// `month` and `day`: the calendar date of a day number. The contract
/// claims that the date is valid and has that day number.
#[verifier::external_body]
fn chrono_civil_from_days(n: i32) -> (r: (i32, u32, u32))
    requires
        MIN_DAY <= n <= MAX_DAY,
    ensures
        (r.0 as int, r.1 as int, r.2 as int) == civil_of_day(n as int),
        valid_ymd(r.0 as int, r.1 as int, r.2 as int),
        days_from_ce(r.0 as int, r.1 as int, r.2 as int) == n,
{
    let date = chrono::NaiveDate::from_num_days_from_ce_opt(n).unwrap();
    (date.year(), date.month(), date.day())
}

/// `chrono::NaiveDate::from_ymd_opt` followed by `num_days_from_ce`: the
/// day number of a date, `None` when the triple is no date of the
/// supported calendar. Reading the date of that day number back gives the
/// triple again.
#[verifier::external_body]
fn chrono_days_from_civil(y: i32, m: u32, d: u32) -> (r: Option<i32>)
    ensures
        r == (if valid_ymd(y as int, m as int, d as int) {
            Some(days_from_ce(y as int, m as int, d as int) as i32)
        } else {
            None
        }),
        r matches Some(n) ==> civil_of_day(n as int) == (y as int, m as int, d as int),
{
    match chrono::NaiveDate::from_ymd_opt(y, m, d) {
        Some(date) => Some(date.num_days_from_ce()),
        None => None,
    }
}

/// The weekday of a day number, Monday being 0 (January 1 of year 1 was a
/// Monday): the days repeat every seven.
fn weekday_of_day(n: i32) -> (r: u32)
    requires
        MIN_DAY <= n <= MAX_DAY,
    ensures
        r as int == weekday_index_of_day(n as int),
{
    // Day `MIN_DAY` is weekday 3; count from there.
    let x: u64 = (n as i64 - MIN_DAY as i64) as u64 + 3;
    let w: u64 = x % 7;
    assert(x == (n - 1) + 7 * 13678019);
    assert(((n - 1) + 7 * 13678019) % 7 == (n - 1) % 7) by (nonlinear_arith);
    w as u32
}

/// Day of the week.
#[derive(Clone, Copy, Debug, PartialEq, Eq, Structural, Hash, PartialOrd, Ord)]
pub enum Weekday {
    Mon,
    Tue,
    Wed,
    Thu,
    Fri,
    Sat,
    Sun,
}

impl Weekday {
    /// Days from Monday: Monday is 0, Sunday is 6.
    pub open spec fn index(self) -> int {
        match self {
            Weekday::Mon => 0,
            Weekday::Tue => 1,
            Weekday::Wed => 2,
            Weekday::Thu => 3,
            Weekday::Fri => 4,
            Weekday::Sat => 5,
            Weekday::Sun => 6,
        }
    }

    pub open spec fn is_weekend(self) -> bool {
        self.index() >= 5
    }

    pub fn num_days_from_monday(&self) -> (r: u32)
        ensures
            r as int == self.index(),
    {
        match self {
            Weekday::Mon => 0,
            Weekday::Tue => 1,
            Weekday::Wed => 2,
            Weekday::Thu => 3,
            Weekday::Fri => 4,
            Weekday::Sat => 5,
            Weekday::Sun => 6,
        }
    }

    pub fn from_index(i: u32) -> (r: Weekday)
        requires
            i < 7,
        ensures
            r.index() == i,
    {
        if i == 0 {
            Weekday::Mon
        } else if i == 1 {
            Weekday::Tue
        } else if i == 2 {
            Weekday::Wed
        } else if i == 3 {
            Weekday::Thu
        } else if i == 4 {
            Weekday::Fri
        } else if i == 5 {
            Weekday::Sat
        } else {
            Weekday::Sun
        }
    }

    pub fn is_weekend_day(&self) -> (r: bool)
        ensures
            r == self.is_weekend(),
    {
        matches!(self, Weekday::Sat | Weekday::Sun)
    }
}

/// A weekday ordered from Monday to Sunday.
#[derive(Clone, Copy, Debug, PartialEq, Eq, Structural, Hash, PartialOrd, Ord)]
pub struct WeekdayStartingMonday(pub Weekday);

pub fn is_leap(y: i32) -> (r: bool)
    ensures
        r == is_leap_year(y as int),
{
    // Shift by a multiple of 400 so that the remainders are taken of a
    // non-negative number.
    let shifted: i64 = y as i64 + 2147484000;
    let s: u64 = shifted as u64;
    assert(s as int % 4 == y as int % 4 && s as int % 100 == y as int % 100 && s as int % 400
        == y as int % 400) by (nonlinear_arith)
        requires
            s as int == y as int + 2147484000,
    ;
    s % 4 == 0 && (s % 100 != 0 || s % 400 == 0)
}

pub fn month_length(y: i32, m: u32) -> (r: u32)
    requires
        1 <= m <= 12,
    ensures
        r as int == days_in_month(y as int, m as int),
{
    if m == 2 {
        if is_leap(y) {
            29
        } else {
            28
        }
    } else if m == 4 || m == 6 || m == 9 || m == 11 {
        30
    } else {
        31
    }
}

/// A local date-time without time zone, to the second. Internally the
/// number of seconds since the first second of `MIN_DAY`.
#[derive(Clone, Copy, Debug, PartialEq, Eq, Structural, Hash, PartialOrd, Ord)]
pub struct NaiveDateTime {
    ticks: u64,
}

impl NaiveDateTime {
    #[verifier::type_invariant]
    spec fn inv(self) -> bool {
        self.ticks <= MAX_TICKS
    }

    /// Seconds since the first second of `MIN_DAY`.
    pub closed spec fn stamp(self) -> int {
        self.ticks as int
    }

    /// Day number of the date.
    pub open spec fn day(self) -> int {
        MIN_DAY + self.stamp() / 86400
    }

    /// Seconds since midnight.
    pub open spec fn sod(self) -> int {
        self.stamp() % 86400
    }

    pub open spec fn hour(self) -> int {
        self.sod() / 3600
    }

    pub open spec fn minute(self) -> int {
        (self.sod() % 3600) / 60
    }

    pub open spec fn second(self) -> int {
        self.sod() % 60
    }

    pub open spec fn ymd(self) -> (int, int, int) {
        civil_of_day(self.day())
    }

    pub open spec fn year(self) -> int {
        self.ymd().0
    }

    pub open spec fn month(self) -> int {
        self.ymd().1
    }

    pub open spec fn dom(self) -> int {
        self.ymd().2
    }

    pub open spec fn weekday_index(self) -> int {
        weekday_index_of_day(self.day())
    }

    /// The date-time on day number `day` at `sod` seconds after midnight.
    pub closed spec fn at_day(day: int, sod: int) -> NaiveDateTime {
        NaiveDateTime { ticks: Self::stamp_of(day, sod) as u64 }
    }

    /// Within the calendar, [`NaiveDateTime::at_day`] has the day and time
    /// of day it is made with.
    pub proof fn lemma_at_day(day: int, sod: int)
        requires
            MIN_DAY <= day <= MAX_DAY,
            0 <= sod < 86400,
        ensures
            Self::at_day(day, sod).day() == day,
            Self::at_day(day, sod).sod() == sod,
    {
        let s = Self::stamp_of(day, sod);
        assert(0 <= s <= MAX_TICKS) by (nonlinear_arith)
            requires
                s == (day - MIN_DAY) * 86400 + sod,
                MIN_DAY <= day <= MAX_DAY,
                0 <= sod < 86400,
                MAX_TICKS == (MAX_DAY - MIN_DAY) * 86400 + 86399,
        ;
        assert(s / 86400 == day - MIN_DAY && s % 86400 == sod) by (nonlinear_arith)
            requires
                s == (day - MIN_DAY) * 86400 + sod,
                0 <= sod < 86400,
        ;
    }

    /// The stamp of a date-time given by day number and seconds of the day.
    pub open spec fn stamp_of(day: int, sod: int) -> int {
        (day - MIN_DAY) * 86400 + sod
    }

    /// The date-time at `secs` seconds after midnight of day number `day`.
    pub fn from_day_and_secs(day: i32, secs: u32) -> (r: NaiveDateTime)
        requires
            MIN_DAY <= day <= MAX_DAY,
            secs < 86400,
        ensures
            r.stamp() == Self::stamp_of(day as int, secs as int),
            r.day() == day,
            r.sod() == secs,
    {
        let offset: u64 = (day as i64 - MIN_DAY as i64) as u64;
        let ticks = offset * 86400 + secs as u64;
        assert(ticks as int / 86400 == offset as int && ticks as int % 86400 == secs as int)
            by (nonlinear_arith)
            requires
                ticks as int == offset as int * 86400 + secs as int,
                0 <= secs < 86400,
        ;
        NaiveDateTime { ticks }
    }

    /// The date-time of a calendar date and a time of day; `None` when the
    /// date is not in the calendar or the time is not a time of day.
    pub fn from_ymd_hms(y: i32, m: u32, d: u32, h: u32, mi: u32, s: u32) -> (r: Option<
        NaiveDateTime,
    >)
        ensures
            r is Some <==> (valid_ymd(y as int, m as int, d as int) && h < 24 && mi < 60 && s
                < 60),
            r matches Some(t) ==> t.day() == days_from_ce(y as int, m as int, d as int) && t.sod()
                == h * 3600 + mi * 60 + s,
    {
        if h >= 24 || mi >= 60 || s >= 60 {
            return None;
        }
        match chrono_days_from_civil(y, m, d) {
            Some(n) => {
                assert(MIN_DAY <= n <= MAX_DAY) by {
                    lemma_days_from_ce_range(y as int, m as int, d as int);
                }
                Some(Self::from_day_and_secs(n, h * 3600 + mi * 60 + s))
            },
            None => None,
        }
    }

    /// The date `y-m-d` at the time of day of `self`; `None` when the
    /// triple is no date of the calendar.
    pub fn at_date(&self, y: i32, m: u32, d: u32) -> (r: Option<NaiveDateTime>)
        ensures
            r is Some <==> valid_ymd(y as int, m as int, d as int),
            r matches Some(t) ==> t.ymd() == (y as int, m as int, d as int) && t.sod()
                == self.sod() && t.day() == days_from_ce(y as int, m as int, d as int),
    {
        let secs = self.secs_of_day();
        match chrono_days_from_civil(y, m, d) {
            Some(n) => {
                assert(MIN_DAY <= n <= MAX_DAY) by {
                    lemma_days_from_ce_range(y as int, m as int, d as int);
                }
                Some(Self::from_day_and_secs(n, secs))
            },
            None => None,
        }
    }

    /// Midnight of the date `y-m-d`; `None` when the triple is no date of
    /// the calendar.
    pub fn midnight(y: i32, m: u32, d: u32) -> (r: Option<NaiveDateTime>)
        ensures
            r is Some <==> valid_ymd(y as int, m as int, d as int),
            r matches Some(t) ==> t.ymd() == (y as int, m as int, d as int) && t.sod() == 0
                && t.day() == days_from_ce(y as int, m as int, d as int),
    {
        match chrono_days_from_civil(y, m, d) {
            Some(n) => {
                assert(MIN_DAY <= n <= MAX_DAY) by {
                    lemma_days_from_ce_range(y as int, m as int, d as int);
                }
                Some(Self::from_day_and_secs(n, 0))
            },
            None => None,
        }
    }

    /// Facts that every date-time keeps.
    pub fn bounds(&self)
        ensures
            0 <= self.stamp() <= MAX_TICKS,
            MIN_DAY <= self.day() <= MAX_DAY,
            0 <= self.sod() < 86400,
    {
        proof {
            use_type_invariant(self);
        }
        assert(self.ticks as int / 86400 <= MAX_DAY - MIN_DAY) by (nonlinear_arith)
            requires
                self.ticks <= MAX_TICKS,
        ;
    }

    /// Day number of the date.
    pub fn day_number(&self) -> (r: i32)
        ensures
            r == self.day(),
            MIN_DAY <= r <= MAX_DAY,
    {
        self.bounds();
        (self.ticks / 86400) as i32 + MIN_DAY
    }

    /// Seconds since midnight.
    pub fn secs_of_day(&self) -> (r: u32)
        ensures
            r == self.sod(),
            r < 86400,
    {
        (self.ticks % 86400) as u32
    }

    pub fn hour_of_day(&self) -> (r: u32)
        ensures
            r == self.hour(),
            r < 24,
    {
        self.secs_of_day() / 3600
    }

    pub fn minute_of_hour(&self) -> (r: u32)
        ensures
            r == self.minute(),
            r < 60,
    {
        (self.secs_of_day() % 3600) / 60
    }

    pub fn second_of_minute(&self) -> (r: u32)
        ensures
            r == self.second(),
            r < 60,
    {
        self.secs_of_day() % 60
    }

    /// Calendar year, month and day of the date.
    pub fn to_ymd(&self) -> (r: (i32, u32, u32))
        ensures
            (r.0 as int, r.1 as int, r.2 as int) == self.ymd(),
            valid_ymd(r.0 as int, r.1 as int, r.2 as int),
            days_from_ce(r.0 as int, r.1 as int, r.2 as int) == self.day(),
    {
        chrono_civil_from_days(self.day_number())
    }

    pub fn weekday(&self) -> (r: Weekday)
        ensures
            r.index() == self.weekday_index(),
    {
        let w = weekday_of_day(self.day_number());
        Weekday::from_index(w)
    }

    /// The date-time `secs` seconds later (earlier when negative); `None`
    /// when that leaves the calendar.
    pub fn add_seconds(&self, secs: i64) -> (r: Option<NaiveDateTime>)
        ensures
            r is Some <==> 0 <= self.stamp() + secs <= MAX_TICKS,
            r matches Some(t) ==> t.stamp() == self.stamp() + secs,
    {
        self.bounds();
        let t: i128 = self.ticks as i128 + secs as i128;
        if t < 0 || t > MAX_TICKS as i128 {
            None
        } else {
            Some(NaiveDateTime { ticks: t as u64 })
        }
    }

    /// The date-time `days` days later (earlier when negative), at the same
    /// time of day; `None` when that leaves the calendar.
    pub fn add_days(&self, days: i64) -> (r: Option<NaiveDateTime>)
        ensures
            r is Some <==> 0 <= self.stamp() + days * 86400 <= MAX_TICKS,
            r matches Some(t) ==> t.stamp() == self.stamp() + days * 86400,
    {
        self.bounds();
        let t: i128 = self.ticks as i128 + days as i128 * 86400;
        if t < 0 || t > MAX_TICKS as i128 {
            None
        } else {
            Some(NaiveDateTime { ticks: t as u64 })
        }
    }

    /// Same date at another second of the day.
    pub fn with_sod(&self, secs: u32) -> (r: NaiveDateTime)
        requires
            secs < 86400,
        ensures
            r.day() == self.day(),
            r.sod() == secs,
    {
        Self::from_day_and_secs(self.day_number(), secs)
    }

    /// Same minute, another second.
    pub fn set_second(&self, x: u32) -> (r: NaiveDateTime)
        requires
            x < 60,
        ensures
            r.stamp() == self.stamp() - self.stamp() % 60 + x,
    {
        self.bounds();
        let sod = self.secs_of_day();
        let r = self.with_sod(sod - sod % 60 + x);
        proof {
            lemma_stamp_parts(*self);
            lemma_stamp_parts(r);
            lemma_stamp_mods(self.day() - MIN_DAY, self.sod());
        }
        r
    }

    /// Same hour, another minute.
    pub fn set_minute(&self, x: u32) -> (r: NaiveDateTime)
        requires
            x < 60,
        ensures
            r.stamp() == self.stamp() - (self.stamp() % 3600) / 60 * 60 + x * 60,
    {
        self.bounds();
        let sod = self.secs_of_day();
        let r = self.with_sod(sod - (sod % 3600) / 60 * 60 + x * 60);
        proof {
            lemma_stamp_parts(*self);
            lemma_stamp_parts(r);
            lemma_stamp_mods(self.day() - MIN_DAY, self.sod());
            assert(sod - (sod % 3600) / 60 * 60 + x * 60 < 86400) by (nonlinear_arith)
                requires sod < 86400, x < 60;
        }
        r
    }

    /// Same day, another hour.
    pub fn set_hour(&self, x: u32) -> (r: NaiveDateTime)
        requires
            x < 24,
        ensures
            r.stamp() == self.stamp() - (self.stamp() % 86400) / 3600 * 3600 + x * 3600,
    {
        self.bounds();
        let sod = self.secs_of_day();
        let r = self.with_sod(sod - sod / 3600 * 3600 + x * 3600);
        proof {
            lemma_stamp_parts(*self);
            lemma_stamp_parts(r);
            lemma_stamp_mods(self.day() - MIN_DAY, self.sod());
            assert(sod - sod / 3600 * 3600 + x * 3600 < 86400) by (nonlinear_arith)
                requires sod < 86400, x < 24;
        }
        r
    }

    pub fn is_before(&self, other: &NaiveDateTime) -> (r: bool)
        ensures
            r == (self.stamp() < other.stamp()),
    {
        self.ticks < other.ticks
    }

    pub fn same_instant(&self, other: &NaiveDateTime) -> (r: bool)
        ensures
            r == (self.stamp() == other.stamp()),
    {
        self.ticks == other.ticks
    }
}

/// Date-times with the same stamp are the same.
pub proof fn lemma_stamp_eq(a: NaiveDateTime, b: NaiveDateTime)
    requires
        a.stamp() == b.stamp(),
    ensures
        a == b,
{
}

/// A date-time whose stamp lies within the day `d` has day number `d`.
pub proof fn lemma_day_of_stamp(t: NaiveDateTime, d: int)
    requires
        NaiveDateTime::stamp_of(d, 0) <= t.stamp() < NaiveDateTime::stamp_of(d + 1, 0),
    ensures
        t.day() == d,
{
    let k = d - MIN_DAY;
    assert(t.stamp() / 86400 == k) by (nonlinear_arith)
        requires
            k * 86400 <= t.stamp() < (k + 1) * 86400,
    ;
}

/// A stamp is the day number and the seconds of the day together.
pub proof fn lemma_stamp_parts(t: NaiveDateTime)
    ensures
        t.stamp() == (t.day() - MIN_DAY) * 86400 + t.sod(),
{
    assert(t.stamp() == (t.stamp() / 86400) * 86400 + t.stamp() % 86400) by (nonlinear_arith);
}

pub proof fn lemma_stamp_mods(d: int, s: int)
    requires
        d >= 0,
        0 <= s < 86400,
    ensures
        (d * 86400 + s) % 60 == s % 60,
        (d * 86400 + s) % 3600 == s % 3600,
        (d * 86400 + s) % 86400 == s,
        s % 3600 == s - s / 3600 * 3600,
{
    assert((d * 86400 + s) % 60 == s % 60) by (nonlinear_arith) requires d >= 0, 0 <= s < 86400;
    assert((d * 86400 + s) % 3600 == s % 3600) by (nonlinear_arith) requires d >= 0, 0 <= s < 86400;
    assert((d * 86400 + s) % 86400 == s) by (nonlinear_arith) requires d >= 0, 0 <= s < 86400;
    assert(s % 3600 == s - s / 3600 * 3600) by (nonlinear_arith);
}

/// Date-times compare as their day numbers do, and by the time of day on
/// the same day.
pub proof fn lemma_stamp_order(a: NaiveDateTime, b: NaiveDateTime)
    requires
        0 <= a.sod() < 86400,
        0 <= b.sod() < 86400,
    ensures
        a.day() < b.day() ==> a.stamp() < b.stamp(),
        a.day() == b.day() ==> (a.stamp() < b.stamp() <==> a.sod() < b.sod()),
        a.stamp() < b.stamp() ==> a.day() <= b.day(),
{
    lemma_stamp_parts(a);
    lemma_stamp_parts(b);
    assert(a.day() < b.day() ==> (a.day() - MIN_DAY) * 86400 + 86400 <= (b.day() - MIN_DAY) * 86400) by (nonlinear_arith);
    assert(a.day() > b.day() ==> (b.day() - MIN_DAY) * 86400 + 86400 <= (a.day() - MIN_DAY) * 86400) by (nonlinear_arith);
}

/// Every valid date has a day number in the supported range.
pub proof fn lemma_days_from_ce_range(y: int, m: int, d: int)
    requires
        valid_ymd(y, m, d),
    ensures
        MIN_DAY <= days_from_ce(y, m, d) <= MAX_DAY,
{
    assert(days_from_ce(MIN_YEAR as int, 1, 1) == MIN_DAY);
    assert(days_from_ce(MAX_YEAR as int, 12, 31) == MAX_DAY);
    lemma_days_from_ce_monotone_year(y);
}

proof fn lemma_days_from_ce_monotone_year(y: int)
    requires
        MIN_YEAR <= y <= MAX_YEAR,
    ensures
        days_from_ce(MIN_YEAR as int, 1, 1) <= days_from_ce(y, 1, 1),
        days_from_ce(y, 12, 31) <= days_from_ce(MAX_YEAR as int, 12, 31),
{
    let p = y - 1;
    assert(MIN_YEAR - 1 <= p <= MAX_YEAR - 1);
    assert((MIN_YEAR as int - 1) / 4 <= p / 4) by (nonlinear_arith)
        requires MIN_YEAR - 1 <= p;
    assert(p / 4 <= (MAX_YEAR as int - 1) / 4) by (nonlinear_arith)
        requires p <= MAX_YEAR - 1;
    assert(p / 100 - (MIN_YEAR as int - 1) / 100 <= (p - (MIN_YEAR - 1)) / 100 + 1) by (nonlinear_arith)
        requires MIN_YEAR - 1 <= p;
    assert(p / 400 >= (MIN_YEAR as int - 1) / 400) by (nonlinear_arith)
        requires MIN_YEAR - 1 <= p;
    assert((MAX_YEAR as int - 1) / 100 - p / 100 <= (MAX_YEAR - 1 - p) / 100 + 1) by (nonlinear_arith)
        requires p <= MAX_YEAR - 1;
    assert(p / 400 <= (MAX_YEAR as int - 1) / 400) by (nonlinear_arith)
        requires p <= MAX_YEAR - 1;
    assert((p - (MIN_YEAR - 1)) / 100 <= (p - (MIN_YEAR - 1)) / 4) by (nonlinear_arith)
        requires MIN_YEAR - 1 <= p;
    assert((MAX_YEAR - 1 - p) / 100 <= (MAX_YEAR - 1 - p) / 4) by (nonlinear_arith)
        requires p <= MAX_YEAR - 1;
}

} // verus!
