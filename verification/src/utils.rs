//! Moving a date within its month: to its first or last day, or to a
//! weekday.

use vstd::prelude::*;

use crate::calendar::{
    days_from_ce, days_in_month, weekday_index_of_day, NaiveDateTime, Weekday, MAX_DAY, MIN_DAY,
};

verus! {

/// Days that the search for an occurrence of a weekday in a month may move
/// away from the date it starts from: six to reach the weekday, seven for
/// each further occurrence up to the 255th.
pub const WEEKDAY_REACH: i32 = 1784;

/// Day number of the `occ`-th weekday `wd` counted from the first day of
/// month `m` of year `y` (`occ` 0 counts as 1); it may lie past the month.
pub open spec fn nth_weekday_day(y: int, m: int, wd: int, occ: int) -> int {
    let f = days_from_ce(y, m, 1);
    let k = (wd - weekday_index_of_day(f) + 7) % 7;
    f + k + 7 * (if occ >= 1 { occ - 1 } else { 0 })
}

/// Day number of the `occ`-th weekday `wd` counted back from the last day
/// of month `m` of year `y` (`occ` 0 counts as 1); it may lie before the
/// month.
pub open spec fn nth_last_weekday_day(y: int, m: int, wd: int, occ: int) -> int {
    let l = days_from_ce(y, m, days_in_month(y, m));
    let k = (weekday_index_of_day(l) - wd + 7) % 7;
    l - k - 7 * (if occ >= 1 { occ - 1 } else { 0 })
}

/// Date helpers of the calendar, each keeping the time of day.
pub trait DateLikeUtils: Sized {
    /// Day number of the date.
    spec fn day_of(&self) -> int;

    /// The last day of the month.
    fn to_last_day_of_month(&self) -> Self;

    /// The first day of the month.
    fn to_first_day_of_month(&self) -> Self;

    /// The first `weekday` on or after the date.
    fn to_weekday(&self, weekday: &Weekday) -> Self
        requires
            self.day_of() + 6 <= MAX_DAY,
    ;

    /// The `occurence`-th `weekday` of the month, when the search stays in
    /// a month of the same name.
    fn to_months_weekday(&self, weekday: &Weekday, occurence: u8) -> Option<Self>
        requires
            self.day_of() + WEEKDAY_REACH <= MAX_DAY,
    ;

    /// The last `weekday` on or before the date.
    fn to_prev_weekday(&self, weekday: &Weekday) -> Self
        requires
            self.day_of() - 6 >= MIN_DAY,
    ;

    /// The `occurence`-th `weekday` from the end of the month, when the
    /// search stays in a month of the same name.
    fn to_months_last_weekday(&self, weekday: &Weekday, occurence: u8) -> Option<Self>
        requires
            self.day_of() - WEEKDAY_REACH >= MIN_DAY,
    ;
}

impl DateLikeUtils for NaiveDateTime {
    open spec fn day_of(&self) -> int {
        self.day()
    }

    fn to_last_day_of_month(&self) -> (r: NaiveDateTime)
        ensures
            r.ymd() == (self.year(), self.month(), days_in_month(self.year(), self.month())),
            r.day() == days_from_ce(self.year(), self.month(), days_in_month(self.year(), self.month())),
            r.sod() == self.sod(),
    {
        let (y, m, _d) = self.to_ymd();
        let dim = crate::calendar::month_length(y, m);
        match self.at_date(y, m, dim) {
            Some(t) => t,
            None => *self,
        }
    }

    fn to_first_day_of_month(&self) -> (r: NaiveDateTime)
        ensures
            r.ymd() == (self.year(), self.month(), 1int),
            r.day() == days_from_ce(self.year(), self.month(), 1),
            r.sod() == self.sod(),
    {
        let (y, m, _d) = self.to_ymd();
        match self.at_date(y, m, 1) {
            Some(t) => t,
            None => *self,
        }
    }

    fn to_weekday(&self, weekday: &Weekday) -> (r: NaiveDateTime)
        ensures
            r.day() == self.day() + (weekday.index() - self.weekday_index() + 7) % 7,
            r.weekday_index() == weekday.index(),
            r.sod() == self.sod(),
    {
        self.bounds();
        let w = self.weekday().num_days_from_monday();
        let target = weekday.num_days_from_monday();
        let k: u32 = (target + 7 - w) % 7;
        let r = NaiveDateTime::from_day_and_secs(self.day_number() + k as i32, self.secs_of_day());
        proof {
            assert(weekday_index_of_day(r.day()) == weekday.index()) by (nonlinear_arith)
                requires
                    r.day() == self.day() + k,
                    (self.day() - 1) % 7 == w,
                    k == (target + 7 - w) % 7,
                    target == weekday.index(),
                    target < 7,
                    w < 7,
                    weekday_index_of_day(r.day()) == (r.day() - 1) % 7,
            ;
        }
        r
    }

    fn to_months_weekday(&self, weekday: &Weekday, occurence: u8) -> (r: Option<NaiveDateTime>)
        ensures
            r is Some <==> crate::calendar::civil_of_day(
                nth_weekday_day(self.year(), self.month(), weekday.index(), occurence as int),
            ).1 == self.month(),
            r matches Some(t) ==> t.day() == nth_weekday_day(
                self.year(),
                self.month(),
                weekday.index(),
                occurence as int,
            ) && t.sod() == self.sod() && t.weekday_index() == weekday.index(),
    {
        self.bounds();
        let (_y, m, _d) = self.to_ymd();
        let first = self.to_first_day_of_month();
        first.bounds();
        let date = first.to_weekday(weekday);
        let extra: i32 = if occurence >= 1 { 7 * (occurence as i32 - 1) } else { 0 };
        let n = date.day_number() + extra;
        let r = NaiveDateTime::from_day_and_secs(n, self.secs_of_day());
        let (_y2, m2, _d2) = r.to_ymd();
        proof {
            assert(weekday_index_of_day(r.day()) == weekday.index()) by (nonlinear_arith)
                requires
                    r.day() == date.day() + extra,
                    extra % 7 == 0,
                    extra >= 0,
                    weekday_index_of_day(date.day()) == weekday.index(),
                    weekday_index_of_day(date.day()) == (date.day() - 1) % 7,
                    weekday_index_of_day(r.day()) == (r.day() - 1) % 7,
            ;
        }
        if m2 == m {
            Some(r)
        } else {
            None
        }
    }

    fn to_prev_weekday(&self, weekday: &Weekday) -> (r: NaiveDateTime)
        ensures
            r.day() == self.day() - (self.weekday_index() - weekday.index() + 7) % 7,
            r.weekday_index() == weekday.index(),
            r.sod() == self.sod(),
    {
        self.bounds();
        let w = self.weekday().num_days_from_monday();
        let target = weekday.num_days_from_monday();
        let k: u32 = (w + 7 - target) % 7;
        let r = NaiveDateTime::from_day_and_secs(self.day_number() - k as i32, self.secs_of_day());
        proof {
            assert(weekday_index_of_day(r.day()) == weekday.index()) by (nonlinear_arith)
                requires
                    r.day() == self.day() - k,
                    (self.day() - 1) % 7 == w,
                    k == (w + 7 - target) % 7,
                    target == weekday.index(),
                    target < 7,
                    w < 7,
                    weekday_index_of_day(r.day()) == (r.day() - 1) % 7,
            ;
        }
        r
    }

    fn to_months_last_weekday(&self, weekday: &Weekday, occurence: u8) -> (r: Option<NaiveDateTime>)
        ensures
            r is Some <==> crate::calendar::civil_of_day(
                nth_last_weekday_day(self.year(), self.month(), weekday.index(), occurence as int),
            ).1 == self.month(),
            r matches Some(t) ==> t.day() == nth_last_weekday_day(
                self.year(),
                self.month(),
                weekday.index(),
                occurence as int,
            ) && t.sod() == self.sod() && t.weekday_index() == weekday.index(),
    {
        self.bounds();
        let (_y, m, _d) = self.to_ymd();
        let last = self.to_last_day_of_month();
        last.bounds();
        let date = last.to_prev_weekday(weekday);
        let extra: i32 = if occurence >= 1 { 7 * (occurence as i32 - 1) } else { 0 };
        let n = date.day_number() - extra;
        let r = NaiveDateTime::from_day_and_secs(n, self.secs_of_day());
        let (_y2, m2, _d2) = r.to_ymd();
        proof {
            assert(weekday_index_of_day(r.day()) == weekday.index()) by (nonlinear_arith)
                requires
                    r.day() == date.day() - extra,
                    extra % 7 == 0,
                    extra >= 0,
                    weekday_index_of_day(date.day()) == weekday.index(),
                    weekday_index_of_day(date.day()) == (date.day() - 1) % 7,
                    weekday_index_of_day(r.day()) == (r.day() - 1) % 7,
            ;
        }
        if m2 == m {
            Some(r)
        } else {
            None
        }
    }
}

} // verus!
