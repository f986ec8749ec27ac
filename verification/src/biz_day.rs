//! Business days: the pluggable [`BizDayProcessor`] and the built-in
//! [`WeekendSkipper`], for which every Monday to Friday is a business day.

use vstd::prelude::*;

use crate::calendar::{self, month_length, NaiveDateTime, MAX_DAY, MIN_DAY};
use crate::error::{Error, Result};

verus! {

/// Direction used when searching for a nearby business day.
#[derive(Debug, PartialEq, Eq, Structural, Clone, Copy)]
pub enum Direction {
    /// Nearest business day; tie-breaking is implementation-defined.
    Nearest,
    /// The closest business day on or before the given date.
    Prev,
    /// The closest business day on or after the given date.
    Next,
}

impl Default for Direction {
    fn default() -> (r: Direction)
        ensures
            r == Direction::Nearest,
    {
        Direction::Nearest
    }
}

/// Pluggable business-day logic: holiday calendars, exchange cut-offs or
/// any other notion of a business day.
pub trait BizDayProcessor: Sized + Clone {
    /// Whether a date-time is a business day.
    spec fn is_biz(&self, dtm: NaiveDateTime) -> bool;

    /// Returns `true` when `dtm` falls on a business day.
    fn is_biz_day(&self, dtm: &NaiveDateTime) -> (r: Result<bool>)
        ensures
            r matches Ok(b) ==> b == self.is_biz(*dtm),
    ;

    /// A business day near `dtm`: on or before it for `Prev`, on or after
    /// it for `Next`, either for `Nearest`; `dtm` itself when it is one and
    /// the direction is `Prev` or `Next`. For `Prev` and `Next` it is the
    /// closest one: no business day lies on a day strictly between.
    /// The stamp of the business day that [`Self::find_biz_day`] picks for
    /// `dtm` in `direction`: the same inputs give the same day.
    spec fn found_stamp(&self, dtm: NaiveDateTime, direction: Direction) -> int;

    fn find_biz_day(&self, dtm: &NaiveDateTime, direction: Direction) -> (r: Result<NaiveDateTime>)
        ensures
            r matches Ok(t) ==> t.stamp() == self.found_stamp(*dtm, direction),
            r matches Ok(t) ==> self.is_biz(t),
            r matches Ok(t) ==> (direction == Direction::Next ==> forall|u: NaiveDateTime|
                dtm.day() < u.day() < t.day() ==> !#[trigger] self.is_biz(u)),
            r matches Ok(t) ==> (direction == Direction::Prev ==> forall|u: NaiveDateTime|
                t.day() < u.day() < dtm.day() ==> !#[trigger] self.is_biz(u)),
            r matches Ok(t) ==> (direction == Direction::Prev ==> t.stamp() <= dtm.stamp()),
            r matches Ok(t) ==> (direction == Direction::Next ==> t.stamp() >= dtm.stamp()),
            r matches Ok(t) ==> ((direction == Direction::Prev || direction == Direction::Next)
                && self.is_biz(*dtm) ==> t == *dtm),
    ;

    /// Advances `dtm` by `num` business days: the days after the day of
    /// `dtm` up to the day of the result hold `num` business days.
    fn add(&self, dtm: &NaiveDateTime, num: u32) -> (r: Result<NaiveDateTime>)
        ensures
            r matches Ok(t) ==> (num == 0 ==> t == *dtm),
            r matches Ok(t) ==> (num > 0 ==> t.stamp() > dtm.stamp() && self.is_biz(t)),
            r matches Ok(t) ==> (num > 0 ==> t.day() > dtm.day() && biz_days_after(
                |u: NaiveDateTime| self.is_biz(u),
                *dtm,
                (t.day() - dtm.day()) as nat,
            ) == num),
    ;

    /// Retreats `dtm` by `num` business days: the days before the day of
    /// `dtm` down to the day of the result hold `num` business days.
    fn sub(&self, dtm: &NaiveDateTime, num: u32) -> (r: Result<NaiveDateTime>)
        ensures
            r matches Ok(t) ==> (num == 0 ==> t == *dtm),
            r matches Ok(t) ==> (num > 0 ==> t.stamp() < dtm.stamp() && self.is_biz(t)),
            r matches Ok(t) ==> (num > 0 ==> t.day() < dtm.day() && biz_days_before(
                |u: NaiveDateTime| self.is_biz(u),
                *dtm,
                (dtm.day() - t.day()) as nat,
            ) == num),
    ;
}

/// Business days (by `is_biz`) among the `k` days that follow the day of
/// `from`, each taken at the time of day of `from`.
pub open spec fn biz_days_after(is_biz: spec_fn(NaiveDateTime) -> bool, from: NaiveDateTime, k: nat) -> nat
    decreases k,
{
    if k == 0 {
        0
    } else {
        biz_days_after(is_biz, from, (k - 1) as nat) + if is_biz(
            NaiveDateTime::at_day(from.day() + k, from.sod()),
        ) {
            1nat
        } else {
            0nat
        }
    }
}

/// Business days (by `is_biz`) among the `k` days that precede the day of
/// `from`, each taken at the time of day of `from`.
pub open spec fn biz_days_before(is_biz: spec_fn(NaiveDateTime) -> bool, from: NaiveDateTime, k: nat) -> nat
    decreases k,
{
    if k == 0 {
        0
    } else {
        biz_days_before(is_biz, from, (k - 1) as nat) + if is_biz(
            NaiveDateTime::at_day(from.day() - k, from.sod()),
        ) {
            1nat
        } else {
            0nat
        }
    }
}

/// A day number falls on Monday to Friday.
pub open spec fn is_weekday_number(n: int) -> bool {
    calendar::weekday_index_of_day(n) < 5
}

/// Weekdays among the `k` days that follow day `start`.
pub open spec fn weekdays_after(start: int, k: nat) -> nat
    decreases k,
{
    if k == 0 {
        0
    } else {
        weekdays_after(start, (k - 1) as nat) + if is_weekday_number(start + k) { 1nat } else { 0nat }
    }
}

/// Weekdays among the `k` days that precede day `start`.
pub open spec fn weekdays_before(start: int, k: nat) -> nat
    decreases k,
{
    if k == 0 {
        0
    } else {
        weekdays_before(start, (k - 1) as nat) + if is_weekday_number(start - k) { 1nat } else { 0nat }
    }
}

/// Days to move from a weekend day to the business day that
/// [`WeekendSkipper`] takes as nearest; 0 on a weekday.
pub open spec fn nearest_shift(wd: int, dom: int, last_dom: int) -> int {
    if wd < 5 {
        0
    } else if dom == 1 {
        7 - wd
    } else if dom == last_dom {
        4 - wd
    } else if wd == 5 {
        -1
    } else {
        1
    }
}

/// A [`BizDayProcessor`] for which every Monday to Friday is a business
/// day, whatever the public holidays.
#[derive(Debug, Clone, Copy)]
pub struct WeekendSkipper {}

impl Default for WeekendSkipper {
    fn default() -> (r: WeekendSkipper) {
        WeekendSkipper {  }
    }
}

impl WeekendSkipper {
    /// Creates a new `WeekendSkipper`.
    pub fn new() -> (r: WeekendSkipper) {
        WeekendSkipper {  }
    }

    fn step_days(dtm: &NaiveDateTime, days: i64) -> (r: Result<NaiveDateTime>)
        ensures
            r is Ok <==> 0 <= dtm.stamp() + days * 86400 <= crate::calendar::MAX_TICKS,
            r matches Ok(t) ==> t.stamp() == dtm.stamp() + days * 86400 && t.day() == dtm.day()
                + days && t.sod() == dtm.sod(),
            r is Err ==> r == Err::<NaiveDateTime, Error>(Error::OutOfRange),
    {
        dtm.bounds();
        match dtm.add_days(days) {
            Some(t) => {
                proof {
                    lemma_shift_days(*dtm, t, days as int);
                }
                Ok(t)
            },
            None => Err(Error::OutOfRange),
        }
    }

    /// The business day that [`Direction::Nearest`] picks: the date itself
    /// on a weekday; from a weekend day on the 1st of a month, the next
    /// Monday; on the last day of a month, the previous Friday; otherwise
    /// Friday for a Saturday and Monday for a Sunday.
    pub fn nearest_biz_day(&self, dtm: &NaiveDateTime) -> (r: Result<NaiveDateTime>)
        ensures
            r matches Ok(t) ==> t.day() == dtm.day() + nearest_shift(
                dtm.weekday_index(),
                dtm.dom(),
                calendar::days_in_month(dtm.year(), dtm.month()),
            ) && t.sod() == dtm.sod(),
            r matches Ok(t) ==> is_weekday_number(t.day()),
            r is Err ==> r == Err::<NaiveDateTime, Error>(Error::OutOfRange),
            r is Ok <==> MIN_DAY <= dtm.day() + nearest_shift(
                dtm.weekday_index(),
                dtm.dom(),
                calendar::days_in_month(dtm.year(), dtm.month()),
            ) <= MAX_DAY,
    {
        dtm.bounds();
        let wd = dtm.weekday().num_days_from_monday();
        if wd < 5 {
            proof {
                lemma_shift_days(*dtm, *dtm, 0);
            }
            return Ok(*dtm);
        }
        let (y, m, d) = dtm.to_ymd();
        let shift: i64 = if d == 1 {
            7 - wd as i64
        } else if d == month_length(y, m) {
            4 - wd as i64
        } else if wd == 5 {
            -1
        } else {
            1
        };
        let r = Self::step_days(dtm, shift);
        proof {
            calendar::lemma_stamp_parts(*dtm);
            let k = dtm.day() + shift;
            assert((0 <= dtm.stamp() + shift * 86400 <= crate::calendar::MAX_TICKS) <==> (MIN_DAY <= k
                <= MAX_DAY)) by (nonlinear_arith)
                requires
                    dtm.stamp() == (dtm.day() - MIN_DAY) * 86400 + dtm.sod(),
                    0 <= dtm.sod() < 86400,
                    k == dtm.day() + shift,
                    crate::calendar::MAX_TICKS == (MAX_DAY - MIN_DAY) * 86400 + 86399,
            ;
            if let Ok(t) = r {
                lemma_weekday_shift(dtm.day(), shift as int);
            }
        }
        r
    }
}

/// Days that [`WeekendSkipper`] moves a date on weekday `wd` (day `dom` of
/// a month of `last_dom` days) to reach a weekday in `direction`: none from
/// a weekday; from a Saturday two ahead (`Next`) or one back (`Prev`); from
/// a Sunday one ahead or two back; [`nearest_shift`] for `Nearest`.
pub open spec fn weekend_shift(wd: int, dom: int, last_dom: int, direction: Direction) -> int {
    match direction {
        Direction::Nearest => nearest_shift(wd, dom, last_dom),
        Direction::Next => if wd == 5 {
            2
        } else if wd == 6 {
            1
        } else {
            0
        },
        Direction::Prev => if wd == 5 {
            -1
        } else if wd == 6 {
            -2
        } else {
            0
        },
    }
}

impl BizDayProcessor for WeekendSkipper {
    open spec fn is_biz(&self, dtm: NaiveDateTime) -> bool {
        is_weekday_number(dtm.day())
    }

    open spec fn found_stamp(&self, dtm: NaiveDateTime, direction: Direction) -> int {
        NaiveDateTime::stamp_of(
            dtm.day() + weekend_shift(
                dtm.weekday_index(),
                dtm.dom(),
                calendar::days_in_month(dtm.year(), dtm.month()),
                direction,
            ),
            dtm.sod(),
        )
    }

    fn is_biz_day(&self, dtm: &NaiveDateTime) -> (r: Result<bool>)
        ensures
            r == Ok::<bool, Error>(is_weekday_number(dtm.day())),
    {
        dtm.bounds();
        let wd = dtm.weekday();
        Ok(!wd.is_weekend_day())
    }

    fn find_biz_day(&self, dtm: &NaiveDateTime, direction: Direction) -> (r: Result<NaiveDateTime>)
        ensures
            r matches Ok(t) ==> t.sod() == dtm.sod(),
            direction == Direction::Nearest ==> (r matches Ok(t) ==> t.day() == dtm.day()
                + nearest_shift(
                dtm.weekday_index(),
                dtm.dom(),
                calendar::days_in_month(dtm.year(), dtm.month()),
            )),
            (direction == Direction::Next || direction == Direction::Prev) && is_weekday_number(
                dtm.day(),
            ) ==> r == Ok::<NaiveDateTime, Error>(*dtm),
            direction == Direction::Next && !is_weekday_number(dtm.day()) ==> (r matches Ok(t)
                ==> t.day() > dtm.day() && weekdays_after(dtm.day(), (t.day() - dtm.day()) as nat)
                == 1),
            direction == Direction::Prev && !is_weekday_number(dtm.day()) ==> (r matches Ok(t)
                ==> t.day() < dtm.day() && weekdays_before(dtm.day(), (dtm.day() - t.day()) as nat)
                == 1),
            direction == Direction::Nearest ==> (r is Ok <==> MIN_DAY <= dtm.day() + nearest_shift(
                dtm.weekday_index(),
                dtm.dom(),
                calendar::days_in_month(dtm.year(), dtm.month()),
            ) <= MAX_DAY),
            direction == Direction::Next ==> (r is Ok <==> is_weekday_number(dtm.day())
                || weekdays_after(dtm.day(), (MAX_DAY - dtm.day()) as nat) >= 1),
            direction == Direction::Prev ==> (r is Ok <==> is_weekday_number(dtm.day())
                || weekdays_before(dtm.day(), (dtm.day() - MIN_DAY) as nat) >= 1),
            r is Err ==> r == Err::<NaiveDateTime, Error>(Error::OutOfRange),
    {
        match direction {
            Direction::Nearest => {
                let r = self.nearest_biz_day(dtm);
                dtm.bounds();
                if let Ok(t) = r {
                    t.bounds();
                    proof {
                        calendar::lemma_stamp_order(*dtm, t);
                        calendar::lemma_stamp_parts(t);
                    }
                }
                r
            },
            Direction::Prev => {
                dtm.bounds();
                proof {
                    calendar::lemma_stamp_parts(*dtm);
                }
                if !dtm.weekday().is_weekend_day() {
                    return Ok(*dtm);
                }
                let r = self.sub(dtm, 1);
                if let Ok(t) = r {
                    proof {
                        lemma_first_weekday_before(dtm.day(), (dtm.day() - t.day()) as nat);
                        lemma_weekend_prev(dtm.day(), (dtm.day() - t.day()) as nat);
                        calendar::lemma_stamp_parts(t);
                    }
                }
                r
            },
            Direction::Next => {
                dtm.bounds();
                proof {
                    calendar::lemma_stamp_parts(*dtm);
                }
                if !dtm.weekday().is_weekend_day() {
                    return Ok(*dtm);
                }
                let r = self.add(dtm, 1);
                if let Ok(t) = r {
                    proof {
                        lemma_first_weekday_after(dtm.day(), (t.day() - dtm.day()) as nat);
                        lemma_weekend_next(dtm.day(), (t.day() - dtm.day()) as nat);
                        calendar::lemma_stamp_parts(t);
                    }
                }
                r
            },
        }
    }

    fn add(&self, dtm: &NaiveDateTime, num: u32) -> (r: Result<NaiveDateTime>)
        ensures
            r matches Ok(t) ==> t.sod() == dtm.sod() && t.day() >= dtm.day() && weekdays_after(
                dtm.day(),
                (t.day() - dtm.day()) as nat,
            ) == num,
            r matches Ok(t) ==> (num > 0 ==> is_weekday_number(t.day())),
            r is Err ==> r == Err::<NaiveDateTime, Error>(Error::OutOfRange),
            r is Ok <==> weekdays_after(dtm.day(), (MAX_DAY - dtm.day()) as nat) >= num,
    {
        let mut added: u32 = 0;
        let mut cur = *dtm;
        dtm.bounds();
        while added < num
            invariant
                cur.day() >= dtm.day(),
                cur.sod() == dtm.sod(),
                cur.day() == dtm.day() ==> cur == *dtm,
                num == 0 ==> cur == *dtm,
                added <= num,
                weekdays_after(dtm.day(), (cur.day() - dtm.day()) as nat) == added,
                added == num && num > 0 ==> is_weekday_number(cur.day()),
                MIN_DAY <= dtm.day() <= cur.day() <= MAX_DAY,
            decreases MAX_DAY - cur.day(),
        {
            cur.bounds();
            let next = match Self::step_days(&cur, 1) {
                Ok(t) => t,
                Err(e) => {
                    proof {
                        calendar::lemma_stamp_parts(cur);
                        assert(cur.day() == MAX_DAY) by (nonlinear_arith)
                            requires
                                cur.stamp() == (cur.day() - MIN_DAY) * 86400 + cur.sod(),
                                cur.stamp() + 86400 > crate::calendar::MAX_TICKS,
                                0 <= cur.sod() < 86400,
                                cur.day() <= MAX_DAY,
                                crate::calendar::MAX_TICKS == (MAX_DAY - MIN_DAY) * 86400 + 86399,
                        ;
                    }
                    return Err(e);
                },
            };
            next.bounds();
            let k: Ghost<nat> = Ghost((next.day() - dtm.day()) as nat);
            assert(weekdays_after(dtm.day(), k@) == weekdays_after(dtm.day(), (k@ - 1) as nat)
                + if is_weekday_number(dtm.day() + k@) { 1nat } else { 0nat });
            let biz = !next.weekday().is_weekend_day();
            if biz {
                added = added + 1;
            }
            cur = next;
        }
        cur.bounds();
        proof {
            calendar::lemma_stamp_order(*dtm, cur);
            lemma_weekdays_monotone(
                dtm.day(),
                (cur.day() - dtm.day()) as nat,
                (MAX_DAY - dtm.day()) as nat,
            );
            lemma_skipper_counts_after(*self, *dtm, (cur.day() - dtm.day()) as nat);
        }
        Ok(cur)
    }

    fn sub(&self, dtm: &NaiveDateTime, num: u32) -> (r: Result<NaiveDateTime>)
        ensures
            r matches Ok(t) ==> t.sod() == dtm.sod() && t.day() <= dtm.day() && weekdays_before(
                dtm.day(),
                (dtm.day() - t.day()) as nat,
            ) == num,
            r matches Ok(t) ==> (num > 0 ==> is_weekday_number(t.day())),
            r is Err ==> r == Err::<NaiveDateTime, Error>(Error::OutOfRange),
            r is Ok <==> weekdays_before(dtm.day(), (dtm.day() - MIN_DAY) as nat) >= num,
    {
        let mut taken: u32 = 0;
        let mut cur = *dtm;
        dtm.bounds();
        while taken < num
            invariant
                cur.day() <= dtm.day(),
                cur.sod() == dtm.sod(),
                cur.day() == dtm.day() ==> cur == *dtm,
                num == 0 ==> cur == *dtm,
                taken <= num,
                weekdays_before(dtm.day(), (dtm.day() - cur.day()) as nat) == taken,
                taken == num && num > 0 ==> is_weekday_number(cur.day()),
                MIN_DAY <= cur.day() <= dtm.day() <= MAX_DAY,
            decreases cur.day() - MIN_DAY,
        {
            cur.bounds();
            let next = match Self::step_days(&cur, -1) {
                Ok(t) => t,
                Err(e) => {
                    proof {
                        calendar::lemma_stamp_parts(cur);
                        assert(cur.day() == MIN_DAY) by (nonlinear_arith)
                            requires
                                cur.stamp() == (cur.day() - MIN_DAY) * 86400 + cur.sod(),
                                cur.stamp() - 86400 < 0,
                                0 <= cur.sod() < 86400,
                                cur.day() >= MIN_DAY,
                        ;
                    }
                    return Err(e);
                },
            };
            next.bounds();
            let k: Ghost<nat> = Ghost((dtm.day() - next.day()) as nat);
            assert(weekdays_before(dtm.day(), k@) == weekdays_before(dtm.day(), (k@ - 1) as nat)
                + if is_weekday_number(dtm.day() - k@) { 1nat } else { 0nat });
            let biz = !next.weekday().is_weekend_day();
            if biz {
                taken = taken + 1;
            }
            cur = next;
        }
        cur.bounds();
        proof {
            calendar::lemma_stamp_order(cur, *dtm);
            lemma_weekdays_monotone(
                dtm.day(),
                (dtm.day() - cur.day()) as nat,
                (dtm.day() - MIN_DAY) as nat,
            );
            lemma_skipper_counts_before(*self, *dtm, (dtm.day() - cur.day()) as nat);
        }
        Ok(cur)
    }
}

/// Weekdays among the days `a` to `b - 1`.
pub open spec fn weekdays_in(a: int, b: int) -> nat
    decreases b - a,
{
    if b <= a {
        0
    } else {
        weekdays_in(a, b - 1) + if is_weekday_number(b - 1) { 1nat } else { 0nat }
    }
}

/// A range of one day counts that day.
proof fn lemma_weekdays_in_one(a: int)
    ensures
        weekdays_in(a, a + 1) == if is_weekday_number(a) { 1nat } else { 0nat },
{
    assert(weekdays_in(a, a) == 0);
}

/// Counting over `a..b` then `b..c` counts over `a..c`.
proof fn lemma_weekdays_in_split(a: int, b: int, c: int)
    requires
        a <= b <= c,
    ensures
        weekdays_in(a, c) == weekdays_in(a, b) + weekdays_in(b, c),
    decreases c - b,
{
    if b < c {
        lemma_weekdays_in_split(a, b, c - 1);
    }
}

/// The weekdays after `start` and before `end`, as ranges.
proof fn lemma_weekdays_ranges(start: int, k: nat)
    ensures
        weekdays_after(start, k) == weekdays_in(start + 1, start + k + 1),
        weekdays_before(start, k) == weekdays_in(start - k, start),
    decreases k,
{
    if k > 0 {
        lemma_weekdays_ranges(start, (k - 1) as nat);
        lemma_weekdays_in_split(start - k, start - k + 1, start);
        lemma_weekdays_in_one(start - k);
    }
}

/// From a weekday, going back `num` weekdays from where `num` weekdays
/// forward led returns to the start: for day numbers `d <= t` with
/// `weekdays_after(d, t - d) == num`, and `u <= t` with
/// `weekdays_before(t, t - u) == num`, where `d`, and (for `num > 0`) `t`
/// and `u`, are weekdays, `u` is `d`.
pub proof fn law_retreat_undoes_advance(d: int, t: int, u: int, num: nat)
    requires
        d <= t,
        u <= t,
        is_weekday_number(d),
        weekdays_after(d, (t - d) as nat) == num,
        weekdays_before(t, (t - u) as nat) == num,
        num == 0 ==> t == d && u == t,
        num > 0 ==> is_weekday_number(t) && is_weekday_number(u),
    ensures
        u == d,
{
    if num > 0 {
        lemma_weekdays_ranges(d, (t - d) as nat);
        lemma_weekdays_ranges(t, (t - u) as nat);
        lemma_weekdays_in_split(d, d + 1, t + 1);
        lemma_weekdays_in_split(d, t, t + 1);
        lemma_weekdays_in_one(d);
        lemma_weekdays_in_one(t);
        assert(weekdays_in(d, t) == num);
        if u < d {
            lemma_weekdays_in_split(u, d, t);
            lemma_weekdays_in_split(u, u + 1, d);
            lemma_weekdays_in_one(u);
        } else if u > d {
            lemma_weekdays_in_split(d, u, t);
            lemma_weekdays_in_split(d, d + 1, u);
            lemma_weekdays_in_split(u, u + 1, t);
            lemma_weekdays_in_one(u);
        }
    }
}

/// From a weekday, going forward `num` weekdays from where `num` weekdays
/// back led returns to the start: for day numbers `t <= d` with
/// `weekdays_before(d, d - t) == num`, and `t <= u` with
/// `weekdays_after(t, u - t) == num`, where `d`, and (for `num > 0`) `t`
/// and `u`, are weekdays, `u` is `d`.
pub proof fn law_advance_undoes_retreat(d: int, t: int, u: int, num: nat)
    requires
        t <= d,
        t <= u,
        is_weekday_number(d),
        weekdays_before(d, (d - t) as nat) == num,
        weekdays_after(t, (u - t) as nat) == num,
        num == 0 ==> t == d && u == t,
        num > 0 ==> is_weekday_number(t) && is_weekday_number(u),
    ensures
        u == d,
{
    if num > 0 {
        lemma_weekdays_ranges(d, (d - t) as nat);
        lemma_weekdays_ranges(t, (u - t) as nat);
        lemma_weekdays_in_split(t, t + 1, d + 1);
        lemma_weekdays_in_split(t, d, d + 1);
        lemma_weekdays_in_one(d);
        lemma_weekdays_in_one(t);
        assert(weekdays_in(t + 1, d + 1) == num);
        if u < d {
            lemma_weekdays_in_split(t + 1, u + 1, d + 1);
            lemma_weekdays_in_split(u + 1, d, d + 1);
        } else if u > d {
            lemma_weekdays_in_split(t + 1, d + 1, u + 1);
            lemma_weekdays_in_split(d + 1, u, u + 1);
            lemma_weekdays_in_one(u);
        }
    }
}

/// When the `k` days after `start` hold one weekday, the last of them, the
/// days before it hold none.
pub proof fn lemma_first_weekday_after(start: int, k: nat)
    requires
        k > 0,
        weekdays_after(start, k) == 1,
        is_weekday_number(start + k),
    ensures
        forall|j: int| start < j < start + k ==> !#[trigger] is_weekday_number(j),
{
    assert forall|j: int| start < j < start + k implies !#[trigger] is_weekday_number(j) by {
        lemma_weekdays_monotone(start, (j - start) as nat, (k - 1) as nat);
        assert(weekdays_after(start, (j - start) as nat) == weekdays_after(
            start,
            (j - start - 1) as nat,
        ) + if is_weekday_number(j) { 1nat } else { 0nat });
    }
}

/// When the `k` days before `start` hold one weekday, the first of them,
/// the days after it hold none.
pub proof fn lemma_first_weekday_before(start: int, k: nat)
    requires
        k > 0,
        weekdays_before(start, k) == 1,
        is_weekday_number(start - k),
    ensures
        forall|j: int| start - k < j < start ==> !#[trigger] is_weekday_number(j),
{
    assert forall|j: int| start - k < j < start implies !#[trigger] is_weekday_number(j) by {
        lemma_weekdays_monotone(start, (start - j) as nat, (k - 1) as nat);
        assert(weekdays_before(start, (start - j) as nat) == weekdays_before(
            start,
            (start - j - 1) as nat,
        ) + if is_weekday_number(j) { 1nat } else { 0nat });
    }
}

/// From a weekend day, the days after it up to the first weekday are two
/// from a Saturday and one from a Sunday: no other count holds exactly one
/// weekday.
pub proof fn lemma_weekend_next(start: int, k: nat)
    requires
        !is_weekday_number(start),
        weekdays_after(start, k) == 1,
    ensures
        k == (if calendar::weekday_index_of_day(start) == 5 { 2int } else { 1int }),
{
    lemma_weekday_shift(start, 1);
    lemma_weekday_shift(start, 2);
    lemma_weekday_shift(start, 3);
    reveal_with_fuel(weekdays_after, 4);
    if k > 3 {
        lemma_weekdays_monotone(start, 3, k);
    }
}

/// From a weekend day, the days before it down to the first weekday are
/// one from a Saturday and two from a Sunday: no other count holds exactly
/// one weekday.
pub proof fn lemma_weekend_prev(start: int, k: nat)
    requires
        !is_weekday_number(start),
        weekdays_before(start, k) == 1,
    ensures
        k == (if calendar::weekday_index_of_day(start) == 5 { 1int } else { 2int }),
{
    lemma_weekday_shift(start, -1);
    lemma_weekday_shift(start, -2);
    lemma_weekday_shift(start, -3);
    reveal_with_fuel(weekdays_before, 4);
    if k > 3 {
        lemma_weekdays_monotone(start, 3, k);
    }
}

/// For [`WeekendSkipper`], the business days after a date are its
/// weekdays.
pub proof fn lemma_skipper_counts_after(ws: WeekendSkipper, from: NaiveDateTime, k: nat)
    requires
        MIN_DAY <= from.day(),
        from.day() + k <= MAX_DAY,
    ensures
        biz_days_after(|u: NaiveDateTime| ws.is_biz(u), from, k) == weekdays_after(from.day(), k),
    decreases k,
{
    if k > 0 {
        lemma_skipper_counts_after(ws, from, (k - 1) as nat);
        NaiveDateTime::lemma_at_day(from.day() + k, from.sod());
    }
}

/// For [`WeekendSkipper`], the business days before a date are its
/// weekdays.
pub proof fn lemma_skipper_counts_before(ws: WeekendSkipper, from: NaiveDateTime, k: nat)
    requires
        MIN_DAY <= from.day() - k,
        from.day() <= MAX_DAY,
    ensures
        biz_days_before(|u: NaiveDateTime| ws.is_biz(u), from, k) == weekdays_before(from.day(), k),
    decreases k,
{
    if k > 0 {
        lemma_skipper_counts_before(ws, from, (k - 1) as nat);
        NaiveDateTime::lemma_at_day(from.day() - k, from.sod());
    }
}

/// For [`WeekendSkipper`], retreating by `n` business days undoes
/// advancing by `n` from a weekday: when `t` is what `add(d, n)` returns
/// (as its contract states it) and `u` what `sub(t, n)` returns, `u` is `d`.
pub proof fn law_sub_undoes_add(d: NaiveDateTime, t: NaiveDateTime, u: NaiveDateTime, n: u32)
    requires
        is_weekday_number(d.day()),
        t.sod() == d.sod() && t.day() >= d.day() && weekdays_after(d.day(), (t.day() - d.day()) as nat)
            == n,
        n > 0 ==> is_weekday_number(t.day()),
        n == 0 ==> t == d,
        u.sod() == t.sod() && u.day() <= t.day() && weekdays_before(t.day(), (t.day() - u.day()) as nat)
            == n,
        n > 0 ==> is_weekday_number(u.day()),
        n == 0 ==> u == t,
    ensures
        u == d,
{
    law_retreat_undoes_advance(d.day(), t.day(), u.day(), n as nat);
    calendar::lemma_stamp_parts(u);
    calendar::lemma_stamp_parts(d);
    calendar::lemma_stamp_eq(u, d);
}

/// For [`WeekendSkipper`], advancing by `n` business days undoes
/// retreating by `n` from a weekday: when `t` is what `sub(d, n)` returns
/// (as its contract states it) and `u` what `add(t, n)` returns, `u` is `d`.
pub proof fn law_add_undoes_sub(d: NaiveDateTime, t: NaiveDateTime, u: NaiveDateTime, n: u32)
    requires
        is_weekday_number(d.day()),
        t.sod() == d.sod() && t.day() <= d.day() && weekdays_before(d.day(), (d.day() - t.day()) as nat)
            == n,
        n > 0 ==> is_weekday_number(t.day()),
        n == 0 ==> t == d,
        u.sod() == t.sod() && u.day() >= t.day() && weekdays_after(t.day(), (u.day() - t.day()) as nat)
            == n,
        n > 0 ==> is_weekday_number(u.day()),
        n == 0 ==> u == t,
    ensures
        u == d,
{
    law_advance_undoes_retreat(d.day(), t.day(), u.day(), n as nat);
    calendar::lemma_stamp_parts(u);
    calendar::lemma_stamp_parts(d);
    calendar::lemma_stamp_eq(u, d);
}

/// [`WeekendSkipper`]'s nearest business day (its `Nearest` direction, and
/// the `~W`/`~B` adjustments) for the day number `n`, the `dom`-th day of a
/// month of `last` days: a weekday, at most two days away, and always in
/// the same month. A weekday stays; a weekend day on the 1st steps forward,
/// one on the last day of the month steps back, and any other Saturday goes
/// to the Friday before, any other Sunday to the Monday after.
pub proof fn law_nearest_biz_day(n: int, dom: int, last: int)
    requires
        1 <= dom <= last,
        28 <= last <= 31,
    ensures
        1 <= dom + nearest_shift(calendar::weekday_index_of_day(n), dom, last) <= last,
        is_weekday_number(n + nearest_shift(calendar::weekday_index_of_day(n), dom, last)),
        -2 <= nearest_shift(calendar::weekday_index_of_day(n), dom, last) <= 2,
        is_weekday_number(n) <==> nearest_shift(calendar::weekday_index_of_day(n), dom, last) == 0,
        !is_weekday_number(n) && dom == 1 ==> nearest_shift(calendar::weekday_index_of_day(n), dom, last)
            > 0,
        !is_weekday_number(n) && dom == last ==> nearest_shift(
            calendar::weekday_index_of_day(n),
            dom,
            last,
        ) < 0,
        !is_weekday_number(n) && 1 < dom < last ==> (calendar::weekday_index_of_day(n) == 5
            ==> nearest_shift(calendar::weekday_index_of_day(n), dom, last) == -1) && (
        calendar::weekday_index_of_day(n) == 6 ==> nearest_shift(
            calendar::weekday_index_of_day(n),
            dom,
            last,
        ) == 1),
{
    let w = calendar::weekday_index_of_day(n);
    let s = nearest_shift(w, dom, last);
    assert(0 <= w < 7);
    assert(calendar::weekday_index_of_day(n + s) == (w + s + 7) % 7) by {
        assert((n + s - 1) % 7 == ((n - 1) % 7 + s + 7) % 7);
    }
}

/// Counting weekdays over more days never counts fewer.
pub proof fn lemma_weekdays_monotone(start: int, a: nat, b: nat)
    requires
        a <= b,
    ensures
        weekdays_after(start, a) <= weekdays_after(start, b),
        weekdays_before(start, a) <= weekdays_before(start, b),
    decreases b,
{
    if a < b {
        lemma_weekdays_monotone(start, a, (b - 1) as nat);
    }
}

/// Moving a date-time by whole days moves its day number and keeps its
/// time of day.
pub proof fn lemma_shift_days(a: NaiveDateTime, b: NaiveDateTime, days: int)
    requires
        b.stamp() == a.stamp() + days * 86400,
        a.stamp() >= 0,
    ensures
        b.day() == a.day() + days,
        b.sod() == a.sod(),
{
    assert((a.stamp() + days * 86400) / 86400 == a.stamp() / 86400 + days) by (nonlinear_arith);
    assert((a.stamp() + days * 86400) % 86400 == a.stamp() % 86400) by (nonlinear_arith);
}

pub proof fn lemma_weekday_shift(n: int, k: int)
    ensures
        calendar::weekday_index_of_day(n + k) == (calendar::weekday_index_of_day(n) + k) % 7,
{
    assert(((n + k) - 1) % 7 == (((n - 1) % 7) + k) % 7) by (nonlinear_arith);
}

} // verus!
