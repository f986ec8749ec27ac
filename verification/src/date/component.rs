//! The year, month and day components of a date spec: each finds the next
//! date that its own rule allows.

use vstd::prelude::*;

use crate::biz_day::{BizDayProcessor, WeekendSkipper};
use crate::calendar::{
    self, days_from_ce, days_in_month, month_length, valid_ymd, weekday_index_of_day, NaiveDateTime, Weekday, MAX_DAY,
    MAX_YEAR, MIN_DAY, MIN_YEAR,
};
use crate::date::spec::{
    strictly_sorted, strictly_sorted_weekdays, Cycle, DayCycle, LastDayOption, NextNthDayOption,
    WeekdayOption,
};
use crate::error::{Error, Result};
use crate::utils::{nth_last_weekday_day, nth_weekday_day, DateLikeUtils, WEEKDAY_REACH};

verus! {

/// Euclidean remainder of `a` by `n`.
pub fn rem_euclid(a: i64, n: u32) -> (r: u32)
    requires
        n > 0,
    ensures
        r as int == a as int % n as int,
        r < n,
{
    if a >= 0 {
        let r = (a as u64 % n as u64) as u32;
        r
    } else {
        let b: u64 = if a == i64::MIN {
            9223372036854775808u64
        } else {
            (-a) as u64
        };
        assert(b as int == -(a as int));
        let s: u64 = b % n as u64;
        let q: u64 = b / n as u64;
        proof {
            assert(b as int == q as int * n as int + s as int) by (nonlinear_arith)
                requires
                    q == b / n as u64,
                    s == b % n as u64,
                    n > 0,
            ;
        }
        proof {
            assert(a as int == (-(q as int)) * n as int - s as int) by (nonlinear_arith)
                requires
                    b as int == q as int * n as int + s as int,
                    b as int == -(a as int),
            ;
            assert(a as int == (-(q as int) - 1) * n as int + (n as int - s as int)) by (nonlinear_arith)
                requires
                    a as int == (-(q as int)) * n as int - s as int,
            ;
        }
        if s == 0 {
            proof {
                vstd::arithmetic::div_mod::lemma_fundamental_div_mod_converse(
                    a as int,
                    n as int,
                    -(q as int),
                    0,
                );
            }
            0
        } else {
            proof {
                vstd::arithmetic::div_mod::lemma_fundamental_div_mod_converse(
                    a as int,
                    n as int,
                    -(q as int) - 1,
                    n as int - s as int,
                );
            }
            (n as u64 - s) as u32
        }
    }
}

/// The year and month `num` months after `y-m`.
pub open spec fn months_after(y: int, m: int, num: int) -> (int, int) {
    (y + (m - 1 + num) / 12, (m - 1 + num) % 12 + 1)
}

/// January 1 follows December 31.
#[verifier::spinoff_prover]
proof fn lemma_year_end(y: int)
    ensures
        days_from_ce(y + 1, 1, 1) == days_from_ce(y, 12, 31) + 1,
{
    let p = y - 1;
    assert(y / 4 - p / 4 == if y % 4 == 0 { 1int } else { 0int }) by (nonlinear_arith)
        requires p == y - 1;
    assert(y / 100 - p / 100 == if y % 100 == 0 { 1int } else { 0int }) by (nonlinear_arith)
        requires p == y - 1;
    assert(y / 400 - p / 400 == if y % 400 == 0 { 1int } else { 0int }) by (nonlinear_arith)
        requires p == y - 1;
}

/// The first day of the next month follows the last day of a month.
#[verifier::spinoff_prover]
pub proof fn lemma_next_month_first(y: int, m: int)
    requires
        1 <= m <= 12,
    ensures
        days_from_ce(months_after(y, m, 1).0, months_after(y, m, 1).1, 1) == days_from_ce(
            y,
            m,
            days_in_month(y, m),
        ) + 1,
{
    if m == 12 {
        assert(months_after(y, m, 1) == (y + 1, 1int));
        lemma_year_end(y);
    } else {
        assert(months_after(y, m, 1) == (y, m + 1));
    }
}

/// Year and month `num` months after `y-m`.
pub fn ffwd_months(y: i32, m: u32, num: u32) -> (r: (i64, u32))
    requires
        1 <= m <= 12,
    ensures
        (r.0 as int, r.1 as int) == months_after(y as int, m as int, num as int),
        1 <= r.1 <= 12,
{
    let t: u64 = (m - 1) as u64 + num as u64;
    ((y as i64) + (t / 12) as i64, (t % 12) as u32 + 1)
}

/// Midnight of the first day of month `m` of year `y`; an error when the
/// year is outside the calendar.
pub fn first_of_month(y: i64, m: u32) -> (r: Result<NaiveDateTime>)
    requires
        1 <= m <= 12,
    ensures
        r is Ok <==> MIN_YEAR <= y <= MAX_YEAR,
        r matches Ok(t) ==> t.ymd() == (y as int, m as int, 1int) && t.sod() == 0 && t.day()
            == days_from_ce(y as int, m as int, 1),
        r matches Err(e) ==> e == Error::OutOfRange,
{
    if y < MIN_YEAR as i64 || y > MAX_YEAR as i64 {
        return Err(Error::OutOfRange);
    }
    match NaiveDateTime::midnight(y as i32, m, 1) {
        Some(t) => Ok(t),
        None => Err(Error::OutOfRange),
    }
}

/// Year of a date-time, with the facts that come with it.
pub fn ymd_of(t: &NaiveDateTime) -> (r: (i32, u32, u32))
    ensures
        (r.0 as int, r.1 as int, r.2 as int) == t.ymd(),
        valid_ymd(r.0 as int, r.1 as int, r.2 as int),
        days_from_ce(r.0 as int, r.1 as int, r.2 as int) == t.day(),
{
    t.to_ymd()
}

/// A cadence of every `n` years or months never has `n == 0`.
pub open spec fn cadence_ok(c: Cycle) -> bool {
    c matches Cycle::NextNth(n) ==> n > 0
}

/// A set of years names only years of the calendar.
pub open spec fn years_in_calendar(c: Cycle) -> bool {
    c matches Cycle::Values(v) ==> forall|i: int| 0 <= i < v@.len() ==> #[trigger] v@[i] <= MAX_YEAR
}

/// A set of months names only months.
pub open spec fn months_in_calendar(c: Cycle) -> bool {
    c matches Cycle::Values(v) ==> forall|i: int| 0 <= i < v@.len() ==> 1 <= #[trigger] v@[i] <= 12
}

/// Index of the first element of a sorted sequence that is at least `x`
/// (the length when there is none).
pub open spec fn first_at_least(s: Seq<u32>, x: int) -> int
    decreases s.len(),
{
    if s.len() == 0 {
        0
    } else if s[0] >= x {
        0
    } else {
        1 + first_at_least(s.drop_first(), x)
    }
}

pub proof fn lemma_first_at_least(s: Seq<u32>, x: int)
    ensures
        0 <= first_at_least(s, x) <= s.len(),
    decreases s.len(),
{
    if s.len() > 0 && s[0] < x {
        lemma_first_at_least(s.drop_first(), x);
    }
}

/// In a strictly sorted sequence that holds `x`, the first element that is
/// at least `x` is `x`.
pub proof fn lemma_first_at_least_hit(s: Seq<u32>, x: u32)
    requires
        strictly_sorted(s),
        s.contains(x),
    ensures
        first_at_least(s, x as int) < s.len(),
        s[first_at_least(s, x as int)] == x,
    decreases s.len(),
{
    let j = choose|j: int| 0 <= j < s.len() && s[j] == x;
    if s[0] < x {
        let t = s.drop_first();
        assert(j > 0);
        assert(t[j - 1] == x);
        assert(t.contains(x));
        assert(strictly_sorted(t));
        lemma_first_at_least_hit(t, x);
        lemma_first_at_least(t, x as int);
        let k = first_at_least(t, x as int);
        assert(first_at_least(s, x as int) == 1 + k);
        assert(s[1 + k] == t[k]);
    } else if j > 0 {
        assert(s[0] < s[j]);
    }
}

/// Index of the first element of a sorted sequence that is at least `x`.
pub fn find_at_least(v: &Vec<u32>, x: u32) -> (r: usize)
    ensures
        r <= v@.len(),
        r as int == first_at_least(v@, x as int),
        forall|j: int| 0 <= j < r ==> v@[j] < x,
        r < v@.len() ==> v@[r as int] >= x,
{
    let mut i: usize = 0;
    assert(v@.skip(0) =~= v@);
    while i < v.len() && v[i] < x
        invariant
            0 <= i <= v@.len(),
            forall|j: int| 0 <= j < i ==> v@[j] < x,
            first_at_least(v@, x as int) == i + first_at_least(v@.skip(i as int), x as int),
        decreases v@.len() - i,
    {
        proof {
            let t = v@.skip(i as int);
            assert(t[0] == v@[i as int]);
            assert(t.drop_first() =~= v@.skip(i + 1));
        }
        i = i + 1;
    }
    proof {
        let t = v@.skip(i as int);
        if i < v@.len() {
            assert(t[0] == v@[i as int]);
        } else {
            assert(t.len() == 0);
        }
    }
    i
}

/// The years component: the date at which the next allowed year begins,
/// `after` itself when its year is allowed (and, for a cadence, the year
/// was already positioned at the first of a month).
pub open spec fn year_next_spec(c: Cycle, after: NaiveDateTime, start: NaiveDateTime) -> Option<
    (int, int, int),
> {
    match c {
        Cycle::Values(v) => {
            let i = first_at_least(v@, after.year());
            if after.year() < 0 || i >= v@.len() {
                None
            } else {
                Some((v@[i] as int, 1, 1))
            }
        },
        Cycle::NextNth(n) => {
            let diff = after.year() - start.year();
            let rem = diff % (n as int);
            let next_year = if rem == 0 && after.dom() == 1 {
                after.year()
            } else {
                after.year() + (n - rem)
            };
            Some((next_year, after.month(), 1))
        },
        _ => None,
    }
}

/// The years component of the iteration.
pub fn year_next_date(c: &Cycle, after: &NaiveDateTime, start: &NaiveDateTime) -> (r: Result<
    Option<NaiveDateTime>,
>)
    requires
        cadence_ok(*c),
        c.wf(),
    ensures
        (c is AsIs || c is ForEach) ==> r == Ok::<Option<NaiveDateTime>, Error>(Some(*after)),
        c is Values ==> match year_next_spec(*c, *after, *start) {
            None => r == Ok::<Option<NaiveDateTime>, Error>(None),
            Some((y, m, d)) => if y == after.year() {
                r == Ok::<Option<NaiveDateTime>, Error>(Some(*after))
            } else {
                (r matches Ok(Some(t)) ==> t.ymd() == (y, m, d) && t.sod() == 0) && (r is Err
                    <==> y > MAX_YEAR) && !(r matches Ok(None))
            },
        },
        c is NextNth ==> (year_next_spec(*c, *after, *start) matches Some((y, m, d)) && (
        r matches Ok(Some(t)) ==> t.ymd() == (y, m, d) && t.sod() == 0) && (r is Err ==> y
            > MAX_YEAR)) && !(r matches Ok(None)),
        r is Err ==> r == Err::<Option<NaiveDateTime>, Error>(Error::OutOfRange),
{
    match c {
        Cycle::AsIs => Ok(Some(*after)),
        Cycle::ForEach => Ok(Some(*after)),
        Cycle::Values(values) => {
            let (y, _m, _d) = ymd_of(after);
            if y < 0 {
                return Ok(None);
            }
            let i = find_at_least(values, y as u32);
            if i >= values.len() {
                return Ok(None);
            }
            let next_year = values[i];
            if next_year == y as u32 {
                Ok(Some(*after))
            } else {
                match first_of_month(next_year as i64, 1) {
                    Ok(t) => Ok(Some(t)),
                    Err(e) => Err(e),
                }
            }
        },
        Cycle::NextNth(n) => {
            let (sy, _sm, _sd) = ymd_of(start);
            let (ay, am, ad) = ymd_of(after);
            let diff: i64 = ay as i64 - sy as i64;
            let rem = rem_euclid(diff, *n);
            let next_year: i64 = if rem == 0 && ad == 1 {
                ay as i64
            } else {
                ay as i64 + (*n - rem) as i64
            };
            match first_of_month(next_year, am) {
                Ok(t) => Ok(Some(t)),
                Err(e) => Err(e),
            }
        },
    }
}

/// The months component: `after` itself when its month is allowed (and,
/// for a cadence, need not advance), else the first of the next allowed
/// month.
pub open spec fn month_next_spec(
    c: Cycle,
    after: NaiveDateTime,
    start: NaiveDateTime,
    must_advance: bool,
) -> Option<(int, int)> {
    match c {
        Cycle::Values(v) => {
            let i = first_at_least(v@, after.month());
            if i < v@.len() {
                Some((after.year(), v@[i] as int))
            } else if v@.len() > 0 {
                Some((after.year() + 1, v@[0] as int))
            } else {
                None
            }
        },
        Cycle::NextNth(n) => {
            let total = (after.year() - start.year()) * 12 + (after.month() - start.month());
            let rem = total % (n as int);
            if !must_advance && rem == 0 {
                Some((after.year(), after.month()))
            } else {
                Some(months_after(after.year(), after.month(), n - rem))
            }
        },
        _ => Some((after.year(), after.month())),
    }
}

/// The month component of the iteration.
pub fn month_next_date(
    c: &Cycle,
    after: &NaiveDateTime,
    start: &NaiveDateTime,
    must_advance: bool,
) -> (r: Result<Option<NaiveDateTime>>)
    requires
        cadence_ok(*c),
        c.wf(),
        months_in_calendar(*c),
    ensures
        match month_next_spec(*c, *after, *start, must_advance) {
            None => r == Ok::<Option<NaiveDateTime>, Error>(None),
            Some((y, m)) => if y == after.year() && m == after.month() {
                r == Ok::<Option<NaiveDateTime>, Error>(Some(*after))
            } else {
                (r matches Ok(Some(t)) ==> t.ymd() == (y, m, 1int) && t.sod() == 0) && (r is Err
                    ==> y > MAX_YEAR) && !(r matches Ok(None))
            },
        },
        r is Err ==> r == Err::<Option<NaiveDateTime>, Error>(Error::OutOfRange),
{
    match c {
        Cycle::AsIs => Ok(Some(*after)),
        Cycle::ForEach => Ok(Some(*after)),
        Cycle::Values(values) => {
            let (y, m, _d) = ymd_of(after);
            let i = find_at_least(values, m);
            if i < values.len() {
                let next_month = values[i];
                if next_month == m {
                    return Ok(Some(*after));
                }
                match first_of_month(y as i64, next_month) {
                    Ok(t) => Ok(Some(t)),
                    Err(e) => Err(e),
                }
            } else if values.len() > 0 {
                match first_of_month(y as i64 + 1, values[0]) {
                    Ok(t) => Ok(Some(t)),
                    Err(e) => Err(e),
                }
            } else {
                Ok(None)
            }
        },
        Cycle::NextNth(n) => {
            let (sy, sm, _sd) = ymd_of(start);
            let (ay, am, _ad) = ymd_of(after);
            let total: i64 = (ay as i64 - sy as i64) * 12 + (am as i64 - sm as i64);
            let rem = rem_euclid(total, *n);
            if !must_advance && rem == 0 {
                return Ok(Some(*after));
            }
            let (y, m) = ffwd_months(ay, am, *n - rem);
            proof {
                assert(n - rem > 0);
                assert(!(y as int == ay as int && m as int == am as int)) by (nonlinear_arith)
                    requires
                        (y as int, m as int) == months_after(ay as int, am as int, n - rem),
                        n - rem > 0,
                        1 <= am <= 12,
                ;
            }
            match first_of_month(y, m) {
                Ok(t) => Ok(Some(t)),
                Err(e) => Err(e),
            }
        },
    }
}

/// Which occurrence a weekday option names (`None` and 0 name the first).
pub open spec fn occurrence(o: Option<u8>) -> int {
    match o {
        Some(k) => if k == 0 {
            1
        } else {
            k as int
        },
        None => 1,
    }
}

/// The rule that a date chosen by a day component obeys.
pub open spec fn day_rule(d: DayCycle, t: NaiveDateTime) -> bool {
    match d {
        DayCycle::OnDays { days, option } => if days@.len() == 0 {
            option == LastDayOption::LastDay && t.dom() == days_in_month(t.year(), t.month())
        } else {
            days@.contains(t.dom() as u32) || (option != LastDayOption::NA && t.dom()
                == days_in_month(t.year(), t.month()) && exists|i: int|
                0 <= i < days@.len() && !(1 <= #[trigger] days@[i] <= days_in_month(t.year(), t.month())))
        },
        DayCycle::OnWeekDays { weekdays, option } => match option {
            WeekdayOption::NA => exists|i: int|
                0 <= i < weekdays@.len() && #[trigger] weekdays@[i].0.index() == t.weekday_index(),
            WeekdayOption::Starting(o) => weekdays@.len() > 0 && t.weekday_index()
                == weekdays@[0].0.index() && (occurrence(o) <= 5 ==> (t.dom() - 1) / 7
                == occurrence(o) - 1) && (occurrence(o) > 5 ==> exists|y: int|
                t.day() == #[trigger] nth_weekday_day(
                    y,
                    t.month(),
                    weekdays@[0].0.index(),
                    occurrence(o),
                )),
            WeekdayOption::Ending(o) => weekdays@.len() > 0 && t.weekday_index()
                == weekdays@[0].0.index() && (occurrence(o) <= 5 ==> (days_in_month(
                t.year(),
                t.month(),
            ) - t.dom()) / 7 == occurrence(o) - 1) && (occurrence(o) > 5 ==> exists|y: int|
                t.day() == #[trigger] nth_last_weekday_day(
                    y,
                    t.month(),
                    weekdays@[0].0.index(),
                    occurrence(o),
                )),
        },
        _ => true,
    }
}

/// A day rule that a date can be checked against on its own: not a step
/// from the previous date, nor a weekday occurrence past the fifth.
pub open spec fn rule_checkable(d: DayCycle) -> bool {
    match d {
        DayCycle::NextNth(..) => false,
        DayCycle::OnWeekDays { option, .. } => match option {
            WeekdayOption::Starting(o) => occurrence(o) <= 5,
            WeekdayOption::Ending(o) => occurrence(o) <= 5,
            WeekdayOption::NA => true,
        },
        _ => true,
    }
}

/// Whether the day rule can be checked date by date.
pub fn is_rule_checkable(d: &DayCycle) -> (r: bool)
    ensures
        r == rule_checkable(*d),
{
    match d {
        DayCycle::NextNth(..) => false,
        DayCycle::OnWeekDays { option, .. } => match option {
            WeekdayOption::Starting(o) | WeekdayOption::Ending(o) => match o {
                Some(k) => *k <= 5,
                None => true,
            },
            WeekdayOption::NA => true,
        },
        _ => true,
    }
}

/// Whether `t` obeys the day rule.
pub fn day_rule_holds(d: &DayCycle, t: &NaiveDateTime) -> (r: bool)
    requires
        rule_checkable(*d),
    ensures
        r == day_rule(*d, *t),
{
    match d {
        DayCycle::OnDays { days, option } => {
            let (y, m, dom) = ymd_of(t);
            let dim = month_length(y, m);
            if days.len() == 0 {
                return matches!(option, LastDayOption::LastDay) && dom == dim;
            }
            let mut listed = false;
            let mut missing = false;
            let mut i: usize = 0;
            while i < days.len()
                invariant
                    0 <= i <= days@.len(),
                    listed == (exists|j: int| 0 <= j < i && days@[j] == dom),
                    missing == (exists|j: int|
                        0 <= j < i && !(1 <= #[trigger] days@[j] <= dim as int)),
                decreases days@.len() - i,
            {
                if days[i] == dom {
                    listed = true;
                }
                if days[i] < 1 || days[i] > dim {
                    missing = true;
                }
                i = i + 1;
            }
            proof {
                if listed {
                    let j = choose|j: int| 0 <= j < days@.len() && days@[j] == dom;
                    assert(days@.contains(dom));
                }
                if days@.contains(t.dom() as u32) {
                    let j = choose|j: int| 0 <= j < days@.len() && days@[j] == t.dom() as u32;
                    assert(days@[j] == dom);
                }
            }
            listed || (!matches!(option, LastDayOption::NA) && dom == dim && missing)
        },
        DayCycle::OnWeekDays { weekdays, option } => {
            let w = t.weekday().num_days_from_monday();
            match option {
                WeekdayOption::NA => has_weekday(weekdays, w),
                WeekdayOption::Starting(o) | WeekdayOption::Ending(o) => {
                    if weekdays.len() == 0 {
                        return false;
                    }
                    let occ: u32 = match o {
                        Some(k) => if *k == 0 {
                            1
                        } else {
                            *k as u32
                        },
                        None => 1,
                    };
                    let (y, m, dom) = ymd_of(t);
                    let dim = month_length(y, m);
                    let k = if matches!(option, WeekdayOption::Ending(_)) {
                        (dim - dom) / 7
                    } else {
                        (dom - 1) / 7
                    };
                    weekdays[0].0.num_days_from_monday() == w && k == occ - 1
                },
            }
        },
        _ => true,
    }
}

/// The date that a days rule `OnDays { days, option }` gives after the
/// date `y-m-dom`: the next listed day of this month, else the first listed
/// day of the next month. A listed day that the month lacks moves, under
/// `NA`, to the first listed day of the month after; under the other
/// options, to the month's last day. `None` when that first listed day is
/// missing too, or when no day is listed and the option is not `LastDay`
/// (which, with no day listed, gives the next last day of a month).
pub open spec fn on_days_next(
    days: Seq<u32>,
    option: LastDayOption,
    y: int,
    m: int,
    dom: int,
) -> Option<(int, int, int)> {
    let dim = days_in_month(y, m);
    let next = months_after(y, m, 1);
    if days.len() == 0 {
        if option == LastDayOption::LastDay {
            if dom == dim {
                Some((next.0, next.1, days_in_month(next.0, next.1)))
            } else {
                Some((y, m, dim))
            }
        } else {
            None
        }
    } else {
        let i = if dom == dim { days.len() as int } else { first_at_least(days, dom + 1) };
        let t = if i < days.len() { (y, m, days[i] as int) } else { (next.0, next.1, days[0] as int) };
        if 1 <= t.2 <= days_in_month(t.0, t.1) {
            Some(t)
        } else if option == LastDayOption::NA {
            let u = months_after(t.0, t.1, 1);
            if 1 <= days[0] <= days_in_month(u.0, u.1) {
                Some((u.0, u.1, days[0] as int))
            } else {
                None
            }
        } else {
            Some((t.0, t.1, days_in_month(t.0, t.1)))
        }
    }
}

/// The element that `first_at_least` finds is at least `x`.
proof fn lemma_first_at_least_ge(s: Seq<u32>, x: int)
    ensures
        first_at_least(s, x) < s.len() ==> s[first_at_least(s, x)] >= x,
    decreases s.len(),
{
    if s.len() > 0 && s[0] < x {
        lemma_first_at_least_ge(s.drop_first(), x);
        lemma_first_at_least(s.drop_first(), x);
    }
}

/// The date that [`on_days_next`] gives is a listed day, or the last day of
/// a month that lacks a listed day.
pub proof fn lemma_on_days_next_rule(days: Seq<u32>, option: LastDayOption, y: int, m: int, dom: int)
    ensures
        on_days_next(days, option, y, m, dom) matches Some((y2, m2, d2)) ==> if days.len() == 0 {
            option == LastDayOption::LastDay && d2 == days_in_month(y2, m2)
        } else {
            days.contains(d2 as u32) || (option != LastDayOption::NA && d2 == days_in_month(y2, m2)
                && exists|i: int| 0 <= i < days.len() && !(1 <= #[trigger] days[i] <= days_in_month(y2, m2)))
        },
{
    if days.len() > 0 {
        let dim = days_in_month(y, m);
        let next = months_after(y, m, 1);
        let i = if dom == dim { days.len() as int } else { first_at_least(days, dom + 1) };
        lemma_first_at_least(days, dom + 1);
        let k = if i < days.len() { i } else { 0 };
        let t = if i < days.len() { (y, m, days[i] as int) } else { (next.0, next.1, days[0] as int) };
        assert(t.2 == days[k]);
        if 1 <= t.2 <= days_in_month(t.0, t.1) {
            assert(days.contains(days[k]));
        } else if option == LastDayOption::NA {
            assert(days.contains(days[0]));
        } else {
            assert(!(1 <= days[k] <= days_in_month(t.0, t.1)));
        }
    }
}

/// The date that [`on_days_next`] gives lies after `y-m-dom`.
pub proof fn lemma_on_days_next_later(days: Seq<u32>, option: LastDayOption, y: int, m: int, dom: int)
    requires
        1 <= m <= 12,
        1 <= dom <= days_in_month(y, m),
    ensures
        on_days_next(days, option, y, m, dom) matches Some((y2, m2, d2)) ==> days_from_ce(y2, m2, d2)
            > days_from_ce(y, m, dom) && 1 <= m2 <= 12 && 1 <= d2 <= days_in_month(y2, m2),
{
    let dim = days_in_month(y, m);
    let next = months_after(y, m, 1);
    lemma_next_month_first(y, m);
    lemma_next_month_first(next.0, next.1);
    assert(days_from_ce(y, m, dim) >= days_from_ce(y, m, dom));
    assert(1 <= next.1 <= 12);
    let after2 = months_after(next.0, next.1, 1);
    assert(1 <= after2.1 <= 12);
    if days.len() > 0 && dom != dim {
        lemma_first_at_least_ge(days, dom + 1);
    }
}

/// `t` moved by `k` days, keeping the time of day.
pub fn shift_days(t: &NaiveDateTime, k: i64) -> (r: Result<NaiveDateTime>)
    ensures
        r matches Ok(u) ==> u.stamp() == t.stamp() + k * 86400 && u.day() == t.day() + k
            && u.sod() == t.sod(),
        r matches Err(e) ==> e == Error::OutOfRange,
        r is Ok <==> 0 <= t.stamp() + k * 86400 <= calendar::MAX_TICKS,
{
    t.bounds();
    match t.add_days(k) {
        Some(u) => {
            proof {
                crate::biz_day::lemma_shift_days(*t, u, k as int);
            }
            Ok(u)
        },
        None => Err(Error::OutOfRange),
    }
}

/// The last day of month `m` of year `y`, at the time of day of `t`.
fn last_day_at(t: &NaiveDateTime, y: i64, m: u32) -> (r: Result<NaiveDateTime>)
    requires
        1 <= m <= 12,
    ensures
        r matches Ok(u) ==> u.ymd() == (y as int, m as int, days_in_month(y as int, m as int))
            && u.sod() == t.sod() && u.day() == days_from_ce(y as int, m as int, days_in_month(
            y as int,
            m as int,
        )),
        r matches Err(e) ==> e == Error::OutOfRange,
        r is Ok <==> MIN_YEAR <= y <= MAX_YEAR,
{
    if y < MIN_YEAR as i64 || y > MAX_YEAR as i64 {
        return Err(Error::OutOfRange);
    }
    let dim = month_length(y as i32, m);
    match t.at_date(y as i32, m, dim) {
        Some(u) => Ok(u),
        None => Err(Error::OutOfRange),
    }
}

/// Whether a weekday index is among the weekdays.
/// The weekday of index `w` is in `weekdays`.
pub open spec fn weekday_listed(weekdays: Seq<crate::calendar::WeekdayStartingMonday>, w: int) -> bool {
    exists|i: int| 0 <= i < weekdays.len() && #[trigger] weekdays[i].0.index() == w
}

/// Seven days in a row meet every weekday.
proof fn lemma_week_covers(start: int, w: int)
    requires
        0 <= w < 7,
    ensures
        exists|k: int| 1 <= k <= 7 && #[trigger] weekday_index_of_day(start + k) == w,
{
    let k = (w - start) % 7 + 1;
    assert(weekday_index_of_day(start + k) == w) by (nonlinear_arith)
        requires
            k == (w - start) % 7 + 1,
            0 <= w < 7,
    {
        assert(weekday_index_of_day(start + k) == (start + k - 1) % 7);
    }
}

fn has_weekday(weekdays: &Vec<crate::calendar::WeekdayStartingMonday>, w: u32) -> (r: bool)
    ensures
        r <==> exists|i: int| 0 <= i < weekdays@.len() && #[trigger] weekdays@[i].0.index() == w,
{
    let mut i: usize = 0;
    while i < weekdays.len()
        invariant
            0 <= i <= weekdays@.len(),
            forall|j: int| 0 <= j < i ==> #[trigger] weekdays@[j].0.index() != w,
        decreases weekdays@.len() - i,
    {
        if weekdays[i].0.num_days_from_monday() == w {
            return true;
        }
        i = i + 1;
    }
    false
}

/// The `occ`-th weekday `wd` of the month of `target`, from its start or
/// (`ending`) from its end, at the time of day of `target`, if the month
/// has one.
fn nth_weekday_in_month(target: &NaiveDateTime, wd: &Weekday, occ: u8, ending: bool) -> (r: Result<
    Option<NaiveDateTime>,
>)
    ensures
        r is Err <==> (if ending {
            target.day() < MIN_DAY + WEEKDAY_REACH
        } else {
            target.day() > MAX_DAY - WEEKDAY_REACH
        }),
        r is Err ==> r == Err::<Option<NaiveDateTime>, Error>(Error::OutOfRange),
        r matches Ok(o) ==> (o is Some <==> ({
            let n = if ending {
                nth_last_weekday_day(target.year(), target.month(), wd.index(), occurrence(Some(occ)))
            } else {
                nth_weekday_day(target.year(), target.month(), wd.index(), occurrence(Some(occ)))
            };
            calendar::civil_of_day(n).1 == target.month() && (occ <= 5 ==> calendar::civil_of_day(
                n,
            ).0 == target.year())
        })),
        r matches Ok(Some(t)) ==> t.month() == target.month() && t.day() == (if ending {
            nth_last_weekday_day(target.year(), target.month(), wd.index(), occurrence(Some(occ)))
        } else {
            nth_weekday_day(target.year(), target.month(), wd.index(), occurrence(Some(occ)))
        }),
        r matches Ok(Some(t)) ==> t.weekday_index() == wd.index() && t.sod() == target.sod() && (
        occurrence(Some(occ)) <= 5 ==> t.year() == target.year() && t.month() == target.month()
            && (if ending {
            (days_in_month(t.year(), t.month()) - t.dom()) / 7
        } else {
            (t.dom() - 1) / 7
        }) == occurrence(Some(occ)) - 1),
{
    target.bounds();
    let d = target.day_number();
    let (ty, tm, _td) = ymd_of(target);
    let c = if ending {
        if d < MIN_DAY + WEEKDAY_REACH {
            return Err(Error::OutOfRange);
        }
        target.to_months_last_weekday(wd, occ)
    } else {
        if d > MAX_DAY - WEEKDAY_REACH {
            return Err(Error::OutOfRange);
        }
        target.to_months_weekday(wd, occ)
    };
    match c {
        Some(t) => {
            let (cy, _cm, cd) = ymd_of(&t);
            if occ <= 5 && cy != ty {
                return Ok(None);
            }
            proof {
                if occurrence(Some(occ)) <= 5 {
                    let j = occurrence(Some(occ)) - 1;
                    let dim = days_in_month(ty as int, tm as int);
                    assert(days_from_ce(ty as int, tm as int, cd as int) == days_from_ce(
                        ty as int,
                        tm as int,
                        1,
                    ) + cd - 1);
                    if ending {
                        assert(days_from_ce(ty as int, tm as int, cd as int) == days_from_ce(
                            ty as int,
                            tm as int,
                            dim,
                        ) - (dim - cd));
                        let k = (calendar::weekday_index_of_day(
                            days_from_ce(ty as int, tm as int, dim),
                        ) - wd.index() + 7) % 7;
                        assert((dim - cd) / 7 == j) by (nonlinear_arith)
                            requires
                                dim - cd == k + 7 * j,
                                0 <= k < 7,
                                j >= 0,
                        ;
                    } else {
                        let k = (wd.index() - calendar::weekday_index_of_day(
                            days_from_ce(ty as int, tm as int, 1),
                        ) + 7) % 7;
                        assert((cd - 1) / 7 == j) by (nonlinear_arith)
                            requires
                                cd - 1 == k + 7 * j,
                                0 <= k < 7,
                                j >= 0,
                        ;
                    }
                }
            }
            Ok(Some(t))
        },
        None => Ok(None),
    }
}

/// The occurrence that a weekday option names (1 for none).
pub open spec fn option_occurrence(option: WeekdayOption) -> int {
    match option {
        WeekdayOption::Starting(o) => occurrence(o),
        WeekdayOption::Ending(o) => occurrence(o),
        WeekdayOption::NA => 1,
    }
}

/// Day number of the `occ`-th weekday `wd` of month `m` of year `y`, from
/// the month's start or (`ending`) from its end.
pub open spec fn nth_day_in(y: int, m: int, wd: int, occ: int, ending: bool) -> int {
    if ending {
        nth_last_weekday_day(y, m, wd, occ)
    } else {
        nth_weekday_day(y, m, wd, occ)
    }
}

/// That day lies in the month (for the first five occurrences, in its year
/// too).
pub open spec fn nth_lands(y: int, m: int, wd: int, occ: int, ending: bool) -> bool {
    let n = nth_day_in(y, m, wd, occ, ending);
    calendar::civil_of_day(n).1 == m && (occ <= 5 ==> calendar::civil_of_day(n).0 == y)
}

/// The first `occ`-th weekday `wd` after day `after_day`, looking at `k`
/// months from month `m` of year `y` on: its day number, and whether it is
/// in the first of these months.
pub open spec fn weekday_occurrence_next(
    y: int,
    m: int,
    wd: int,
    occ: int,
    ending: bool,
    after_day: int,
    k: nat,
    first: bool,
) -> Option<(int, bool)>
    decreases k,
{
    if k == 0 {
        None
    } else if nth_lands(y, m, wd, occ, ending) && nth_day_in(y, m, wd, occ, ending) > after_day {
        Some((nth_day_in(y, m, wd, occ, ending), first))
    } else {
        weekday_occurrence_next(
            months_after(y, m, 1).0,
            months_after(y, m, 1).1,
            wd,
            occ,
            ending,
            after_day,
            (k - 1) as nat,
            false,
        )
    }
}

/// Months that a search for the n-th weekday of a month looks at before it
/// gives up.
pub const WEEKDAY_SEARCH_MONTHS: u32 = 60;

/// The day component of the iteration: the next date that the day rule
/// allows after `after` (`None` when the rule finds none from there).
#[verifier::rlimit(60)]
#[verifier::spinoff_prover]
pub fn day_next_date<B: BizDayProcessor>(d: &DayCycle, after: &NaiveDateTime, bdp: &B) -> (r:
    Result<Option<NaiveDateTime>>)
    requires
        d.wf(),
    ensures
        d is AsIs ==> r == Ok::<Option<NaiveDateTime>, Error>(Some(*after)),
        d is ForEach ==> (r matches Ok(Some(t)) ==> t.stamp() == after.stamp() + 86400),
        d matches DayCycle::NextNth(n, NextNthDayOption::Regular) ==> (r matches Ok(Some(t))
            ==> t.stamp() == after.stamp() + n * 86400),
        d matches DayCycle::NextNth(n, NextNthDayOption::BizDay) ==> (r matches Ok(Some(t)) ==> (
        n > 0 ==> t.stamp() > after.stamp() && bdp.is_biz(t))),
        d matches DayCycle::NextNth(n, NextNthDayOption::BizDay) ==> r is Ok && (r matches Ok(Some(t))
            ==> (n == 0 ==> t == *after) && (n > 0 ==> t.day() > after.day()
            && crate::biz_day::biz_days_after(
            |u: NaiveDateTime| bdp.is_biz(u),
            *after,
            (t.day() - after.day()) as nat,
        ) == n)),
        d matches DayCycle::NextNth(n, NextNthDayOption::WeekDay) ==> (r matches Ok(Some(t)) ==> (
        n > 0 ==> t.stamp() > after.stamp() && crate::biz_day::is_weekday_number(t.day()))),
        d matches DayCycle::NextNth(n, NextNthDayOption::WeekDay) ==> r is Ok && (r matches Ok(o)
            ==> (o is Some <==> crate::biz_day::weekdays_after(after.day(), (MAX_DAY - after.day()) as nat)
            >= *n) && (o matches Some(t) ==> t.sod() == after.sod() && t.day() >= after.day()
            && crate::biz_day::weekdays_after(after.day(), (t.day() - after.day()) as nat) == n)),
        (d is OnDays || d is OnWeekDays) ==> (r matches Ok(Some(t)) ==> day_rule(*d, t)),
        d is OnWeekDays ==> (r matches Ok(Some(t)) ==> t.stamp() > after.stamp()),
        d matches DayCycle::OnDays { days, option } ==> match on_days_next(
            days@,
            *option,
            after.year(),
            after.month(),
            after.dom(),
        ) {
            Some((y2, m2, d2)) => (r is Ok <==> y2 <= MAX_YEAR) && (r matches Ok(o) ==> o matches Some(
                t,
            ) && t.ymd() == (y2, m2, d2) && t.sod() == after.sod() && t.day() == days_from_ce(
                y2,
                m2,
                d2,
            )),
            None => r matches Ok(o) ==> o is None,
        },
        d is OnDays ==> (r matches Ok(Some(t)) ==> t.stamp() > after.stamp()),
        d is ForEach ==> (r is Ok <==> after.stamp() + 86400 <= crate::calendar::MAX_TICKS) && (
        r matches Ok(o) ==> o is Some),
        d matches DayCycle::NextNth(n, NextNthDayOption::Regular) ==> (r is Ok <==> after.stamp() + n
            * 86400 <= crate::calendar::MAX_TICKS) && (r matches Ok(o) ==> o is Some),
        d matches DayCycle::OnWeekDays { option: WeekdayOption::NA, .. } ==> (after.day() + 7
            <= MAX_DAY ==> r is Ok),
        d matches DayCycle::OnWeekDays { weekdays, option } ==> (weekdays@.len() > 0 && !(option is NA)
            ==> {
            let found = weekday_occurrence_next(
                after.year(),
                after.month(),
                weekdays@[0].0.index(),
                option_occurrence(*option),
                option is Ending,
                after.day(),
                WEEKDAY_SEARCH_MONTHS as nat,
                true,
            );
            &&& r matches Ok(Some(t)) ==> found matches Some((n, same_month)) && t.day() == n && t.sod()
                == (if same_month {
                after.sod()
            } else {
                0
            })
            &&& r matches Ok(None) ==> found is None
        }),
        d matches DayCycle::OnWeekDays { weekdays, option: WeekdayOption::NA } ==> (r matches Ok(o)
            ==> (weekdays@.len() > 0 <==> o is Some) && (o matches Some(t) ==> after.day() < t.day()
            <= after.day() + 7 && t.sod() == after.sod() && forall|k: int|
            after.day() < k < t.day() ==> !weekday_listed(weekdays@, weekday_index_of_day(k)))),
{
    after.bounds();
    match d {
        DayCycle::AsIs => Ok(Some(*after)),
        DayCycle::ForEach => {
            let t = shift_days(after, 1)?;
            Ok(Some(t))
        },
        DayCycle::NextNth(n, opt) => match opt {
            NextNthDayOption::Regular => {
                let t = shift_days(after, *n as i64)?;
                Ok(Some(t))
            },
            NextNthDayOption::BizDay => match bdp.add(after, *n) {
                Ok(t) => Ok(Some(t)),
                Err(_) => Ok(None),
            },
            NextNthDayOption::WeekDay => {
                let ws = WeekendSkipper::new();
                match ws.add(after, *n) {
                    Ok(t) => Ok(Some(t)),
                    Err(_) => Ok(None),
                }
            },
        },
        DayCycle::OnDays { days, option } => {
            let (y, m, dom) = ymd_of(after);
            proof {
                lemma_on_days_next_later(days@, *option, y as int, m as int, dom as int);
                lemma_on_days_next_rule(days@, *option, y as int, m as int, dom as int);
            }
            if days.len() == 0 {
                if matches!(option, LastDayOption::LastDay) {
                    let dim = month_length(y, m);
                    let (ty, tm) = if dom == dim {
                        ffwd_months(y, m, 1)
                    } else {
                        (y as i64, m)
                    };
                    let t = last_day_at(after, ty, tm)?;
                    return Ok(Some(t));
                } else {
                    return Ok(None);
                }
            }
            let dim = month_length(y, m);
            let i = if dom == dim {
                days.len()
            } else {
                find_at_least(days, dom + 1)
            };
            let (ty, tm, td): (i64, u32, u32) = if i < days.len() {
                (y as i64, m, days[i])
            } else {
                let (ny, nm) = ffwd_months(y, m, 1);
                (ny, nm, days[0])
            };
            if ty < MIN_YEAR as i64 || ty > MAX_YEAR as i64 {
                return Err(Error::OutOfRange);
            }
            match after.at_date(ty as i32, tm, td) {
                Some(t) => {
                    proof {
                        if i < days@.len() {
                            assert(days@[i as int] == td);
                        } else {
                            assert(days@[0] == td);
                        }
                    }
                    Ok(Some(t))
                },
                None => match option {
                    LastDayOption::NA => {
                        let (ny, nm) = ffwd_months(ty as i32, tm, 1);
                        if ny < MIN_YEAR as i64 || ny > MAX_YEAR as i64 {
                            return Err(Error::OutOfRange);
                        }
                        match after.at_date(ny as i32, nm, days[0]) {
                            Some(t) => {
                                assert(days@[0] == days[0]);
                                Ok(Some(t))
                            },
                            None => Ok(None),
                        }
                    },
                    _ => {
                        let t = last_day_at(after, ty, tm)?;
                        Ok(Some(t))
                    },
                },
            }
        },
        DayCycle::OnWeekDays { weekdays, option } => {
            if weekdays.len() == 0 {
                return Ok(None);
            }
            match option {
                WeekdayOption::NA => {
                    let mut k: i64 = 1;
                    while k <= 7
                        invariant
                            1 <= k <= 8,
                            d == (DayCycle::OnWeekDays { weekdays: *weekdays, option: *option }),
                            option is NA,
                            forall|j: int|
                                after.day() < j < after.day() + k ==> !weekday_listed(
                                    weekdays@,
                                    #[trigger] weekday_index_of_day(j),
                                ),
                        decreases 8 - k,
                    {
                        after.bounds();
                        proof {
                            calendar::lemma_stamp_parts(*after);
                            if after.day() + 7 <= MAX_DAY {
                                assert(after.stamp() + k * 86400 <= crate::calendar::MAX_TICKS)
                                    by (nonlinear_arith)
                                    requires
                                        after.stamp() == (after.day() - MIN_DAY) * 86400 + after.sod(),
                                        after.sod() < 86400,
                                        after.day() + 7 <= MAX_DAY,
                                        1 <= k <= 7,
                                        crate::calendar::MAX_TICKS == (MAX_DAY - MIN_DAY) * 86400
                                            + 86399,
                                ;
                            }
                        }
                        let t = shift_days(after, k)?;
                        let w = t.weekday().num_days_from_monday();
                        if has_weekday(weekdays, w) {
                            proof {
                                calendar::lemma_stamp_parts(*after);
                            }
                            return Ok(Some(t));
                        }
                        assert(!weekday_listed(weekdays@, weekday_index_of_day(after.day() + k)));
                        k = k + 1;
                    }
                    proof {
                        let w0 = weekdays@[0].0.index();
                        lemma_week_covers(after.day(), w0);
                        let k0 = choose|k: int| 1 <= k <= 7 && #[trigger] weekday_index_of_day(
                            after.day() + k,
                        ) == w0;
                        assert(weekday_listed(weekdays@, weekday_index_of_day(after.day() + k0)));
                    }
                    Ok(None)
                },
                WeekdayOption::Starting(_) | WeekdayOption::Ending(_) => search_nth_weekday(d, after),
            }
        },
    }
}


/// The `occ`-th weekday `wd` of the month of `target` (from its start, or
/// from its end when `ending`), when the month has one after `after`.
#[verifier::rlimit(30)]
fn nth_weekday_after(
    d: &DayCycle,
    target: &NaiveDateTime,
    after: &NaiveDateTime,
    wd: &Weekday,
    occ_raw: u8,
    ending: bool,
) -> (r: Result<Option<NaiveDateTime>>)
    requires
        d matches DayCycle::OnWeekDays { weekdays, option } && weekdays@.len() > 0
            && weekdays@[0].0 == *wd && ((option matches WeekdayOption::Starting(x) && !ending
            && occurrence(*x) == occurrence(Some(occ_raw))) || (option matches WeekdayOption::Ending(
            x,
        ) && ending && occurrence(*x) == occurrence(Some(occ_raw)))),
        target.sod() == after.sod() || target.sod() == 0,
    ensures
        r matches Ok(Some(c)) ==> day_rule(*d, c) && c.stamp() > after.stamp() && c.sod()
            == target.sod() && nth_lands(
            target.year(),
            target.month(),
            wd.index(),
            occurrence(Some(occ_raw)),
            ending,
        ) && c.day() == nth_day_in(
            target.year(),
            target.month(),
            wd.index(),
            occurrence(Some(occ_raw)),
            ending,
        ) && c.day() > after.day(),
        r matches Ok(None) ==> !(nth_lands(
            target.year(),
            target.month(),
            wd.index(),
            occurrence(Some(occ_raw)),
            ending,
        ) && nth_day_in(target.year(), target.month(), wd.index(), occurrence(Some(occ_raw)), ending)
            > after.day()),
        r is Err ==> r == Err::<Option<NaiveDateTime>, Error>(Error::OutOfRange),
{
    let c = nth_weekday_in_month(target, wd, occ_raw, ending)?;
    proof {
        calendar::lemma_stamp_parts(*after);
    }
    match c {
        Some(c) => {
            proof {
                calendar::lemma_stamp_parts(c);
                assert(c.stamp() > after.stamp() <==> c.day() > after.day()) by (nonlinear_arith)
                    requires
                        c.stamp() == (c.day() - MIN_DAY) * 86400 + c.sod(),
                        after.stamp() == (after.day() - MIN_DAY) * 86400 + after.sod(),
                        c.sod() == after.sod() || c.sod() == 0,
                        0 <= after.sod() < 86400,
                        0 <= c.sod() < 86400,
                ;
            }
            if after.is_before(&c) {
                proof {
                    if ending {
                        assert(d->OnWeekDays_option is Ending);
                    } else {
                        assert(d->OnWeekDays_option is Starting);
                    }
                    assert(day_rule(*d, c));
                }
                Ok(Some(c))
            } else {
                Ok(None)
            }
        },
        None => Ok(None),
    }
}

/// The search of [`day_next_date`] for the `n`-th weekday of a month from
/// its start or end: month by month from the month of `after`, the first
/// such weekday after `after`, within [`WEEKDAY_SEARCH_MONTHS`] months.
fn search_nth_weekday(d: &DayCycle, after: &NaiveDateTime) -> (r: Result<Option<NaiveDateTime>>)
    requires
        d matches DayCycle::OnWeekDays { weekdays, option } && weekdays@.len() > 0 && !(option is NA),
    ensures
        r matches Ok(Some(t)) ==> day_rule(*d, t) && t.stamp() > after.stamp(),
        d matches DayCycle::OnWeekDays { weekdays, option } ==> {
            let found = weekday_occurrence_next(
                after.year(),
                after.month(),
                weekdays@[0].0.index(),
                option_occurrence(*option),
                option is Ending,
                after.day(),
                WEEKDAY_SEARCH_MONTHS as nat,
                true,
            );
            &&& r matches Ok(Some(t)) ==> found matches Some((n, same_month)) && t.day() == n && t.sod()
                == (if same_month {
                after.sod()
            } else {
                0
            })
            &&& r matches Ok(None) ==> found is None
        },
        r is Err ==> r == Err::<Option<NaiveDateTime>, Error>(Error::OutOfRange),
{
    let ghost option = d->OnWeekDays_option;
    let (wd, occ_raw, ending) = match d {
        DayCycle::OnWeekDays { weekdays, option } => match option {
            WeekdayOption::Starting(o) => (weekdays[0].0, match o {
                Some(k) => *k,
                None => 1,
            }, false),
            WeekdayOption::Ending(o) => (weekdays[0].0, match o {
                Some(k) => *k,
                None => 1,
            }, true),
            WeekdayOption::NA => {
                return Ok(None);
            },
        },
        _ => {
            return Ok(None);
        },
    };
    let ghost occ = occurrence(Some(occ_raw));
    assert(option_occurrence(option) == occ);
    let mut target = *after;
    let mut tries: u32 = 0;
    while tries < WEEKDAY_SEARCH_MONTHS
        invariant
            tries <= WEEKDAY_SEARCH_MONTHS,
            weekday_occurrence_next(
                after.year(),
                after.month(),
                wd.index(),
                occ,
                ending,
                after.day(),
                WEEKDAY_SEARCH_MONTHS as nat,
                true,
            ) == weekday_occurrence_next(
                target.year(),
                target.month(),
                wd.index(),
                occ,
                ending,
                after.day(),
                (WEEKDAY_SEARCH_MONTHS - tries) as nat,
                tries == 0,
            ),
            tries == 0 ==> target == *after,
            tries > 0 ==> target.sod() == 0,
            d matches DayCycle::OnWeekDays { weekdays, option } && weekdays@.len() > 0
                && weekdays@[0].0 == wd && ((option matches WeekdayOption::Starting(x) && !ending
                && occurrence(*x) == occ) || (option matches WeekdayOption::Ending(x) && ending
                && occurrence(*x) == occ)),
            occ == occurrence(Some(occ_raw)),
        decreases WEEKDAY_SEARCH_MONTHS - tries,
    {
        if let Some(c) = nth_weekday_after(d, &target, after, &wd, occ_raw, ending)? {
            return Ok(Some(c));
        }
        let (ty, tm, _td) = ymd_of(&target);
        let (ny, nm) = ffwd_months(ty, tm, 1);
        target = first_of_month(ny, nm)?;
        tries = tries + 1;
    }
    Ok(None)
}

} // verus!
