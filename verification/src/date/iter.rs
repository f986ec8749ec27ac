//! Iterating the dates of a date spec.

use vstd::prelude::*;

use crate::biz_day::{is_weekday_number, BizDayProcessor, Direction, WeekendSkipper};
use crate::calendar::{self, days_in_month, NaiveDateTime};
use crate::date::component::{
    cadence_ok, day_next_date, day_rule, day_rule_holds, is_rule_checkable, rule_checkable, ffwd_months, months_after, find_at_least, first_at_least,
    first_of_month, month_next_date, month_next_spec, year_next_spec, months_in_calendar, rem_euclid, shift_days,
    year_next_date, years_in_calendar, ymd_of,
};
use crate::date::parser::parse_spec;
use crate::date::spec::{
    parse_date_text, BizDayAdjustment, Cycle, CycleModel, DayCycle, LastDayOption, NextNthDayOption, Spec,
};
use crate::error::{Error, Result};
use crate::next_result::NextResult;
use crate::time::spec::failure_message;

verus! {

/// Days between the cursor and a found date that are checked, one by one,
/// for an earlier date of the spec.
pub const SCAN_DAYS: i32 = 150000;

/// Rounds of the search for the next date before it gives up.
pub const MAX_SEARCH_ROUNDS: u32 = 10000;

/// A spec that the iteration can run: cadences are not zero, month sets
/// name months and year sets name years of the calendar.
pub open spec fn iterable(sp: Spec) -> bool {
    &&& sp.wf()
    &&& cadence_ok(sp.years)
    &&& cadence_ok(sp.months)
    &&& years_in_calendar(sp.years)
    &&& months_in_calendar(sp.months)
}

/// A parsed date spec (as its model) can be iterated: cadences are not
/// zero, month sets name months and year sets name years of the calendar.
pub open spec fn model_iterable(m: crate::date::spec::SpecModel) -> bool {
    &&& match m.years {
        CycleModel::NextNth(n) => n > 0,
        CycleModel::Values(st) => forall|y: u32| #[trigger] st.contains(y) ==> y <= calendar::MAX_YEAR,
        _ => true,
    }
    &&& match m.months {
        CycleModel::NextNth(n) => n > 0,
        CycleModel::Values(st) => forall|x: u32| #[trigger] st.contains(x) ==> 1 <= x <= 12,
        _ => true,
    }
}

/// The text of a date spec parses to a spec that can be iterated.
pub open spec fn date_text_iterable(b: Seq<u8>) -> bool {
    parse_date_text(b) matches Some(m) && model_iterable(m)
}

/// A well-formed spec can be iterated exactly when its model can.
proof fn lemma_iterable_model(sp: Spec)
    requires
        sp.wf(),
    ensures
        iterable(sp) <==> model_iterable(sp.model()),
{
    broadcast use vstd::set::group_set_axioms;

    if let Cycle::Values(v) = sp.years {
        if iterable(sp) {
            assert forall|y: u32| v@.to_set().contains(y) implies y <= calendar::MAX_YEAR by {
                let i = choose|i: int| 0 <= i < v@.len() && v@[i] == y;
            }
        }
        if model_iterable(sp.model()) {
            assert forall|i: int| 0 <= i < v@.len() implies #[trigger] v@[i] <= calendar::MAX_YEAR by {
                assert(v@.contains(v@[i]));
                if let CycleModel::Values(st) = sp.model().years {
                    assert(st.contains(v@[i]));
                }
            }
        }
    }
    if let Cycle::Values(v) = sp.months {
        if iterable(sp) {
            assert forall|x: u32| v@.to_set().contains(x) implies 1 <= x <= 12 by {
                let i = choose|i: int| 0 <= i < v@.len() && v@[i] == x;
            }
        }
        if model_iterable(sp.model()) {
            assert forall|i: int| 0 <= i < v@.len() implies 1 <= #[trigger] v@[i] <= 12 by {
                assert(v@.contains(v@[i]));
                if let CycleModel::Values(st) = sp.model().months {
                    assert(st.contains(v@[i]));
                }
            }
        }
    }
}

/// The year of `t` is one that the years component allows, cadences being
/// counted from `start`.
pub open spec fn years_match(c: Cycle, start: NaiveDateTime, t: NaiveDateTime) -> bool {
    match c {
        Cycle::Values(v) => t.year() >= 0 && v@.contains(t.year() as u32),
        Cycle::NextNth(n) => t.year() - start.year() >= 0 && (t.year() - start.year()) % (n as int)
            == 0,
        _ => true,
    }
}

/// The month of `t` is one that the months component allows, cadences
/// being counted from `start`.
pub open spec fn months_match(c: Cycle, start: NaiveDateTime, t: NaiveDateTime) -> bool {
    match c {
        Cycle::Values(v) => v@.contains(t.month() as u32),
        Cycle::NextNth(n) => ((t.year() - start.year()) * 12 + (t.month() - start.month())) % (
        n as int) == 0,
        _ => true,
    }
}

/// `t` is a date of the spec: its year, month and day obey their rules.
pub open spec fn date_matches(sp: Spec, start: NaiveDateTime, t: NaiveDateTime) -> bool {
    &&& years_match(sp.years, start, t)
    &&& months_match(sp.months, start, t)
    &&& day_rule(sp.days, t)
}

/// An outcome's two dates are in the order its kind names: equal for
/// `Single`, the observed date before the raw one for `AdjustedEarlier`,
/// after it for `AdjustedLater`.
pub open spec fn outcome_in_order(r: NextResult<NaiveDateTime>) -> bool {
    match r {
        NextResult::Single(_) => true,
        NextResult::AdjustedEarlier(a, o) => o.stamp() < a.stamp(),
        NextResult::AdjustedLater(a, o) => o.stamp() > a.stamp(),
    }
}

/// The days rule moves a day that the month lacks into the next month.
pub open spec fn overflows_to_next_month(sp: Spec) -> bool {
    sp.days matches DayCycle::OnDays { option, .. } && (option == LastDayOption::NextMonthFirstDay
        || option == LastDayOption::NextMonthOverflow)
}

/// The observed day number of a raw date `c` that the days rule moves into
/// the next month (`ddN`: its first day; `ddO`: as many days on as the
/// listed day lies past the month's end); `None` when `c` stays.
pub open spec fn overflow_day(sp: Spec, c: NaiveDateTime) -> Option<int> {
    match sp.days {
        DayCycle::OnDays { days, option } => {
            let last = days_in_month(c.year(), c.month());
            let i = first_at_least(days@, last + 1);
            if overflows_to_next_month(sp) && c.dom() == last && i < days@.len() {
                let first = calendar::days_from_ce(
                    months_after(c.year(), c.month(), 1).0,
                    months_after(c.year(), c.month(), 1).1,
                    1,
                );
                Some(
                    if option == LastDayOption::NextMonthFirstDay {
                        first
                    } else {
                        first + days@[i] - last - 1
                    },
                )
            } else {
                None
            }
        },
        _ => None,
    }
}

/// Every `n`-th day, whatever the year and month (`YY-MM-nD`).
pub open spec fn rolling_days(sp: Spec) -> bool {
    &&& (sp.years is ForEach || sp.years is AsIs)
    &&& (sp.months is ForEach || sp.months is AsIs)
    &&& sp.days matches DayCycle::NextNth(n, NextNthDayOption::Regular) && n > 0
}

/// Every `n`-th weekday, whatever the year and month (`YY-MM-nW`).
pub open spec fn rolling_weekdays(sp: Spec) -> bool {
    &&& (sp.years is ForEach || sp.years is AsIs)
    &&& (sp.months is ForEach || sp.months is AsIs)
    &&& sp.days matches DayCycle::NextNth(n, NextNthDayOption::WeekDay) && n > 0
}

/// The number of days of a step of days.
pub open spec fn day_step(sp: Spec) -> int {
    match sp.days {
        DayCycle::NextNth(n, _) => n as int,
        _ => 0,
    }
}

/// `t` is where [`WeekendSkipper`] moves `o` for the direction `dir`:
/// the nearest weekday by its rule for `Nearest`, the closest weekday on or
/// after (`Next`) or on or before (`Prev`); at the same time of day.
pub open spec fn weekday_moved(o: NaiveDateTime, t: NaiveDateTime, dir: Direction) -> bool {
    &&& t.sod() == o.sod()
    &&& match dir {
        Direction::Nearest => t.day() == o.day() + crate::biz_day::nearest_shift(
            o.weekday_index(),
            o.dom(),
            calendar::days_in_month(o.year(), o.month()),
        ),
        Direction::Next => if crate::biz_day::is_weekday_number(o.day()) {
            t == o
        } else {
            t.day() > o.day() && crate::biz_day::weekdays_after(o.day(), (t.day() - o.day()) as nat)
                == 1
        },
        Direction::Prev => if crate::biz_day::is_weekday_number(o.day()) {
            t == o
        } else {
            t.day() < o.day() && crate::biz_day::weekdays_before(o.day(), (o.day() - t.day()) as nat)
                == 1
        },
    }
}

/// `t` is the business day that the processor picks for `o` in the
/// direction `dir`, and (for `Prev` and `Next`) the closest one: no
/// business day lies on a day strictly between.
pub open spec fn biz_moved<B: BizDayProcessor>(bdp: B, o: NaiveDateTime, t: NaiveDateTime, dir: Direction) -> bool {
    &&& bdp.is_biz(t)
    &&& t.stamp() == bdp.found_stamp(o, dir)
    &&& dir == Direction::Next ==> t.stamp() >= o.stamp() && forall|u: NaiveDateTime|
        o.day() < u.day() < t.day() ==> !#[trigger] bdp.is_biz(u)
    &&& dir == Direction::Prev ==> t.stamp() <= o.stamp() && forall|u: NaiveDateTime|
        t.day() < u.day() < o.day() ==> !#[trigger] bdp.is_biz(u)
}

/// A roll to a weekday (`~W`, `~NW`, `~PW`) or to a business day (`~B`,
/// `~NB`, `~PB`) of a raw date that is no business day of the processor
/// (and that the days rule keeps in its month) lands where the weekday rule
/// or the processor puts it.
pub open spec fn roll_holds<B: BizDayProcessor>(sp: Spec, bdp: B, x: NextResult<NaiveDateTime>) -> bool {
    !overflows_to_next_month(sp) && !bdp.is_biz(x.actual_of()) ==> match sp.biz_day_adj {
        Some(BizDayAdjustment::Weekday(dir)) => weekday_moved(x.actual_of(), x.observed_of(), dir),
        Some(BizDayAdjustment::BizDay(dir)) => biz_moved(bdp, x.actual_of(), x.observed_of(), dir),
        _ => true,
    }
}

/// The number of business days of a shift (`~nN`, `~nP`); 0 otherwise.
pub open spec fn shift_count(sp: Spec) -> int {
    match sp.biz_day_adj {
        Some(BizDayAdjustment::Next(n)) => n as int,
        Some(BizDayAdjustment::Prev(n)) => n as int,
        _ => 0,
    }
}

/// A shift by `n > 0` business days (`~nN`, `~nP`) of a raw date that the
/// days rule keeps in its month counts `n` business days of the processor
/// between the raw and the observed date.
pub open spec fn counted_shift_holds<B: BizDayProcessor>(
    sp: Spec,
    bdp: B,
    x: NextResult<NaiveDateTime>,
) -> bool {
    &&& (sp.biz_day_adj matches Some(BizDayAdjustment::Next(_)) && shift_count(sp) > 0
        && !overflows_to_next_month(sp)) ==> x.observed_of().day() > x.actual_of().day()
        && crate::biz_day::biz_days_after(
        |u: NaiveDateTime| bdp.is_biz(u),
        x.actual_of(),
        (x.observed_of().day() - x.actual_of().day()) as nat,
    ) == shift_count(sp)
    &&& (sp.biz_day_adj matches Some(BizDayAdjustment::Prev(_)) && shift_count(sp) > 0
        && !overflows_to_next_month(sp)) ==> x.observed_of().day() < x.actual_of().day()
        && crate::biz_day::biz_days_before(
        |u: NaiveDateTime| bdp.is_biz(u),
        x.actual_of(),
        (x.actual_of().day() - x.observed_of().day()) as nat,
    ) == shift_count(sp)
}

/// The outcome of a raw date without business-day adjustment: the date
/// itself, or, when the days rule moves it into the next month, the raw
/// date observed on that day at midnight.
pub open spec fn overflow_outcome(sp: Spec, x: NextResult<NaiveDateTime>) -> bool {
    match overflow_day(sp, x.actual_of()) {
        None => x == NextResult::Single(x.actual_of()),
        Some(o) => x == NextResult::AdjustedLater(x.actual_of(), x.observed_of()) && x.observed_of().day()
            == o && x.observed_of().sod() == 0,
    }
}

/// The day into which the days rule moves a raw date lies within the
/// calendar (true when the rule does not move it).
pub open spec fn overflow_in_calendar(sp: Spec, c: NaiveDateTime) -> bool {
    overflow_day(sp, c) matches Some(o) ==> months_after(c.year(), c.month(), 1).0
        <= calendar::MAX_YEAR && o <= calendar::MAX_DAY
}

/// The years are a set, each of whose years ends within the scan window
/// after `from`: no date of the spec lies past the window.
pub open spec fn years_within_window(sp: Spec, from: NaiveDateTime) -> bool {
    sp.years matches Cycle::Values(v) && forall|i: int|
        0 <= i < v@.len() ==> (#[trigger] v@[i]) < calendar::civil_of_day(window_end(from) - 1).0
}

/// The spec is a rule that a date can be checked against on its own: no
/// step of days, no weekday occurrence past the fifth, and not both a
/// cadence of years and one of months (each cadence alone is counted from
/// the anchor; together they step as one clock, `1Y-3M` moving fifteen
/// months a tick).
pub open spec fn search_checkable(sp: Spec) -> bool {
    rule_checkable(sp.days) && !(sp.years is NextNth && sp.months is NextNth)
}

/// No date of a day after the day of `from` and before day number `to` is
/// a date of the spec.
pub open spec fn no_match_within(sp: Spec, anchor: NaiveDateTime, from: NaiveDateTime, to: int) -> bool {
    forall|u: NaiveDateTime| from.day() < u.day() < to ==> !#[trigger] date_matches(sp, anchor, u)
}

/// The day after the last day that a scan from `from` looks at: at most
/// [`SCAN_DAYS`] days on, and not past the calendar.
pub open spec fn window_end(from: NaiveDateTime) -> int {
    if from.day() + SCAN_DAYS < calendar::MAX_DAY {
        from.day() + SCAN_DAYS + 1
    } else {
        calendar::MAX_DAY + 1
    }
}

/// The smaller of two integers.
pub open spec fn min_int(a: int, b: int) -> int {
    if a < b {
        a
    } else {
        b
    }
}

/// What a business-day adjustment guarantees of an outcome whose raw date
/// is `actual`. The two dates are in order, but for the unconditional
/// shifts by zero days (`~0P`, `~0N`, which keep the date under an adjusted
/// kind) and a backward shift of a date that the days rule moved into the
/// next month.
pub open spec fn adjustment_holds<B: BizDayProcessor>(
    sp: Spec,
    bdp: B,
    actual: NaiveDateTime,
    r: NextResult<NaiveDateTime>,
) -> bool {
    &&& r.actual_of() == actual
    &&& match sp.biz_day_adj {
        None => outcome_in_order(r) && (!overflows_to_next_month(sp) ==> r == NextResult::Single(
            actual,
        )),
        Some(BizDayAdjustment::Prev(n)) => r is AdjustedEarlier && (n > 0 ==> bdp.is_biz(
            r.observed_of(),
        )) && (!overflows_to_next_month(sp) ==> (n > 0 <==> outcome_in_order(r))),
        Some(BizDayAdjustment::Next(n)) => r is AdjustedLater && (n > 0 ==> bdp.is_biz(
            r.observed_of(),
        ) && outcome_in_order(r)) && (!overflows_to_next_month(sp) && n == 0 ==> r.observed_of()
            == actual),
        Some(BizDayAdjustment::BizDay(_)) => bdp.is_biz(r.observed_of()) && outcome_in_order(r),
        Some(BizDayAdjustment::Weekday(_)) => (bdp.is_biz(r.observed_of()) || is_weekday_number(
            r.observed_of().day(),
        )) && outcome_in_order(r),
        Some(BizDayAdjustment::NA) => outcome_in_order(r),
    }
}

/// The outcome of a raw date `dtm` moved to `adjusted`.
pub fn adjusted_to_next_result(dtm: NaiveDateTime, adjusted: NaiveDateTime) -> (r: NextResult<
    NaiveDateTime,
>)
    ensures
        adjusted.stamp() == dtm.stamp() ==> r == NextResult::Single(adjusted),
        adjusted.stamp() > dtm.stamp() ==> r == NextResult::AdjustedLater(dtm, adjusted),
        adjusted.stamp() < dtm.stamp() ==> r == NextResult::AdjustedEarlier(dtm, adjusted),
{
    if adjusted.same_instant(&dtm) {
        NextResult::Single(adjusted)
    } else if dtm.is_before(&adjusted) {
        NextResult::AdjustedLater(dtm, adjusted)
    } else {
        NextResult::AdjustedEarlier(dtm, adjusted)
    }
}

/// What one round of the search for the next date ends with.
enum SearchStep {
    Found(NaiveDateTime),
    Exhausted,
    Retry(NaiveDateTime),
}

/// Midnight of the day before `t`.
fn day_before_midnight(t: &NaiveDateTime) -> (r: Result<NaiveDateTime>)
    ensures
        r is Ok <==> t.day() > calendar::MIN_DAY,
        r matches Ok(u) ==> u.day() == t.day() - 1 && u.sod() == 0,
        r is Err ==> r == Err::<NaiveDateTime, Error>(Error::OutOfRange),
{
    let d = t.day_number();
    if d <= calendar::MIN_DAY {
        return Err(Error::OutOfRange);
    }
    Ok(NaiveDateTime::from_day_and_secs(d - 1, 0))
}

/// Midnight of the first day of the month after the month of `t`.
fn first_of_next_month(t: &NaiveDateTime) -> (r: Result<NaiveDateTime>)
    ensures
        r is Ok <==> months_after(t.year(), t.month(), 1).0 <= calendar::MAX_YEAR,
        r matches Ok(u) ==> u.sod() == 0 && u.day() == calendar::days_from_ce(
            months_after(t.year(), t.month(), 1).0,
            months_after(t.year(), t.month(), 1).1,
            1,
        ),
        r is Err ==> r == Err::<NaiveDateTime, Error>(Error::OutOfRange),
{
    let (y, m, _d) = ymd_of(t);
    let (ny, nm) = ffwd_months(y, m, 1);
    first_of_month(ny, nm)
}

/// Two date-times of the same day obey the same date rules.
pub proof fn lemma_day_decides_match(sp: Spec, anchor: NaiveDateTime, a: NaiveDateTime, b: NaiveDateTime)
    requires
        a.day() == b.day(),
    ensures
        date_matches(sp, anchor, a) == date_matches(sp, anchor, b),
{
    assert(a.ymd() == b.ymd());
    assert(a.weekday_index() == b.weekday_index());
    if let DayCycle::OnWeekDays { weekdays, option } = sp.days {
        match option {
            crate::date::spec::WeekdayOption::Starting(o) => {
                if crate::date::component::occurrence(o) > 5 {
                    if date_matches(sp, anchor, a) {
                        let y = choose|y: int|
                            a.day() == #[trigger] crate::utils::nth_weekday_day(
                                y,
                                a.month(),
                                weekdays@[0].0.index(),
                                crate::date::component::occurrence(o),
                            );
                        assert(b.day() == crate::utils::nth_weekday_day(
                            y,
                            b.month(),
                            weekdays@[0].0.index(),
                            crate::date::component::occurrence(o),
                        ));
                    }
                    if date_matches(sp, anchor, b) {
                        let y = choose|y: int|
                            b.day() == #[trigger] crate::utils::nth_weekday_day(
                                y,
                                b.month(),
                                weekdays@[0].0.index(),
                                crate::date::component::occurrence(o),
                            );
                        assert(a.day() == crate::utils::nth_weekday_day(
                            y,
                            a.month(),
                            weekdays@[0].0.index(),
                            crate::date::component::occurrence(o),
                        ));
                    }
                }
            },
            crate::date::spec::WeekdayOption::Ending(o) => {
                if crate::date::component::occurrence(o) > 5 {
                    if date_matches(sp, anchor, a) {
                        let y = choose|y: int|
                            a.day() == #[trigger] crate::utils::nth_last_weekday_day(
                                y,
                                a.month(),
                                weekdays@[0].0.index(),
                                crate::date::component::occurrence(o),
                            );
                        assert(b.day() == crate::utils::nth_last_weekday_day(
                            y,
                            b.month(),
                            weekdays@[0].0.index(),
                            crate::date::component::occurrence(o),
                        ));
                    }
                    if date_matches(sp, anchor, b) {
                        let y = choose|y: int|
                            b.day() == #[trigger] crate::utils::nth_last_weekday_day(
                                y,
                                b.month(),
                                weekdays@[0].0.index(),
                                crate::date::component::occurrence(o),
                            );
                        assert(a.day() == crate::utils::nth_last_weekday_day(
                            y,
                            a.month(),
                            weekdays@[0].0.index(),
                            crate::date::component::occurrence(o),
                        ));
                    }
                }
            },
            _ => {},
        }
    }
}

/// Whether the month of `t` is one that the months component allows.
fn month_allowed(c: &Cycle, start: &NaiveDateTime, t: &NaiveDateTime) -> (r: bool)
    requires
        cadence_ok(*c),
    ensures
        r == months_match(*c, *start, *t),
{
    match c {
        Cycle::Values(v) => {
            let (_y, m, _d) = ymd_of(t);
            let mut i: usize = 0;
            while i < v.len()
                invariant
                    0 <= i <= v@.len(),
                    m as int == t.month(),
                    *c == Cycle::Values(*v),
                    forall|j: int| 0 <= j < i ==> v@[j] != m,
                decreases v@.len() - i,
            {
                if v[i] == m {
                    assert(v@[i as int] == m);
                    return true;
                }
                i = i + 1;
            }
            false
        },
        Cycle::NextNth(n) => {
            let (sy, sm, _sd) = ymd_of(start);
            let (y, m, _d) = ymd_of(t);
            let total: i64 = (y as i64 - sy as i64) * 12 + (m as i64 - sm as i64);
            rem_euclid(total, *n) == 0
        },
        _ => true,
    }
}

/// Whether the year of `t` is one that the years component allows.
fn year_allowed(c: &Cycle, start: &NaiveDateTime, t: &NaiveDateTime) -> (r: bool)
    requires
        cadence_ok(*c),
    ensures
        r == years_match(*c, *start, *t),
{
    match c {
        Cycle::AsIs => true,
        Cycle::ForEach => true,
        Cycle::Values(v) => {
            let (y, _m, _d) = ymd_of(t);
            if y < 0 {
                return false;
            }
            let mut i: usize = 0;
            while i < v.len()
                invariant
                    0 <= i <= v@.len(),
                    y >= 0,
                    y as int == t.year(),
                    *c == Cycle::Values(*v),
                    forall|j: int| 0 <= j < i ==> v@[j] != y as u32,
                decreases v@.len() - i,
            {
                if v[i] == y as u32 {
                    assert(v@[i as int] == y as u32);
                    return true;
                }
                i = i + 1;
            }
            false
        },
        Cycle::NextNth(n) => {
            let (sy, _sm, _sd) = ymd_of(start);
            let (y, _m, _d) = ymd_of(t);
            let diff: i64 = y as i64 - sy as i64;
            diff >= 0 && rem_euclid(diff, *n) == 0
        },
    }
}

/// Calendar-day iterator over a date spec, without a time zone.
pub struct NaiveSpecIterator<B: BizDayProcessor> {
    spec: Spec,
    dtm: NaiveDateTime,
    start_dt: NaiveDateTime,
    bd_processor: B,
    started: bool,
    start: Option<NaiveDateTime>,
    end: Option<NaiveDateTime>,
}

impl<B: BizDayProcessor> NaiveSpecIterator<B> {
    #[verifier::type_invariant]
    spec fn inv(self) -> bool {
        iterable(self.spec)
    }

    pub closed spec fn spec_of(&self) -> Spec {
        self.spec
    }

    /// The date from which cadences are counted.
    pub closed spec fn anchor(&self) -> NaiveDateTime {
        self.start_dt
    }

    pub closed spec fn processor(&self) -> B {
        self.bd_processor
    }

    pub closed spec fn end_of(&self) -> Option<NaiveDateTime> {
        self.end
    }

    pub closed spec fn start_of(&self) -> Option<NaiveDateTime> {
        self.start
    }

    /// The last raw date returned, or the initial cursor.
    pub closed spec fn cursor(&self) -> NaiveDateTime {
        self.dtm
    }

    /// Some outcome was returned already.
    pub closed spec fn started(&self) -> bool {
        self.started
    }

    /// The end bound is reached: nothing more is returned.
    pub open spec fn at_end(&self) -> bool {
        self.end_of() matches Some(e) && self.cursor().stamp() >= e.stamp()
    }

    /// The next call returns the start itself.
    pub open spec fn at_start(&self) -> bool {
        &&& !self.at_end()
        &&& !self.started()
        &&& self.start_of() matches Some(s)
        &&& self.cursor().stamp() <= s.stamp()
    }

    /// What a successful call of `next` returns and leaves behind: `after`
    /// is the iterator after the call, `o` its outcome. Past the start, an
    /// outcome is the end bound itself, or a later date of the spec that
    /// obeys the business-day adjustment and stays within the end bound.
    pub open spec fn step_ok(&self, after: &Self, o: Option<NextResult<NaiveDateTime>>) -> bool {
        &&& after.spec_of() == self.spec_of()
        &&& after.anchor() == self.anchor()
        &&& after.end_of() == self.end_of()
        &&& after.start_of() == self.start_of()
        &&& after.processor() == self.processor()
        &&& o is None ==> after.cursor() == self.cursor()
        &&& o is Some ==> after.started()
        &&& self.at_end() ==> o is None
        &&& self.at_start() ==> o == Some(NextResult::Single(self.start_of()->0))
            && after.cursor() == self.start_of()->0
        &&& !self.at_end() && !self.at_start() ==> (o matches Some(x) ==> ((self.end_of() matches Some(
            e,
        ) && x == NextResult::Single(e) && after.cursor() == e && e.stamp() > self.cursor().stamp()
            && (search_checkable(self.spec_of()) && self.spec_of().biz_day_adj is None
            && !overflows_to_next_month(self.spec_of()) ==> no_match_within(
            self.spec_of(),
            self.anchor(),
            self.cursor(),
            min_int(e.day(), window_end(self.cursor())),
        )))
            || (x.actual_of().stamp() > self.cursor().stamp() && date_matches(
            self.spec_of(),
            self.anchor(),
            x.actual_of(),
        ) && (x.actual_of().sod() == self.anchor().sod() || x.actual_of().day()
            == self.cursor().day()) && adjustment_holds(self.spec_of(), self.processor(), x.actual_of(), x)
            && after.cursor() == x.actual_of() && (self.end_of() matches Some(e)
            ==> x.actual_of().stamp() <= e.stamp() && x.observed_of().stamp() <= e.stamp())
            && (search_checkable(self.spec_of()) ==> no_match_within(
            self.spec_of(),
            self.anchor(),
            self.cursor(),
            min_int(x.actual_of().day(), window_end(self.cursor())),
        )) && (rule_checkable(self.spec_of().days) ==> x.actual_of().day() > self.cursor().day()
            && x.actual_of().sod() == self.anchor().sod()) && (self.spec_of().biz_day_adj is None ==> overflow_outcome(self.spec_of(), x))
            && counted_shift_holds(self.spec_of(), self.processor(), x) && roll_holds(
            self.spec_of(),
            self.processor(),
            x,
        ) && (
            self.rolls_in_range() ==> x.actual_of().day() == self.cursor().day() + day_step(
                self.spec_of(),
            ) && x.actual_of().sod() == self.anchor().sod()) && (self.weekdays_in_range()
            ==> x.actual_of().day() > self.cursor().day() && crate::biz_day::weekdays_after(
            self.cursor().day(),
            (x.actual_of().day() - self.cursor().day()) as nat,
        ) == day_step(self.spec_of()) && x.actual_of().sod() == self.anchor().sod()))))
        &&& (o is None && !self.at_end() && !self.at_start()) ==> !self.rolls_in_range()
            && !self.weekdays_in_range()
        &&& (o is None && !self.at_end() && !self.at_start() && rule_checkable(self.spec_of().days))
            ==> no_match_within(self.spec_of(), self.anchor(), self.cursor(), window_end(self.cursor()))
    }

    /// Every `n`-th weekday, with the step from the cursor within the
    /// calendar.
    pub open spec fn weekdays_in_range(&self) -> bool {
        rolling_weekdays(self.spec_of()) && crate::biz_day::weekdays_after(
            self.cursor().day(),
            (calendar::MAX_DAY - self.cursor().day()) as nat,
        ) >= day_step(self.spec_of())
    }

    /// Every `n`-th day, with the step from the cursor within the calendar.
    pub open spec fn rolls_in_range(&self) -> bool {
        rolling_days(self.spec_of()) && self.cursor().stamp() + day_step(self.spec_of()) * 86400
            <= calendar::MAX_TICKS
    }

    /// What a call of `next` returns and leaves behind, success or not:
    /// `after` is the iterator after the call. It cannot fail at the end or
    /// at the start.
    pub open spec fn next_ok(&self, after: &Self, r: Result<Option<NextResult<NaiveDateTime>>>) -> bool {
        &&& after.spec_of() == self.spec_of()
        &&& after.anchor() == self.anchor()
        &&& after.end_of() == self.end_of()
        &&& after.start_of() == self.start_of()
        &&& after.processor() == self.processor()
        &&& match r {
            Ok(o) => self.step_ok(after, o),
            Err(_) => !self.at_end() && !self.at_start() && !((self.rolls_in_range()
                || self.weekdays_in_range()) && self.spec_of().biz_day_adj is None) && (
            rule_checkable(self.spec_of().days) && self.spec_of().biz_day_adj is None ==> (
            !years_within_window(self.spec_of(), self.cursor()) && no_match_within(
                self.spec_of(),
                self.anchor(),
                self.cursor(),
                window_end(self.cursor()),
            )) || exists|c: NaiveDateTime|
                #[trigger] date_matches(self.spec_of(), self.anchor(), c) && c.day() > self.cursor().day()
                    && (search_checkable(self.spec_of()) ==> no_match_within(
                    self.spec_of(),
                    self.anchor(),
                    self.cursor(),
                    min_int(c.day(), window_end(self.cursor())),
                )) && !overflow_in_calendar(self.spec_of(), c)),
        }
    }

    /// `states` runs from `first` through successive calls of `next`, call
    /// `i` returning `outs[i]`.
    pub open spec fn run_ok(first: Self, states: Seq<Self>, outs: Seq<NextResult<NaiveDateTime>>) -> bool {
        &&& states.len() == outs.len() + 1
        &&& states[0] == first
        &&& forall|i: int|
            0 <= i < outs.len() ==> #[trigger] states[i].next_ok(&states[i + 1], Ok(Some(outs[i])))
    }

    /// `take(n)` from `first` returned `r` and left `last`: as many calls
    /// of `next` as give an outcome, up to `n`, then the call that returned
    /// `None` or failed.
    pub open spec fn take_ok(
        first: Self,
        last: Self,
        n: nat,
        r: Result<Seq<NextResult<NaiveDateTime>>>,
    ) -> bool {
        exists|states: Seq<Self>, outs: Seq<NextResult<NaiveDateTime>>|
            #[trigger] Self::run_ok(first, states, outs) && match r {
                Ok(v) => v == outs && v.len() <= n && (v.len() == n ==> last == states.last()) && (
                v.len() < n ==> states.last().next_ok(&last, Ok(None))),
                Err(e) => outs.len() < n && states.last().next_ok(&last, Err(e)),
            }
    }

    fn checked(spec: &str) -> (r: Result<Spec>)
        ensures
            r matches Ok(sp) ==> parse_date_text(vstd::utf8::encode_utf8(spec@)) == Some(
                sp.model(),
            ) && iterable(sp),
            parse_date_text(vstd::utf8::encode_utf8(spec@)) is None ==> r is Err,
            r is Ok <==> date_text_iterable(vstd::utf8::encode_utf8(spec@)),
            r matches Err(e) ==> e is InvalidDateSpec,
    {
        let sp = parse_spec(spec)?;
        proof {
            lemma_iterable_model(sp);
        }
        if !is_iterable(&sp) {
            return Err(Error::InvalidDateSpec(failure_message(spec)));
        }
        Ok(sp)
    }

    /// Iterates the dates strictly after `dtm`; cadences count from `dtm`.
    pub fn new_after(spec: &str, bdp: B, dtm: NaiveDateTime) -> (r: Result<Self>)
        ensures
            parse_date_text(vstd::utf8::encode_utf8(spec@)) is None ==> r is Err,
            r is Ok <==> date_text_iterable(vstd::utf8::encode_utf8(spec@)),
            r matches Err(e) ==> e is InvalidDateSpec,
            r matches Ok(it) ==> Some(it.spec_of().model()) == parse_date_text(
                vstd::utf8::encode_utf8(spec@),
            ) && it.cursor() == dtm && it.anchor() == dtm && it.start_of() is None
                && it.end_of() is None && !it.started() && it.processor() == bdp,
    {
        let sp = Self::checked(spec)?;
        Ok(NaiveSpecIterator {
            spec: sp,
            dtm,
            start_dt: dtm,
            bd_processor: bdp,
            started: false,
            start: None,
            end: None,
        })
    }

    /// Iterates from `start`, which is the first outcome.
    pub fn new_with_start(spec: &str, bdp: B, start: NaiveDateTime) -> (r: Result<Self>)
        ensures
            parse_date_text(vstd::utf8::encode_utf8(spec@)) is None ==> r is Err,
            r is Ok <==> date_text_iterable(vstd::utf8::encode_utf8(spec@)),
            r matches Err(e) ==> e is InvalidDateSpec,
            r matches Ok(it) ==> Some(it.spec_of().model()) == parse_date_text(
                vstd::utf8::encode_utf8(spec@),
            ) && it.cursor() == start && it.anchor() == start && it.start_of() == Some(start)
                && it.end_of() is None && !it.started() && it.processor() == bdp,
    {
        let sp = Self::checked(spec)?;
        Ok(NaiveSpecIterator {
            spec: sp,
            dtm: start,
            start_dt: start,
            bd_processor: bdp,
            started: false,
            start: Some(start),
            end: None,
        })
    }

    /// Iterates from `start` up to `end`, which closes the series.
    pub fn new_with_end(spec: &str, bdp: B, start: NaiveDateTime, end: NaiveDateTime) -> (r:
        Result<Self>)
        ensures
            parse_date_text(vstd::utf8::encode_utf8(spec@)) is None ==> r is Err,
            r is Ok <==> date_text_iterable(vstd::utf8::encode_utf8(spec@)),
            r matches Err(e) ==> e is InvalidDateSpec,
            r matches Ok(it) ==> Some(it.spec_of().model()) == parse_date_text(
                vstd::utf8::encode_utf8(spec@),
            ) && it.cursor() == start && it.anchor() == start && it.start_of() == Some(start)
                && it.end_of() == Some(end) && !it.started() && it.processor() == bdp,
    {
        let sp = Self::checked(spec)?;
        Ok(NaiveSpecIterator {
            spec: sp,
            dtm: start,
            start_dt: start,
            bd_processor: bdp,
            started: false,
            start: Some(start),
            end: Some(end),
        })
    }

    /// Iterates from `start` up to the observed date of the first outcome
    /// of `end_spec` (the start itself, as an iteration from `start`
    /// returns it first).
    pub fn new_with_end_spec(spec: &str, start: NaiveDateTime, bdp: B, end_spec: &str) -> (r:
        Result<Self>)
        ensures
            parse_date_text(vstd::utf8::encode_utf8(spec@)) is None ==> r is Err,
            parse_date_text(vstd::utf8::encode_utf8(end_spec@)) is None ==> r is Err,
            r is Ok <==> date_text_iterable(vstd::utf8::encode_utf8(spec@)) && date_text_iterable(
                vstd::utf8::encode_utf8(end_spec@),
            ),
            r matches Err(e) ==> e is InvalidDateSpec,
            r matches Ok(it) ==> Some(it.spec_of().model()) == parse_date_text(
                vstd::utf8::encode_utf8(spec@),
            ) && it.cursor() == start && it.anchor() == start && it.start_of() == Some(start)
                && it.end_of() == Some(start) && !it.started(),
    {
        let sp = Self::checked(spec)?;
        let mut end_iter = Self::new_with_start(end_spec, bdp.clone(), start)?;
        let end = match end_iter.next()? {
            Some(e) => e,
            None => return Err(Error::Custom(String::from_str("invalid end spec"))),
        };
        let e = *end.observed();
        Ok(NaiveSpecIterator {
            spec: sp,
            dtm: start,
            start_dt: start,
            bd_processor: bdp,
            started: false,
            start: Some(start),
            end: Some(e),
        })
    }

    /// Moves the cursor: later outcomes follow `dtm`, and no start is
    /// returned any more.
    pub fn update_cursor(&mut self, dtm: NaiveDateTime)
        ensures
            final(self).cursor() == dtm,
            final(self).start_of() is None,
            !final(self).started(),
            final(self).spec_of() == old(self).spec_of(),
            final(self).anchor() == old(self).anchor(),
            final(self).end_of() == old(self).end_of(),
            final(self).processor() == old(self).processor(),
    {
        proof {
            use_type_invariant(&*self);
        }
        self.dtm = dtm;
        self.start = None;
        self.started = false;
    }
}

impl<B: BizDayProcessor> NaiveSpecIterator<B> {
    /// Whether `t` is a date of the spec.
    fn matches_at(&self, t: &NaiveDateTime) -> (r: bool)
        requires
            rule_checkable(self.spec_of().days),
        ensures
            r == date_matches(self.spec_of(), self.anchor(), *t),
    {
        proof {
            use_type_invariant(self);
        }
        year_allowed(&self.spec.years, &self.start_dt, t) && month_allowed(
            &self.spec.months,
            &self.start_dt,
            t,
        ) && day_rule_holds(&self.spec.days, t)
    }

    /// Whether each year of a set of years ends within the scan window.
    fn years_within_window(&self) -> (r: bool)
        ensures
            r == years_within_window(self.spec_of(), self.cursor()),
    {
        let cd = self.dtm.day_number();
        let last: i32 = if cd < calendar::MAX_DAY - SCAN_DAYS {
            cd + SCAN_DAYS
        } else {
            calendar::MAX_DAY
        };
        let (ly, _lm, _ld) = ymd_of(&NaiveDateTime::from_day_and_secs(last, 0));
        match &self.spec.years {
            Cycle::Values(v) => {
                let mut i: usize = 0;
                while i < v.len()
                    invariant
                        0 <= i <= v@.len(),
                        ly as int == calendar::civil_of_day(window_end(self.cursor()) - 1).0,
                        self.spec_of().years == Cycle::Values(*v),
                        forall|j: int| 0 <= j < i ==> (v@[j] as int) < ly,
                    decreases v@.len() - i,
                {
                    if v[i] as i64 >= ly as i64 {
                        assert(!((v@[i as int] as int) < ly));
                        let ghost k = i as int;
                        assert(0 <= k < v@.len() && !(v@[k] < calendar::civil_of_day(
                            window_end(self.cursor()) - 1,
                        ).0));
                        assert(!(forall|j: int|
                            0 <= j < v@.len() ==> (#[trigger] v@[j]) < calendar::civil_of_day(
                                window_end(self.cursor()) - 1,
                            ).0));
                        assert(self.spec_of().years->Values_0 == *v);
                        return false;
                    }
                    i = i + 1;
                }
                true
            },
            _ => false,
        }
    }

    /// The first date of the spec on a day after the cursor's and up to the
    /// day of `c`, itself a date of the spec, at the time of day of `c`;
    /// the days are checked one by one within the scan window.
    fn least_match(&self, c: &NaiveDateTime) -> (r: NaiveDateTime)
        requires
            rule_checkable(self.spec_of().days),
            c.day() > self.cursor().day(),
            date_matches(self.spec_of(), self.anchor(), *c),
        ensures
            r.stamp() > self.cursor().stamp(),
            r.day() > self.cursor().day(),
            r.stamp() <= c.stamp(),
            date_matches(self.spec_of(), self.anchor(), r),
            no_match_within(
                self.spec_of(),
                self.anchor(),
                self.cursor(),
                min_int(r.day(), window_end(self.cursor())),
            ),
    {
        let cd = self.dtm.day_number();
        let rd = c.day_number();
        self.dtm.bounds();
        c.bounds();
        proof {
            calendar::lemma_stamp_order(self.dtm, *c);
        }
        let last: i32 = if cd < calendar::MAX_DAY - SCAN_DAYS {
            cd + SCAN_DAYS
        } else {
            calendar::MAX_DAY
        };
        let secs = c.secs_of_day();
        let mut k: i32 = cd + 1;
        while k < rd && k <= last
            invariant
                cd == self.cursor().day(),
                rd == c.day(),
                cd < k,
                k <= rd || k == cd + 1,
                last + 1 == window_end(self.cursor()),
                last <= calendar::MAX_DAY,
                secs == c.sod(),
                secs < 86400,
                rule_checkable(self.spec_of().days),
                calendar::MIN_DAY <= cd,
                forall|u: NaiveDateTime|
                    cd < u.day() < k ==> !#[trigger] date_matches(self.spec_of(), self.anchor(), u),
            decreases rd - k,
        {
            let t = NaiveDateTime::from_day_and_secs(k, secs);
            if self.matches_at(&t) {
                proof {
                    calendar::lemma_stamp_order(self.dtm, t);
                    calendar::lemma_stamp_order(t, *c);
                }
                return t;
            }
            proof {
                assert forall|u: NaiveDateTime| cd < u.day() < k + 1 implies !#[trigger] date_matches(
                    self.spec_of(),
                    self.anchor(),
                    u,
                ) by {
                    if u.day() == k {
                        lemma_day_decides_match(self.spec_of(), self.anchor(), u, t);
                    }
                }
            }
            k = k + 1;
        }
        *c
    }

    /// The first date of the spec within the scan window after the cursor,
    /// at the cursor's time of day; `None` when there is none.
    fn scan_forward(&self) -> (r: Option<NaiveDateTime>)
        requires
            rule_checkable(self.spec_of().days),
        ensures
            r matches Some(t) ==> t.stamp() > self.cursor().stamp() && date_matches(
                self.spec_of(),
                self.anchor(),
                t,
            ) && no_match_within(self.spec_of(), self.anchor(), self.cursor(), t.day()) && t.day()
                < window_end(self.cursor()) && t.day() > self.cursor().day(),
            r is None ==> no_match_within(
                self.spec_of(),
                self.anchor(),
                self.cursor(),
                window_end(self.cursor()),
            ),
    {
        let cd = self.dtm.day_number();
        self.dtm.bounds();
        let last: i32 = if cd < calendar::MAX_DAY - SCAN_DAYS {
            cd + SCAN_DAYS
        } else {
            calendar::MAX_DAY
        };
        let secs = self.dtm.secs_of_day();
        let mut k: i32 = cd + 1;
        while k <= last
            invariant
                cd == self.cursor().day(),
                cd < k <= last + 1,
                last + 1 == window_end(self.cursor()),
                last <= calendar::MAX_DAY,
                secs == self.cursor().sod(),
                secs < 86400,
                rule_checkable(self.spec_of().days),
                calendar::MIN_DAY <= cd,
                forall|u: NaiveDateTime|
                    cd < u.day() < k ==> !#[trigger] date_matches(self.spec_of(), self.anchor(), u),
            decreases last + 1 - k,
        {
            let t = NaiveDateTime::from_day_and_secs(k, secs);
            if self.matches_at(&t) {
                proof {
                    calendar::lemma_stamp_order(self.dtm, t);
                }
                return Some(t);
            }
            proof {
                assert forall|u: NaiveDateTime| cd < u.day() < k + 1 implies !#[trigger] date_matches(
                    self.spec_of(),
                    self.anchor(),
                    u,
                ) by {
                    if u.day() == k {
                        lemma_day_decides_match(self.spec_of(), self.anchor(), u, t);
                    }
                }
            }
            k = k + 1;
        }
        None
    }

    /// Years advance by a cadence that the year of `t` keeps, and months are
    /// a set that is not empty.
    pub open spec fn holds_year(&self, t: NaiveDateTime) -> bool {
        &&& self.spec_of().years matches Cycle::NextNth(n)
        &&& t.year() - self.anchor().year() >= 0
        &&& (t.year() - self.anchor().year()) % (self.spec_of().years->NextNth_0 as int) == 0
        &&& self.spec_of().months matches Cycle::Values(mv)
        &&& mv@.len() > 0
    }

    /// Months are a set that lists a month after the month of `t`.
    pub open spec fn later_month_listed(&self, t: NaiveDateTime) -> bool {
        self.spec_of().months matches Cycle::Values(mv) && first_at_least(mv@, t.month() + 1)
            < mv@.len()
    }

    /// Where the years component looks from. When years advance by a
    /// cadence and months are a set, the year must not move on while months
    /// of the set remain in it, and after it moves on the month restarts at
    /// the first of the set (second component `true`).
    fn year_anchor(&self, candidate: &NaiveDateTime) -> (r: Result<(NaiveDateTime, bool)>)
        ensures
            !self.holds_year(*candidate) ==> r == Ok::<(NaiveDateTime, bool), Error>((*candidate, false)),
            self.holds_year(*candidate) && self.spec_of().days is NextNth ==> (r matches Ok((t, b))
                && !b && t.sod() == 0 && t.day() == calendar::days_from_ce(
                candidate.year(),
                candidate.month(),
                1,
            )),
            self.holds_year(*candidate) && !(self.spec_of().days is NextNth) && self.later_month_listed(
                *candidate,
            ) ==> (r is Ok <==> months_after(candidate.year(), candidate.month(), 1).0
                <= calendar::MAX_YEAR) && (r matches Ok((t, b)) ==> !b && t.sod() == 0 && t.day()
                == calendar::days_from_ce(
                months_after(candidate.year(), candidate.month(), 1).0,
                months_after(candidate.year(), candidate.month(), 1).1,
                1,
            )),
            self.holds_year(*candidate) && !(self.spec_of().days is NextNth)
                && !self.later_month_listed(*candidate) ==> r == Ok::<(NaiveDateTime, bool), Error>(
                (*candidate, true),
            ),
            r is Err ==> r == Err::<(NaiveDateTime, bool), Error>(Error::OutOfRange),
    {
        proof {
            use_type_invariant(self);
        }
        match (&self.spec.years, &self.spec.months) {
            (Cycle::NextNth(n), Cycle::Values(mv)) => {
                let (sy, _sm, _sd) = ymd_of(&self.start_dt);
                let (cy, cm, _cd) = ymd_of(candidate);
                let diff: i64 = cy as i64 - sy as i64;
                let valid = diff >= 0 && rem_euclid(diff, *n) == 0;
                if valid && mv.len() > 0 {
                    if matches!(self.spec.days, DayCycle::NextNth(..)) {
                        let t = first_of_month(cy as i64, cm)?;
                        Ok((t, false))
                    } else {
                        let i = find_at_least(mv, cm + 1);
                        if i < mv.len() {
                            let t = first_of_next_month(candidate)?;
                            Ok((t, false))
                        } else {
                            Ok((*candidate, true))
                        }
                    }
                } else {
                    Ok((*candidate, false))
                }
            },
            _ => Ok((*candidate, false)),
        }
    }

    /// Where the day component looks from, once the month is chosen.
    fn day_cursor(
        &self,
        candidate: &NaiveDateTime,
        candidate_dom: u32,
        month_candidate: &NaiveDateTime,
        period_reset: bool,
    ) -> (r: Result<NaiveDateTime>)
        ensures
            period_reset && self.spec_of().days is OnDays ==> (r is Ok <==> month_candidate.day()
                > calendar::MIN_DAY) && (r matches Ok(t) ==> t.day() == month_candidate.day() - 1
                && t.sod() == 0),
            period_reset && self.spec_of().months is Values ==> (self.spec_of().days matches DayCycle::NextNth(
                n,
                NextNthDayOption::Regular,
            ) ==> (r is Ok <==> 0 <= month_candidate.stamp() - n * 86400) && (r matches Ok(t)
                ==> t.stamp() == month_candidate.stamp() - n * 86400)),
            period_reset && self.spec_of().months is Values ==> (self.spec_of().days matches DayCycle::NextNth(
                _,
                opt,
            ) ==> (opt != NextNthDayOption::Regular ==> r == Ok::<NaiveDateTime, Error>(*month_candidate))),
            period_reset && !(self.spec_of().months is Values) && self.spec_of().days is NextNth ==> (
            r matches Ok(t) && (calendar::valid_ymd(
                month_candidate.year(),
                month_candidate.month(),
                candidate_dom as int,
            ) ==> t.sod() == 0 && t.day() == calendar::days_from_ce(
                month_candidate.year(),
                month_candidate.month(),
                candidate_dom as int,
            )) && (!calendar::valid_ymd(
                month_candidate.year(),
                month_candidate.month(),
                candidate_dom as int,
            ) ==> t == *month_candidate)),
            period_reset && !(self.spec_of().days is OnDays) && !(self.spec_of().days is NextNth) ==> r
                == Ok::<NaiveDateTime, Error>(*month_candidate),
            !period_reset && self.spec_of().days is NextNth ==> r == Ok::<NaiveDateTime, Error>(
                if self.spec_of().months is Values {
                    *candidate
                } else {
                    *month_candidate
                },
            ),
            !period_reset ==> (self.spec_of().days matches DayCycle::OnDays { days, .. } ==> (if days@.len()
                > 0 && days@.last() <= month_candidate.dom() {
                r matches Ok(t) && (month_candidate.stamp() >= 86400 ==> t.stamp()
                    == month_candidate.stamp() - 86400) && (month_candidate.stamp() < 86400 ==> t
                    == *month_candidate)
            } else {
                r == Ok::<NaiveDateTime, Error>(*month_candidate)
            })),
            !period_reset && !(self.spec_of().days is OnDays) && !(self.spec_of().days is NextNth)
                ==> r == Ok::<NaiveDateTime, Error>(*month_candidate),
            r is Err ==> r == Err::<NaiveDateTime, Error>(Error::OutOfRange),
    {
        month_candidate.bounds();
        let months_are_values = matches!(self.spec.months, Cycle::Values(_));
        if period_reset {
            match &self.spec.days {
                DayCycle::OnDays { .. } => day_before_midnight(month_candidate),
                DayCycle::NextNth(n, opt) => {
                    if months_are_values {
                        if matches!(opt, NextNthDayOption::Regular) {
                            shift_days(month_candidate, -(*n as i64))
                        } else {
                            Ok(*month_candidate)
                        }
                    } else {
                        let (my, mm, _md) = ymd_of(month_candidate);
                        match NaiveDateTime::midnight(my, mm, candidate_dom) {
                            Some(t) => Ok(t),
                            None => Ok(*month_candidate),
                        }
                    }
                },
                _ => Ok(*month_candidate),
            }
        } else {
            match &self.spec.days {
                DayCycle::NextNth(..) => {
                    if months_are_values {
                        Ok(*candidate)
                    } else {
                        Ok(*month_candidate)
                    }
                },
                DayCycle::OnDays { days, .. } => {
                    let (_my, _mm, md) = ymd_of(month_candidate);
                    if days.len() > 0 && days[days.len() - 1] <= md {
                        match shift_days(month_candidate, -1) {
                            Ok(t) => Ok(t),
                            Err(_) => Ok(*month_candidate),
                        }
                    } else {
                        Ok(*month_candidate)
                    }
                },
                _ => Ok(*month_candidate),
            }
        }
    }

    /// One round of the search from `candidate`.
    fn search_round(&self, candidate: &NaiveDateTime) -> (r: Result<SearchStep>)
        ensures
            rolling_days(self.spec_of()) && candidate.stamp() >= self.cursor().stamp()
                && candidate.stamp() + day_step(self.spec_of()) * 86400 <= calendar::MAX_TICKS
                ==> (r matches Ok(SearchStep::Found(c)) && c.stamp() == candidate.stamp() + day_step(
                self.spec_of(),
            ) * 86400),
            rolling_weekdays(self.spec_of()) && candidate.stamp() >= self.cursor().stamp()
                && crate::biz_day::weekdays_after(
                candidate.day(),
                (calendar::MAX_DAY - candidate.day()) as nat,
            ) >= day_step(self.spec_of()) ==> (r matches Ok(SearchStep::Found(c)) && c.sod()
                == candidate.sod() && c.day() >= candidate.day() && crate::biz_day::weekdays_after(
                candidate.day(),
                (c.day() - candidate.day()) as nat,
            ) == day_step(self.spec_of())),
            r matches Ok(SearchStep::Found(c)) ==> c.stamp() > self.cursor().stamp() && date_matches(
                self.spec_of(),
                self.anchor(),
                c,
            ),
    {
        proof {
            use_type_invariant(self);
        }
        let months_are_values = matches!(self.spec.months, Cycle::Values(_));
        let day_is_relative = matches!(self.spec.days, DayCycle::NextNth(..) | DayCycle::ForEach);
        let (anchor, reset_month) = self.year_anchor(candidate)?;
        let year_candidate = match year_next_date(&self.spec.years, &anchor, &self.start_dt)? {
            Some(t) => t,
            None => return Ok(SearchStep::Exhausted),
        };
        let (cy, _cm, cd) = ymd_of(candidate);
        let (yy0, _ym0, _yd0) = ymd_of(&year_candidate);
        let year_candidate = if reset_month && yy0 != cy {
            match &self.spec.months {
                Cycle::Values(mv) => if mv.len() > 0 {
                    match NaiveDateTime::midnight(yy0, mv[0], 1) {
                        Some(t) => t,
                        None => year_candidate,
                    }
                } else {
                    year_candidate
                },
                _ => year_candidate,
            }
        } else {
            year_candidate
        };
        let (yy, ym, _yd) = ymd_of(&year_candidate);
        let year_advanced = yy != cy;
        let month_must_advance = (year_advanced && !months_are_values) || day_is_relative;
        let month_candidate = match month_next_date(
            &self.spec.months,
            &year_candidate,
            &self.start_dt,
            month_must_advance,
        )? {
            Some(t) => t,
            None => return Ok(SearchStep::Exhausted),
        };
        let (my, mm, _md) = ymd_of(&month_candidate);
        let month_advanced = mm != ym || my != yy;
        let period_reset = month_advanced || (year_advanced && months_are_values);
        let day_cursor = self.day_cursor(candidate, cd, &month_candidate, period_reset)?;
        let day_candidate = match day_next_date(&self.spec.days, &day_cursor, &self.bd_processor)? {
            Some(t) => t,
            None => {
                let c = first_of_next_month(&month_candidate)?;
                return Ok(SearchStep::Retry(c));
            },
        };
        if self.dtm.is_before(&day_candidate) {
            self.validate(&day_candidate)
        } else {
            let c = if day_candidate.same_instant(candidate) {
                shift_days(candidate, 1)?
            } else {
                day_candidate
            };
            Ok(SearchStep::Retry(c))
        }
    }

    /// Checks that the year and month of a date found by the day component
    /// are still allowed; if not, where to search again.
    fn validate(&self, day_candidate: &NaiveDateTime) -> (r: Result<SearchStep>)
        requires
            day_candidate.stamp() > self.cursor().stamp(),
            day_rule(self.spec_of().days, *day_candidate),
        ensures
            r matches Ok(SearchStep::Found(c)) ==> c.stamp() > self.cursor().stamp() && date_matches(
                self.spec_of(),
                self.anchor(),
                c,
            ),
            years_match(self.spec_of().years, self.anchor(), *day_candidate) && months_match(
                self.spec_of().months,
                self.anchor(),
                *day_candidate,
            ) ==> r == Ok::<SearchStep, Error>(SearchStep::Found(*day_candidate)),
            !(years_match(self.spec_of().years, self.anchor(), *day_candidate) && months_match(
                self.spec_of().months,
                self.anchor(),
                *day_candidate,
            )) ==> !(r matches Ok(SearchStep::Found(_))),
            !years_match(self.spec_of().years, self.anchor(), *day_candidate) && year_next_spec(
                self.spec_of().years,
                *day_candidate,
                self.anchor(),
            ) is None ==> r == Ok::<SearchStep, Error>(SearchStep::Exhausted),
            years_match(self.spec_of().years, self.anchor(), *day_candidate)
                && self.spec_of().months is Values && month_next_spec(
                self.spec_of().months,
                *day_candidate,
                self.anchor(),
                true,
            ) is None ==> r == Ok::<SearchStep, Error>(SearchStep::Exhausted),
            r matches Ok(SearchStep::Retry(c)) ==> c.sod() == 0,
            r is Err ==> r == Err::<SearchStep, Error>(Error::OutOfRange),
    {
        proof {
            use_type_invariant(self);
        }
        if !year_allowed(&self.spec.years, &self.start_dt, day_candidate) {
            match year_next_date(&self.spec.years, day_candidate, &self.start_dt)? {
                None => return Ok(SearchStep::Exhausted),
                Some(y) => {
                    let c = day_before_midnight(&y)?;
                    return Ok(SearchStep::Retry(c));
                },
            }
        }
        if matches!(self.spec.months, Cycle::Values(_)) {
            let (dy, dm, _dd) = ymd_of(day_candidate);
            proof {
                if let Cycle::Values(v) = &self.spec.months {
                    if months_match(self.spec.months, self.start_dt, *day_candidate) {
                        crate::date::component::lemma_first_at_least_hit(
                            v@,
                            day_candidate.month() as u32,
                        );
                    }
                }
            }
            match month_next_date(&self.spec.months, day_candidate, &self.start_dt, true)? {
                None => return Ok(SearchStep::Exhausted),
                Some(m) => {
                    let (ry, rm, _rd) = ymd_of(&m);
                    if rm != dm || ry != dy {
                        let c = day_before_midnight(&m)?;
                        return Ok(SearchStep::Retry(c));
                    }
                    proof {
                        if let Cycle::Values(v) = &self.spec.months {
                            let i = first_at_least(v@, day_candidate.month());
                            crate::date::component::lemma_first_at_least(v@, day_candidate.month());
                            assert(month_next_spec(self.spec.months, *day_candidate, self.start_dt, true)
                                == Some((day_candidate.year(), day_candidate.month())));
                            assert(i < v@.len());
                            assert(v@[i] == day_candidate.month() as u32);
                            assert(0 <= i < v@.len() && v@[i] == day_candidate.month() as u32);
                            assert(v@.contains(v@[i]));
                        }
                        assert(months_match(self.spec.months, self.start_dt, *day_candidate));
                    }
                },
            }
        }
        if let Cycle::NextNth(n) = &self.spec.months {
            let (sy, sm, _sd) = ymd_of(&self.start_dt);
            let (dy, dm, _dd) = ymd_of(day_candidate);
            let total: i64 = (dy as i64 - sy as i64) * 12 + (dm as i64 - sm as i64);
            let rem = rem_euclid(total, *n);
            if rem != 0 {
                let (ny, nm) = ffwd_months(dy, dm, *n - rem);
                let c = first_of_month(ny, nm)?;
                return Ok(SearchStep::Retry(c));
            }
        }
        assert(years_match(self.spec.years, self.start_dt, *day_candidate));
        assert(months_match(self.spec.months, self.start_dt, *day_candidate));
        Ok(SearchStep::Found(*day_candidate))
    }

    /// The next raw date after the cursor that the spec allows.
    fn find_candidate(&self) -> (r: Result<Option<NaiveDateTime>>)
        ensures
            rolling_days(self.spec_of()) && self.cursor().stamp() + day_step(self.spec_of()) * 86400
                <= calendar::MAX_TICKS ==> (r matches Ok(Some(c)) && c.stamp() == self.cursor().stamp()
                + day_step(self.spec_of()) * 86400),
            self.weekdays_in_range() ==> (r matches Ok(Some(c)) && c.sod() == self.cursor().sod()
                && c.day() >= self.cursor().day() && crate::biz_day::weekdays_after(
                self.cursor().day(),
                (c.day() - self.cursor().day()) as nat,
            ) == day_step(self.spec_of())),
            r matches Ok(Some(c)) ==> c.stamp() > self.cursor().stamp() && date_matches(
                self.spec_of(),
                self.anchor(),
                c,
            ),
    {
        let mut candidate = self.dtm;
        let mut rounds: u32 = 0;
        while rounds < MAX_SEARCH_ROUNDS
            invariant
                rolling_days(self.spec_of()) && self.cursor().stamp() + day_step(self.spec_of()) * 86400
                    <= calendar::MAX_TICKS ==> rounds == 0 && candidate == self.dtm,
                self.weekdays_in_range() ==> rounds == 0 && candidate == self.dtm,
            decreases MAX_SEARCH_ROUNDS - rounds,
        {
            rounds = rounds + 1;
            match self.search_round(&candidate)? {
                SearchStep::Found(c) => return Ok(Some(c)),
                SearchStep::Exhausted => return Ok(None),
                SearchStep::Retry(c) => {
                    candidate = c;
                },
            }
        }
        Err(Error::IteratorNotConverged)
    }

    /// The raw date with the next-month observation of a day that the
    /// month lacks (`ddN`, `ddO`).
    fn wrap_overflow(&self, c: &NaiveDateTime) -> (r: Result<NextResult<NaiveDateTime>>)
        ensures
            r matches Ok(x) ==> x.actual_of() == *c && outcome_in_order(x) && !(x is AdjustedEarlier),
            r matches Ok(x) ==> (!overflows_to_next_month(self.spec_of()) ==> x == NextResult::Single(
                *c,
            )),
            overflow_day(self.spec_of(), *c) is None ==> r == Ok::<NextResult<NaiveDateTime>, Error>(
                NextResult::Single(*c),
            ),
            overflow_day(self.spec_of(), *c) matches Some(o) ==> (r is Ok <==> months_after(
                c.year(),
                c.month(),
                1,
            ).0 <= calendar::MAX_YEAR && o <= calendar::MAX_DAY),
            overflow_day(self.spec_of(), *c) matches Some(o) ==> (r matches Ok(x) ==> x
                == NextResult::AdjustedLater(*c, x.observed_of()) && x.observed_of().day() == o
                && x.observed_of().sod() == 0),
            r is Err ==> r == Err::<NextResult<NaiveDateTime>, Error>(Error::OutOfRange),
    {
        match &self.spec.days {
            DayCycle::OnDays { days, option } => {
                if matches!(option, LastDayOption::NextMonthFirstDay) || matches!(
                    option,
                    LastDayOption::NextMonthOverflow,
                ) {
                    let (y, m, d) = ymd_of(c);
                    let last = calendar::month_length(y, m);
                    let i = find_at_least(days, last + 1);
                    if d == last && i < days.len() {
                        let first_next = first_of_next_month(c)?;
                        proof {
                            crate::date::component::lemma_next_month_first(y as int, m as int);
                            calendar::lemma_stamp_order(*c, first_next);
                        }
                        let observed = if matches!(option, LastDayOption::NextMonthFirstDay) {
                            first_next
                        } else {
                            shift_days(&first_next, (days[i] - last) as i64 - 1)?
                        };
                        Ok(NextResult::AdjustedLater(*c, observed))
                    } else {
                        Ok(NextResult::Single(*c))
                    }
                } else {
                    Ok(NextResult::Single(*c))
                }
            },
            _ => Ok(NextResult::Single(*c)),
        }
    }

    /// Applies the business-day adjustment of the spec.
    fn adjust(&self, base: NextResult<NaiveDateTime>) -> (r: Result<NextResult<NaiveDateTime>>)
        requires
            outcome_in_order(base),
            !(base is AdjustedEarlier),
            !overflows_to_next_month(self.spec_of()) ==> base == NextResult::Single(
                base.actual_of(),
            ),
        ensures
            r matches Ok(x) ==> adjustment_holds(
                self.spec_of(),
                self.processor(),
                base.actual_of(),
                x,
            ),
            self.spec_of().biz_day_adj is None ==> r == Ok::<NextResult<NaiveDateTime>, Error>(base),
            self.spec_of().biz_day_adj == Some(BizDayAdjustment::NA) ==> (r matches Ok(x) ==> x
                == base),
            (self.spec_of().biz_day_adj matches Some(BizDayAdjustment::Prev(n)) && n == 0) ==> (
            r matches Ok(x) ==> x == NextResult::AdjustedEarlier(base.actual_of(), base.observed_of())),
            (self.spec_of().biz_day_adj matches Some(BizDayAdjustment::Next(n)) && n == 0) ==> (
            r matches Ok(x) ==> x == NextResult::AdjustedLater(base.actual_of(), base.observed_of())),
            (self.spec_of().biz_day_adj matches Some(BizDayAdjustment::BizDay(_))
                || self.spec_of().biz_day_adj matches Some(BizDayAdjustment::Weekday(_))) ==> (
            r matches Ok(x) ==> (self.processor().is_biz(base.observed_of()) ==> x == base)),
            (self.spec_of().biz_day_adj matches Some(BizDayAdjustment::Weekday(dir))) ==> (
            r matches Ok(x) ==> (!self.processor().is_biz(base.observed_of()) ==> weekday_moved(
                base.observed_of(),
                x.observed_of(),
                self.spec_of().biz_day_adj->0->Weekday_0,
            ))),
            (self.spec_of().biz_day_adj matches Some(BizDayAdjustment::BizDay(dir))) ==> (
            r matches Ok(x) ==> (!self.processor().is_biz(base.observed_of()) ==> biz_moved(
                self.processor(),
                base.observed_of(),
                x.observed_of(),
                self.spec_of().biz_day_adj->0->BizDay_0,
            ))),
            (self.spec_of().biz_day_adj matches Some(BizDayAdjustment::Next(_)) && shift_count(
                self.spec_of(),
            ) > 0) ==> (r matches Ok(x) ==> x.observed_of().day() > base.observed_of().day()
                && crate::biz_day::biz_days_after(
                |u: NaiveDateTime| self.processor().is_biz(u),
                base.observed_of(),
                (x.observed_of().day() - base.observed_of().day()) as nat,
            ) == shift_count(self.spec_of())),
            (self.spec_of().biz_day_adj matches Some(BizDayAdjustment::Prev(_)) && shift_count(
                self.spec_of(),
            ) > 0) ==> (r matches Ok(x) ==> x.observed_of().day() < base.observed_of().day()
                && crate::biz_day::biz_days_before(
                |u: NaiveDateTime| self.processor().is_biz(u),
                base.observed_of(),
                (base.observed_of().day() - x.observed_of().day()) as nat,
            ) == shift_count(self.spec_of())),
    {
        let actual = *base.actual();
        let observed = *base.observed();
        match &self.spec.biz_day_adj {
            None => Ok(base),
            Some(adj) => match adj {
                BizDayAdjustment::Prev(n) => {
                    let o = self.bd_processor.sub(&observed, *n)?;
                    Ok(NextResult::AdjustedEarlier(actual, o))
                },
                BizDayAdjustment::Next(n) => {
                    let o = self.bd_processor.add(&observed, *n)?;
                    Ok(NextResult::AdjustedLater(actual, o))
                },
                _ => {
                    if self.bd_processor.is_biz_day(&observed)? {
                        Ok(base)
                    } else {
                        match adj {
                            BizDayAdjustment::Weekday(dir) => {
                                let ws = WeekendSkipper::new();
                                let a = ws.find_biz_day(&observed, *dir)?;
                                let x = adjusted_to_next_result(actual, a);
                                proof {
                                    if a.stamp() == actual.stamp() {
                                        calendar::lemma_stamp_eq(a, actual);
                                    }
                                }
                                Ok(x)
                            },
                            BizDayAdjustment::BizDay(dir) => {
                                let a = self.bd_processor.find_biz_day(&observed, *dir)?;
                                let x = adjusted_to_next_result(actual, a);
                                proof {
                                    if a.stamp() == actual.stamp() {
                                        calendar::lemma_stamp_eq(a, actual);
                                    }
                                }
                                Ok(x)
                            },
                            _ => Ok(base),
                        }
                    }
                },
            },
        }
    }

    /// The next outcome: the start first (when there is one and the cursor
    /// has not passed it), then the next date of the spec after the cursor
    /// with its business-day adjustment; the end bound itself in place of
    /// an outcome that passes it; `None` at the end or when the spec has no
    /// further date.
    pub fn next(&mut self) -> (r: Result<Option<NextResult<NaiveDateTime>>>)
        ensures
            final(self).spec_of() == old(self).spec_of(),
            final(self).anchor() == old(self).anchor(),
            final(self).end_of() == old(self).end_of(),
            final(self).start_of() == old(self).start_of(),
            final(self).processor() == old(self).processor(),
            old(self).at_end() ==> r == Ok::<Option<NextResult<NaiveDateTime>>, Error>(None),
            old(self).at_start() ==> r == Ok::<Option<NextResult<NaiveDateTime>>, Error>(
                Some(NextResult::Single(old(self).start_of()->0)),
            ),
            r matches Ok(o) ==> old(self).step_ok(final(self), o),
            old(self).next_ok(final(self), r),
    {
        proof {
            use_type_invariant(&*self);
        }
        if let Some(end) = self.end {
            if !self.dtm.is_before(&end) {
                return Ok(None);
            }
        }
        if !self.started {
            if let Some(start) = self.start {
                if !start.is_before(&self.dtm) {
                    self.dtm = start;
                    self.started = true;
                    return Ok(Some(NextResult::Single(start)));
                }
            }
        }
        let searched = self.find_candidate();
        let candidate = if is_rule_checkable(&self.spec.days) {
            let least = !(matches!(self.spec.years, Cycle::NextNth(_)) && matches!(
                self.spec.months,
                Cycle::NextNth(_),
            ));
            let later_day = match &searched {
                Ok(Some(c)) => c.day_number() > self.dtm.day_number(),
                _ => false,
            };
            match searched {
                Ok(Some(c)) if later_day => if least {
                    self.least_match(&c)
                } else {
                    c
                },
                _ => match self.scan_forward() {
                    Some(t) => t,
                    None => {
                        if self.years_within_window() {
                            return Ok(None);
                        }
                        return match searched {
                            Err(e) => Err(e),
                            Ok(_) => Ok(None),
                        };
                    },
                },
            }
        } else {
            match searched? {
                Some(c) => c,
                None => return Ok(None),
            }
        };
        let retimed = candidate.with_sod(self.start_dt.secs_of_day());
        let candidate = if self.dtm.is_before(&retimed) {
            proof {
                lemma_day_decides_match(self.spec_of(), self.anchor(), candidate, retimed);
            }
            retimed
        } else {
            candidate
        };
        let base = self.wrap_overflow(&candidate)?;
        let result = self.adjust(base)?;
        if !self.dtm.is_before(result.actual()) {
            return Ok(None);
        }
        if let Some(end) = self.end {
            if end.is_before(result.actual()) || end.is_before(result.observed()) {
                self.dtm = end;
                self.started = true;
                return Ok(Some(NextResult::Single(end)));
            }
        }
        self.started = true;
        self.dtm = *result.actual();
        Ok(Some(result))
    }

    /// Up to `n` next outcomes, in order; their raw dates strictly
    /// increase. The calls of `next` stop at the first `None` or error,
    /// which is returned.
    pub fn take(&mut self, n: usize) -> (r: Result<Vec<NextResult<NaiveDateTime>>>)
        ensures
            final(self).spec_of() == old(self).spec_of(),
            r matches Ok(v) ==> v.len() <= n,
            r matches Ok(v) ==> forall|i: int, j: int|
                0 <= i < j < v.len() ==> #[trigger] v[i].actual_of().stamp()
                    < #[trigger] v[j].actual_of().stamp(),
            Self::take_ok(
                *old(self),
                *final(self),
                n as nat,
                match r {
                    Ok(v) => Ok(v@),
                    Err(e) => Err(e),
                },
            ),
    {
        let mut out: Vec<NextResult<NaiveDateTime>> = Vec::new();
        let ghost first = *self;
        let ghost mut states: Seq<NaiveSpecIterator<B>> = seq![first];
        while out.len() < n
            invariant
                self.spec_of() == old(self).spec_of(),
                out.len() <= n,
                first == *old(self),
                forall|i: int, j: int|
                    0 <= i < j < out.len() ==> #[trigger] out[i].actual_of().stamp()
                        < #[trigger] out[j].actual_of().stamp(),
                out.len() > 0 ==> self.cursor().stamp() >= out[out.len() - 1].actual_of().stamp()
                    && self.started(),
                Self::run_ok(first, states, out@),
                states.last() == *self,
            decreases n - out.len(),
        {
            let r = self.next();
            match r {
                Ok(Some(x)) => {
                    proof {
                        let s0 = states;
                        states = states.push(*self);
                        assert(forall|i: int| 0 <= i < s0.len() ==> states[i] == s0[i]);
                    }
                    out.push(x);
                },
                Ok(None) => {
                    assert(Self::run_ok(first, states, out@));
                    return Ok(out);
                },
                Err(e) => {
                    assert(Self::run_ok(first, states, out@));
                    return Err(e);
                },
            }
        }
        assert(Self::run_ok(first, states, out@));
        Ok(out)
    }
}

/// Whether a parsed spec can be iterated.
pub fn is_iterable(sp: &Spec) -> (r: bool)
    requires
        sp.wf(),
    ensures
        r == iterable(*sp),
{
    let c1 = match &sp.years {
        Cycle::NextNth(n) => *n > 0,
        Cycle::Values(v) => {
            let mut ok = true;
            let mut i: usize = 0;
            while i < v.len()
                invariant
                    0 <= i <= v@.len(),
                    ok == (forall|j: int| 0 <= j < i ==> #[trigger] v@[j] <= calendar::MAX_YEAR),
                decreases v@.len() - i,
            {
                if v[i] > calendar::MAX_YEAR as u32 {
                    ok = false;
                }
                i = i + 1;
            }
            ok
        },
        _ => true,
    };
    let c2 = match &sp.months {
        Cycle::NextNth(n) => *n > 0,
        Cycle::Values(v) => {
            let mut ok = true;
            let mut i: usize = 0;
            while i < v.len()
                invariant
                    0 <= i <= v@.len(),
                    ok == (forall|j: int| 0 <= j < i ==> 1 <= #[trigger] v@[j] <= 12),
                decreases v@.len() - i,
            {
                if v[i] < 1 || v[i] > 12 {
                    ok = false;
                }
                i = i + 1;
            }
            ok
        },
        _ => true,
    };
    c1 && c2
}

/// An outcome of the date iteration has its two dates in the order its
/// kind names: the observed date before the raw one for `AdjustedEarlier`,
/// after it for `AdjustedLater`. This fails only under the unconditional
/// shifts by zero days (`~0P`, `~0N`) and under a backward shift (`~nP`)
/// of a date that the days rule moved into the next month.
pub proof fn law_outcome_in_order<B: BizDayProcessor>(
    it: NaiveSpecIterator<B>,
    after: NaiveSpecIterator<B>,
    x: NextResult<NaiveDateTime>,
)
    requires
        it.step_ok(&after, Some(x)),
        !(it.spec_of().biz_day_adj matches Some(BizDayAdjustment::Prev(n)) && (n == 0
            || overflows_to_next_month(it.spec_of()))),
        !(it.spec_of().biz_day_adj matches Some(BizDayAdjustment::Next(n)) && n == 0),
    ensures
        outcome_in_order(x),
{
}

/// Of an outcome whose dates are in the order its kind names, `earlier`
/// is the first of its two dates and `later` the last.
pub proof fn law_earlier_not_after_later(r: NextResult<NaiveDateTime>)
    requires
        outcome_in_order(r),
    ensures
        r.earlier_of().stamp() <= r.later_of().stamp(),
        r.earlier_of().stamp() <= r.actual_of().stamp() && r.earlier_of().stamp()
            <= r.observed_of().stamp(),
        r.later_of().stamp() >= r.actual_of().stamp() && r.later_of().stamp()
            >= r.observed_of().stamp(),
{
}

/// Along a run of `next`, the rules, the anchor and the end stay as they
/// were.
proof fn lemma_run_keeps<B: BizDayProcessor>(
    first: NaiveSpecIterator<B>,
    states: Seq<NaiveSpecIterator<B>>,
    outs: Seq<NextResult<NaiveDateTime>>,
    k: int,
)
    requires
        NaiveSpecIterator::run_ok(first, states, outs),
        0 <= k < states.len(),
    ensures
        states[k].spec_of() == first.spec_of(),
        states[k].anchor() == first.anchor(),
        states[k].end_of() == first.end_of(),
    decreases k,
{
    if k > 0 {
        lemma_run_keeps(first, states, outs, k - 1);
        let j = k - 1;
        assert(states[j].next_ok(&states[j + 1], Ok(Some(outs[j]))));
    }
}

/// The iteration skips no date: between two successive outcomes of a run
/// of `next`, no date of the spec lies on a day strictly between their raw
/// dates (as far as the scan window reaches), but where the later outcome
/// is the end bound itself. This holds of specs that a date can be checked
/// against on its own (see [`search_checkable`]).
pub proof fn law_no_date_skipped<B: BizDayProcessor>(
    first: NaiveSpecIterator<B>,
    states: Seq<NaiveSpecIterator<B>>,
    outs: Seq<NextResult<NaiveDateTime>>,
    i: int,
)
    requires
        NaiveSpecIterator::run_ok(first, states, outs),
        search_checkable(first.spec_of()),
        0 <= i < outs.len() - 1,
    ensures
        (first.end_of() matches Some(e) && outs[i + 1] == NextResult::Single(e)) || no_match_within(
            first.spec_of(),
            first.anchor(),
            outs[i].actual_of(),
            min_int(outs[i + 1].actual_of().day(), window_end(outs[i].actual_of())),
        ),
{
    lemma_run_keeps(first, states, outs, i + 1);
    assert(states[i].next_ok(&states[i + 1], Ok(Some(outs[i]))));
    let j = i + 1;
    assert(states[j].next_ok(&states[j + 1], Ok(Some(outs[j]))));
    assert(states[j].cursor() == outs[i].actual_of());
}

/// The date of the spec that `law_next_gives_first_date` finds: a date of
/// the spec after the cursor, on a day no later than that of `x`, and on the
/// day of `x` unless on the cursor's own day.
pub open spec fn first_date_outcome<B: BizDayProcessor>(
    it: NaiveSpecIterator<B>,
    x: NaiveDateTime,
    y: NextResult<NaiveDateTime>,
) -> bool {
    &&& date_matches(it.spec_of(), it.anchor(), y.actual_of())
    &&& y.actual_of().stamp() > it.cursor().stamp()
    &&& y.actual_of().day() <= x.day()
    &&& y.actual_of().day() > it.cursor().day() ==> y.actual_of().day() == x.day()
}

/// Past the start and short of the end, a call of `next` gives the first
/// date of the spec after the cursor: when `x` is a date of the spec on a
/// later day within the scan window, with no date of the spec on a day
/// between, and the end bound (if any) lies on a later day than `x`, the
/// call does not answer `None`, and an outcome other than the end bound is
/// on the day of `x` (or on the cursor's own day). Without business-day
/// adjustment or move into the next month, the call succeeds with such an
/// outcome. Without business-day adjustment and without an end, it succeeds
/// whenever the day into which the days rule moves `x` (if it does) lies in
/// the calendar: the outcome's raw date is on the day of `x` at the anchor's
/// time of day, observed as the days rule says.
pub proof fn law_next_gives_first_date<B: BizDayProcessor>(
    it: NaiveSpecIterator<B>,
    after: NaiveSpecIterator<B>,
    r: Result<Option<NextResult<NaiveDateTime>>>,
    x: NaiveDateTime,
)
    requires
        it.next_ok(&after, r),
        !it.at_end(),
        !it.at_start(),
        search_checkable(it.spec_of()),
        it.cursor().day() < x.day() < window_end(it.cursor()),
        date_matches(it.spec_of(), it.anchor(), x),
        no_match_within(it.spec_of(), it.anchor(), it.cursor(), x.day()),
        it.end_of() matches Some(e) ==> x.day() < e.day(),
    ensures
        !(r matches Ok(None)),
        r matches Ok(Some(y)) ==> (it.end_of() matches Some(e) && y == NextResult::Single(e))
            || first_date_outcome(it, x, y),
        it.spec_of().biz_day_adj is None && !overflows_to_next_month(it.spec_of()) ==> (r matches Ok(
            Some(y),
        ) && first_date_outcome(it, x, y)),
        it.spec_of().biz_day_adj is None && it.end_of() is None && overflow_in_calendar(it.spec_of(), x)
            ==> (r matches Ok(Some(y)) && first_date_outcome(it, x, y) && y.actual_of().day() == x.day()
            && y.actual_of().sod() == it.anchor().sod() && overflow_outcome(it.spec_of(), y)),
{
    let plain = it.spec_of().biz_day_adj is None && !overflows_to_next_month(it.spec_of());
    match r {
        Ok(Some(y)) => {
            let end_case = it.end_of() matches Some(e) && y == NextResult::Single(e) && after.cursor()
                == e && e.stamp() > it.cursor().stamp();
            if end_case && plain {
                assert(!date_matches(it.spec_of(), it.anchor(), x));
            }
            if !end_case {
                if y.actual_of().day() > it.cursor().day() && y.actual_of().day() < x.day() {
                    assert(!date_matches(it.spec_of(), it.anchor(), y.actual_of()));
                }
                if y.actual_of().day() > x.day() {
                    assert(!date_matches(it.spec_of(), it.anchor(), x));
                }
            }
        },
        Ok(None) => {
            assert(!date_matches(it.spec_of(), it.anchor(), x));
        },
        Err(_) => {
            if plain {
                assert(!date_matches(it.spec_of(), it.anchor(), x));
            }
            if it.spec_of().biz_day_adj is None && it.end_of() is None && overflow_in_calendar(
                it.spec_of(),
                x,
            ) {
                if exists|c: NaiveDateTime|
                    #[trigger] date_matches(it.spec_of(), it.anchor(), c) && c.day() > it.cursor().day()
                        && no_match_within(
                        it.spec_of(),
                        it.anchor(),
                        it.cursor(),
                        min_int(c.day(), window_end(it.cursor())),
                    ) && !overflow_in_calendar(it.spec_of(), c) {
                    let c = choose|c: NaiveDateTime|
                        #[trigger] date_matches(it.spec_of(), it.anchor(), c) && c.day()
                            > it.cursor().day() && no_match_within(
                            it.spec_of(),
                            it.anchor(),
                            it.cursor(),
                            min_int(c.day(), window_end(it.cursor())),
                        ) && !overflow_in_calendar(it.spec_of(), c);
                    if c.day() < x.day() {
                        assert(!date_matches(it.spec_of(), it.anchor(), c));
                    }
                    if c.day() > x.day() {
                        assert(!date_matches(it.spec_of(), it.anchor(), x));
                    }
                    assert(c.ymd() == x.ymd());
                } else {
                    assert(!date_matches(it.spec_of(), it.anchor(), x));
                }
            }
        },
    }
}

/// Once no date of the spec remains after the cursor, a call of `next`
/// past the start, without an end bound, answers `None` when the spec's
/// years are a set whose years all end within the scan window (for day
/// rules that a date can be checked against on its own, without
/// business-day adjustment).
pub proof fn law_none_once_no_date_remains<B: BizDayProcessor>(
    it: NaiveSpecIterator<B>,
    after: NaiveSpecIterator<B>,
    r: Result<Option<NextResult<NaiveDateTime>>>,
)
    requires
        it.next_ok(&after, r),
        !it.at_end(),
        !it.at_start(),
        rule_checkable(it.spec_of().days),
        it.spec_of().biz_day_adj is None,
        it.end_of() is None,
        years_within_window(it.spec_of(), it.cursor()),
        forall|u: NaiveDateTime|
            u.day() > it.cursor().day() ==> !#[trigger] date_matches(it.spec_of(), it.anchor(), u),
    ensures
        r == Ok::<Option<NextResult<NaiveDateTime>>, Error>(None),
{
    match r {
        Ok(Some(y)) => {
            assert(it.step_ok(&after, Some(y)));
            assert(y.actual_of().day() > it.cursor().day());
            assert(!date_matches(it.spec_of(), it.anchor(), y.actual_of()));
        },
        Err(_) => {
            if exists|c: NaiveDateTime|
                #[trigger] date_matches(it.spec_of(), it.anchor(), c) && c.day() > it.cursor().day()
                    && (search_checkable(it.spec_of()) ==> no_match_within(
                    it.spec_of(),
                    it.anchor(),
                    it.cursor(),
                    min_int(c.day(), window_end(it.cursor())),
                )) && !overflow_in_calendar(it.spec_of(), c) {
                let c = choose|c: NaiveDateTime|
                    #[trigger] date_matches(it.spec_of(), it.anchor(), c) && c.day() > it.cursor().day()
                        && (search_checkable(it.spec_of()) ==> no_match_within(
                        it.spec_of(),
                        it.anchor(),
                        it.cursor(),
                        min_int(c.day(), window_end(it.cursor())),
                    )) && !overflow_in_calendar(it.spec_of(), c);
                assert(!date_matches(it.spec_of(), it.anchor(), c));
            }
        },
        Ok(None) => {},
    }
}

/// The nearest-weekday roll `~W` of a raw date that is no business day:
/// the observed date is a weekday at most two days away, in the same month
/// as the raw date, at the same time of day; a Saturday or Sunday on the
/// last day of the month rolls back, one on the 1st rolls forward, any other
/// Saturday rolls to the Friday before and any other Sunday to the Monday
/// after.
pub proof fn law_weekday_roll_is_nearest<B: BizDayProcessor>(
    it: NaiveSpecIterator<B>,
    after: NaiveSpecIterator<B>,
    x: NextResult<NaiveDateTime>,
)
    requires
        it.step_ok(&after, Some(x)),
        !it.at_end(),
        !it.at_start(),
        it.end_of() is None,
        it.spec_of().biz_day_adj == Some(BizDayAdjustment::Weekday(Direction::Nearest)),
        !overflows_to_next_month(it.spec_of()),
        !it.processor().is_biz(x.actual_of()),
        calendar::valid_ymd(x.actual_of().year(), x.actual_of().month(), x.actual_of().dom()),
    ensures
        is_weekday_number(x.observed_of().day()),
        x.observed_of().sod() == x.actual_of().sod(),
        -2 <= x.observed_of().day() - x.actual_of().day() <= 2,
        1 <= x.actual_of().dom() + (x.observed_of().day() - x.actual_of().day())
            <= calendar::days_in_month(x.actual_of().year(), x.actual_of().month()),
        !is_weekday_number(x.actual_of().day()) && x.actual_of().dom() == calendar::days_in_month(
            x.actual_of().year(),
            x.actual_of().month(),
        ) ==> x.observed_of().day() < x.actual_of().day(),
        !is_weekday_number(x.actual_of().day()) && x.actual_of().dom() == 1 ==> x.observed_of().day()
            > x.actual_of().day(),
        !is_weekday_number(x.actual_of().day()) && 1 < x.actual_of().dom() < calendar::days_in_month(
            x.actual_of().year(),
            x.actual_of().month(),
        ) ==> (x.actual_of().weekday_index() == 5 ==> x.observed_of().day() == x.actual_of().day() - 1)
            && (x.actual_of().weekday_index() == 6 ==> x.observed_of().day() == x.actual_of().day()
            + 1),
{
    let a = x.actual_of();
    assert(roll_holds(it.spec_of(), it.processor(), x));
    assert(weekday_moved(a, x.observed_of(), Direction::Nearest));
    crate::biz_day::law_nearest_biz_day(
        a.day(),
        a.dom(),
        calendar::days_in_month(a.year(), a.month()),
    );
}

/// With the weekend skipper, a business-day roll (`~B`, `~NB`, `~PB`) of a
/// raw date that falls on a weekend moves it, at the same time of day, by
/// [`crate::biz_day::weekend_shift`] in its direction: to the Friday before
/// or the Monday after as the direction asks, and for `Nearest` as
/// [`crate::biz_day::nearest_shift`] says.
pub proof fn law_biz_roll_with_weekend_skipper(
    it: NaiveSpecIterator<WeekendSkipper>,
    after: NaiveSpecIterator<WeekendSkipper>,
    x: NextResult<NaiveDateTime>,
    dir: Direction,
)
    requires
        it.step_ok(&after, Some(x)),
        !it.at_end(),
        !it.at_start(),
        it.end_of() is None,
        it.spec_of().biz_day_adj == Some(BizDayAdjustment::BizDay(dir)),
        !overflows_to_next_month(it.spec_of()),
        !crate::biz_day::is_weekday_number(x.actual_of().day()),
    ensures
        x.observed_of().sod() == x.actual_of().sod(),
        x.observed_of().day() == x.actual_of().day() + crate::biz_day::weekend_shift(
            x.actual_of().weekday_index(),
            x.actual_of().dom(),
            calendar::days_in_month(x.actual_of().year(), x.actual_of().month()),
            dir,
        ),
{
    let a = x.actual_of();
    let o = x.observed_of();
    assert(roll_holds(it.spec_of(), it.processor(), x));
    assert(biz_moved(it.processor(), a, o, dir));
    calendar::lemma_stamp_parts(o);
    let d = a.day() + crate::biz_day::weekend_shift(
        a.weekday_index(),
        a.dom(),
        calendar::days_in_month(a.year(), a.month()),
        dir,
    );
    assert(o.stamp() == (d - calendar::MIN_DAY) * 86400 + a.sod());
    assert(0 <= a.sod() < 86400);
    assert(o.day() == d && o.sod() == a.sod()) by (nonlinear_arith)
        requires
            o.stamp() == (d - calendar::MIN_DAY) * 86400 + a.sod(),
            o.stamp() == (o.day() - calendar::MIN_DAY) * 86400 + o.sod(),
            0 <= a.sod() < 86400,
            0 <= o.sod() < 86400,
    ;
}

/// A weekday roll (`~W`, `~NW`, `~PW`) of a raw date that is no business
/// day of the processor moves it, at the same time of day, by
/// [`crate::biz_day::weekend_shift`] in its direction: a weekday (a holiday
/// of the processor) stays, a Saturday goes to the Monday after for `~NW`
/// and to the Friday before for `~PW`, a Sunday likewise, and `~W` goes as
/// [`crate::biz_day::nearest_shift`] says.
pub proof fn law_weekday_roll_moves_by_weekend_shift<B: BizDayProcessor>(
    it: NaiveSpecIterator<B>,
    after: NaiveSpecIterator<B>,
    x: NextResult<NaiveDateTime>,
    dir: Direction,
)
    requires
        it.step_ok(&after, Some(x)),
        !it.at_end(),
        !it.at_start(),
        it.end_of() is None,
        it.spec_of().biz_day_adj == Some(BizDayAdjustment::Weekday(dir)),
        !overflows_to_next_month(it.spec_of()),
        !it.processor().is_biz(x.actual_of()),
    ensures
        x.observed_of().sod() == x.actual_of().sod(),
        x.observed_of().day() == x.actual_of().day() + crate::biz_day::weekend_shift(
            x.actual_of().weekday_index(),
            x.actual_of().dom(),
            calendar::days_in_month(x.actual_of().year(), x.actual_of().month()),
            dir,
        ),
{
    let a = x.actual_of();
    let o = x.observed_of();
    assert(roll_holds(it.spec_of(), it.processor(), x));
    assert(weekday_moved(a, o, dir));
    if !is_weekday_number(a.day()) {
        match dir {
            Direction::Next => crate::biz_day::lemma_weekend_next(a.day(), (o.day() - a.day()) as nat),
            Direction::Prev => crate::biz_day::lemma_weekend_prev(a.day(), (a.day() - o.day()) as nat),
            Direction::Nearest => {},
        }
    }
}

} // verus!
