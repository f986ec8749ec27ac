//! Iterating the date-times of a date-time spec: the date spec picks the
//! days, and within each day the time spec ticks.

use vstd::prelude::*;

use crate::biz_day::BizDayProcessor;
use crate::calendar::{self, NaiveDateTime, MAX_DAY, MIN_DAY};
use crate::date::iter::{date_matches, NaiveSpecIterator as DateIterator};
use crate::date::spec::Spec as DateSpec;
use crate::error::{Error, Result};
use crate::next_result::NextResult;
use crate::time::iter::{apply_time_spec, minute_stage, second_stage, time_step, time_step_defined};
use crate::time::spec::{clock_valid, Cycle as TimeCycle, Spec as TimeSpec};

verus! {

/// Days that one call looks at before it gives up.
pub const MAX_DAY_ROUNDS: u32 = 100000;

/// The natural step of the driving component of a time spec, in seconds:
/// `Every(n)` or a `ForEach` (when nothing advances by `Every`) on the
/// finest such component; one second when every component is pinned or
/// kept.
pub open spec fn spec_delta_secs(sp: TimeSpec) -> int {
    let every = sp.seconds is Every || sp.minutes is Every || sp.hours is Every;
    match sp.seconds {
        TimeCycle::Every(n) => n as int,
        TimeCycle::ForEach if !every => 1,
        _ => match sp.minutes {
            TimeCycle::Every(n) => n * 60,
            TimeCycle::ForEach if !every => 60,
            _ => match sp.hours {
                TimeCycle::Every(n) => n * 3600,
                TimeCycle::ForEach if !every => 3600,
                _ => 1,
            },
        },
    }
}

/// The natural step of a time spec, in seconds.
pub fn spec_delta(sp: &TimeSpec) -> (r: i64)
    ensures
        r == spec_delta_secs(*sp),
        0 <= r <= 255 * 3600,
{
    let every = matches!(sp.seconds, TimeCycle::Every(_)) || matches!(sp.minutes, TimeCycle::Every(_))
        || matches!(sp.hours, TimeCycle::Every(_));
    match sp.seconds {
        TimeCycle::Every(n) => n as i64,
        TimeCycle::ForEach if !every => 1,
        _ => match sp.minutes {
            TimeCycle::Every(n) => n as i64 * 60,
            TimeCycle::ForEach if !every => 60,
            _ => match sp.hours {
                TimeCycle::Every(n) => n as i64 * 3600,
                TimeCycle::ForEach if !every => 3600,
                _ => 1,
            },
        },
    }
}

/// The first tick of a time spec on a day entered afresh: counted from one
/// natural step before midnight when that lands on the day, else from
/// midnight itself.
pub open spec fn day_first_time(sp: TimeSpec, day: int) -> int {
    let m = NaiveDateTime::stamp_of(day, 0);
    let c = time_step(sp, m - spec_delta_secs(sp));
    if c >= m {
        c
    } else {
        time_step(sp, m)
    }
}

/// The text of a time spec parses to a spec that names times of day.
pub open spec fn time_text_clock_valid(b: Seq<u8>) -> bool {
    crate::time::spec::parse_time_text(b) matches Some(sp) && clock_valid(sp)
}

/// A date spec that can be iterated and a time spec that names times of
/// day.
pub open spec fn texts_ok(date_spec: Seq<char>, time_spec: Seq<char>) -> bool {
    crate::date::iter::date_text_iterable(vstd::utf8::encode_utf8(date_spec))
        && time_text_clock_valid(vstd::utf8::encode_utf8(time_spec))
}

/// The end spec `b`, split at its first separator `i`, has a date part that
/// can be iterated and a time part that names times of day, whose first
/// tick after `start` lies later within the calendar.
pub open spec fn end_split_ok(b: Seq<u8>, i: int, start: NaiveDateTime) -> bool {
    &&& crate::date::iter::date_text_iterable(b.subrange(0, i))
    &&& crate::time::iter::end_tick_ok(
        crate::time::spec::parse_time_text(b.subrange(i + 1, b.len() as int)),
        start,
    )
}

/// `end` is the first tick after `start` of the time part of the end spec
/// `b` split at `i`.
pub open spec fn end_fixed(b: Seq<u8>, i: int, start: NaiveDateTime, end: Option<NaiveDateTime>) -> bool {
    match (crate::time::spec::parse_time_text(b.subrange(i + 1, b.len() as int)), end) {
        (Some(e), Some(x)) => x.stamp() == time_step(e, start.stamp()),
        _ => false,
    }
}

/// The clock reading of the stamp `hh:mm:ss` on day `k` (counted from the
/// first day of the calendar): its seconds, minutes and hours.
proof fn lemma_clock_parts(k: int, hh: int, mm: int, ss: int)
    requires
        0 <= hh < 24,
        0 <= mm < 60,
        0 <= ss < 60,
    ensures
        (k * 86400 + hh * 3600 + mm * 60 + ss) % 60 == ss,
        ((k * 86400 + hh * 3600 + mm * 60 + ss) % 3600) / 60 == mm,
        ((k * 86400 + hh * 3600 + mm * 60 + ss) % 86400) / 3600 == hh,
{
    let t = k * 86400 + hh * 3600 + mm * 60 + ss;
    vstd::arithmetic::div_mod::lemma_fundamental_div_mod_converse(t, 60, k * 1440 + hh * 60 + mm, ss);
    vstd::arithmetic::div_mod::lemma_fundamental_div_mod_converse(t, 3600, k * 24 + hh, mm * 60 + ss);
    vstd::arithmetic::div_mod::lemma_fundamental_div_mod_converse(mm * 60 + ss, 60, mm, ss);
    vstd::arithmetic::div_mod::lemma_fundamental_div_mod_converse(
        t,
        86400,
        k,
        hh * 3600 + mm * 60 + ss,
    );
    vstd::arithmetic::div_mod::lemma_fundamental_div_mod_converse(
        hh * 3600 + mm * 60 + ss,
        3600,
        hh,
        mm * 60 + ss,
    );
}

/// The value that a component pins (`At`), zero for any other kind.
pub open spec fn pinned_or_zero(c: TimeCycle) -> int {
    match c {
        TimeCycle::At(v) => v as int,
        _ => 0,
    }
}

/// A time spec in which at most one component advances by `Every` ticks
/// first, on a day entered afresh, at that day's first time that it names:
/// the pinned (`At`) components at their values and all others at zero.
/// So `HH:MM:00` starts at midnight, `09:MM:SS` at nine o'clock and
/// `HH:10M:30` at thirty seconds past midnight.
pub proof fn law_first_tick_of_a_day(sp: TimeSpec, day: int)
    requires
        clock_valid(sp),
        !(sp.seconds is Every && sp.minutes is Every),
        !(sp.seconds is Every && sp.hours is Every),
        !(sp.minutes is Every && sp.hours is Every),
    ensures
        day_first_time(sp, day) == NaiveDateTime::stamp_of(
            day,
            pinned_or_zero(sp.hours) * 3600 + pinned_or_zero(sp.minutes) * 60 + pinned_or_zero(
                sp.seconds,
            ),
        ),
{
    let k = day - MIN_DAY;
    let p = k - 1;
    let h = pinned_or_zero(sp.hours);
    let mi = pinned_or_zero(sp.minutes);
    let s = pinned_or_zero(sp.seconds);
    assert(0 <= h < 24 && 0 <= mi < 60 && 0 <= s < 60);
    assert(NaiveDateTime::stamp_of(day, 0) == k * 86400);
    lemma_clock_parts(k, 0, 0, 0);
    match (sp.hours, sp.minutes, sp.seconds) {
        (_, _, TimeCycle::Every(n)) => {
            lemma_clock_parts(k, 0, mi, 0);
        },
        (_, TimeCycle::Every(n), _) => {
            vstd::arithmetic::div_mod::lemma_fundamental_div_mod_converse(
                k * 86400 - n * 60,
                60,
                k * 1440 - n,
                0,
            );
            lemma_clock_parts(k, 0, 0, s);
        },
        (TimeCycle::Every(n), _, _) => {
            vstd::arithmetic::div_mod::lemma_fundamental_div_mod_converse(
                k * 86400 - n * 3600,
                60,
                k * 1440 - n * 60,
                0,
            );
            vstd::arithmetic::div_mod::lemma_fundamental_div_mod_converse(
                k * 86400 - n * 3600 + s,
                3600,
                k * 24 - n,
                s,
            );
            vstd::arithmetic::div_mod::lemma_fundamental_div_mod_converse(s, 60, 0, s);
        },
        _ => {
            lemma_clock_parts(p, 23, 59, 59);
            lemma_clock_parts(p, 23, 59, 0);
            lemma_clock_parts(p, 23, 0, 0);
            lemma_clock_parts(p, 23, 59, s);
            lemma_clock_parts(p, 23, 0, s);
            lemma_clock_parts(p, 23, mi, s);
            lemma_clock_parts(p, 23, mi, 0);
            lemma_clock_parts(p, 23, mi, 59);
            lemma_clock_parts(k, 0, 0, s);
            lemma_clock_parts(k, 0, mi, s);
            lemma_clock_parts(k, 0, mi, 0);
        },
    }
}

/// [`day_first_time`] stays within the calendar.
pub open spec fn day_first_defined(sp: TimeSpec, day: int) -> bool {
    let m = NaiveDateTime::stamp_of(day, 0);
    let b = m - spec_delta_secs(sp);
    &&& 0 <= b
    &&& time_step_defined(sp, b)
    &&& (time_step(sp, b) >= m || time_step_defined(sp, m))
}

/// Midnight of the day of `t`.
fn midnight_of(t: &NaiveDateTime) -> (r: NaiveDateTime)
    ensures
        r.day() == t.day(),
        r.sod() == 0,
        r.stamp() == NaiveDateTime::stamp_of(t.day(), 0),
{
    let d = t.day_number();
    NaiveDateTime::from_day_and_secs(d, 0)
}

/// Midnight of the day after the day of `t`.
fn midnight_next(t: &NaiveDateTime) -> (r: Result<NaiveDateTime>)
    ensures
        r matches Ok(u) ==> u.day() == t.day() + 1 && u.sod() == 0 && u.stamp()
            == NaiveDateTime::stamp_of(t.day() + 1, 0),
        r is Err <==> t.day() >= MAX_DAY,
        r is Err ==> r == Err::<NaiveDateTime, Error>(Error::OutOfRange),
{
    let d = t.day_number();
    if d >= MAX_DAY {
        return Err(Error::OutOfRange);
    }
    Ok(NaiveDateTime::from_day_and_secs(d + 1, 0))
}

/// The last second of the day of `t`.
fn end_of_day(t: &NaiveDateTime) -> (r: NaiveDateTime)
    ensures
        r.day() == t.day(),
        r.sod() == 86399,
{
    let d = t.day_number();
    NaiveDateTime::from_day_and_secs(d, 86399)
}

/// The date of `day` at the time of day of `time`.
fn combine(day: &NaiveDateTime, time: &NaiveDateTime) -> (r: NaiveDateTime)
    ensures
        r.day() == day.day(),
        r.sod() == time.sod(),
{
    day.with_sod(time.secs_of_day())
}

/// One tick of the time spec; an error when it leaves the calendar.
pub fn tick(sp: &TimeSpec, t: &NaiveDateTime) -> (r: Result<NaiveDateTime>)
    requires
        clock_valid(*sp),
    ensures
        r is Ok <==> time_step_defined(*sp, t.stamp()),
        r matches Ok(u) ==> u.stamp() == time_step(*sp, t.stamp()),
        r is Err ==> r == Err::<NaiveDateTime, Error>(Error::OutOfRange),
{
    match apply_time_spec(sp, t) {
        Some(u) => Ok(u),
        None => Err(Error::OutOfRange),
    }
}

/// The first tick of a time spec on the day `day` entered afresh (see
/// [`day_first_time`]); `None` when it leaves the calendar.
pub fn day_first_tick(sp: &TimeSpec, day: i32) -> (r: Option<NaiveDateTime>)
    requires
        clock_valid(*sp),
        MIN_DAY <= day <= MAX_DAY,
    ensures
        r is Some <==> day_first_defined(*sp, day as int),
        r matches Some(t) ==> t.stamp() == day_first_time(*sp, day as int),
{
    let midnight = NaiveDateTime::from_day_and_secs(day, 0);
    midnight.bounds();
    let delta = spec_delta(sp);
    let back = match midnight.add_seconds(-delta) {
        Some(t) => t,
        None => return None,
    };
    let candidate = match tick(sp, &back) {
        Ok(t) => t,
        Err(_) => return None,
    };
    if !candidate.is_before(&midnight) {
        Some(candidate)
    } else {
        match tick(sp, &midnight) {
            Ok(t) => Some(t),
            Err(_) => None,
        }
    }
}

/// Date-times of the same day obey the same date rules.
proof fn lemma_same_day_matches(sp: DateSpec, anchor: NaiveDateTime, a: NaiveDateTime, b: NaiveDateTime)
    requires
        date_matches(sp, anchor, a),
        a.day() == b.day(),
    ensures
        date_matches(sp, anchor, b),
{
    assert(a.ymd() == b.ymd());
    assert(a.weekday_index() == b.weekday_index());
    if let crate::date::spec::DayCycle::OnWeekDays { weekdays, option } = sp.days {
        match option {
            crate::date::spec::WeekdayOption::Starting(o) => {
                if crate::date::component::occurrence(o) > 5 {
                    let y = choose|y: int|
                        a.day() == #[trigger] crate::utils::nth_weekday_day(
                            y,
                            a.month(),
                            weekdays@[0].0.index(),
                            crate::date::component::occurrence(o),
                        );
                    assert(b.day() == crate::utils::nth_weekday_day(
                        y,
                        b.month(),
                        weekdays@[0].0.index(),
                        crate::date::component::occurrence(o),
                    ));
                }
            },
            crate::date::spec::WeekdayOption::Ending(o) => {
                if crate::date::component::occurrence(o) > 5 {
                    let y = choose|y: int|
                        a.day() == #[trigger] crate::utils::nth_last_weekday_day(
                            y,
                            a.month(),
                            weekdays@[0].0.index(),
                            crate::date::component::occurrence(o),
                        );
                    assert(b.day() == crate::utils::nth_last_weekday_day(
                        y,
                        b.month(),
                        weekdays@[0].0.index(),
                        crate::date::component::occurrence(o),
                    ));
                }
            },
            _ => {},
        }
    }
}

/// The day `day` has a first tick of the time spec, and it lies on that
/// day.
pub open spec fn day_has_time(sp: TimeSpec, day: int) -> bool {
    &&& day_first_defined(sp, day)
    &&& NaiveDateTime::stamp_of(day, 0) <= day_first_time(sp, day) < NaiveDateTime::stamp_of(
        day + 1,
        0,
    )
}

/// The day after the last day that the date iteration's scan from day
/// `day` looks at.
pub open spec fn window_end_day(day: int) -> int {
    if day + crate::date::iter::SCAN_DAYS < MAX_DAY {
        day + crate::date::iter::SCAN_DAYS + 1
    } else {
        MAX_DAY + 1
    }
}

/// Date-time iterator over a date spec and a time spec, without a time
/// zone.
pub struct NaiveSpecIterator<B: BizDayProcessor> {
    date_iter: DateIterator<B>,
    time_spec: TimeSpec,
    current_date_end: Option<NaiveDateTime>,
    date_iter_started: bool,
    next_period_cursor: Option<NaiveDateTime>,
    dtm: NaiveDateTime,
    initial_dtm: NaiveDateTime,
    start: Option<NaiveDateTime>,
    end: Option<NaiveDateTime>,
    started: bool,
}

impl<B: BizDayProcessor> NaiveSpecIterator<B> {
    /// The time spec names times of day, and the inner date iteration has
    /// neither start nor end.
    pub closed spec fn wf(&self) -> bool {
        &&& clock_valid(self.time_spec)
        &&& self.date_iter.start_of() is None
        &&& self.date_iter.end_of() is None
    }

    pub closed spec fn time_spec_of(&self) -> TimeSpec {
        self.time_spec
    }

    pub closed spec fn date_spec_of(&self) -> DateSpec {
        self.date_iter.spec_of()
    }

    /// The date from which the cadences of the date spec are counted.
    pub closed spec fn date_anchor(&self) -> NaiveDateTime {
        self.date_iter.anchor()
    }

    pub closed spec fn end_of(&self) -> Option<NaiveDateTime> {
        self.end
    }

    pub closed spec fn start_of(&self) -> Option<NaiveDateTime> {
        self.start
    }

    /// The last date-time returned, or the initial cursor.
    pub closed spec fn cursor(&self) -> NaiveDateTime {
        self.dtm
    }

    pub closed spec fn started(&self) -> bool {
        self.started
    }

    /// Past the end check and the start: a day has been entered, so the
    /// next call first tries one tick of the time spec within it.
    pub open spec fn in_day_tick(&self) -> bool {
        &&& !self.at_end()
        &&& !self.at_start()
        &&& self.day_end() is Some
    }

    /// The tick from the cursor moves forward and stays before the end of
    /// the entered day.
    pub open spec fn tick_within_day(&self) -> bool {
        let n = time_step(self.time_spec_of(), self.cursor().stamp());
        &&& time_step_defined(self.time_spec_of(), self.cursor().stamp())
        &&& self.cursor().stamp() < n < self.day_end()->0.stamp()
    }

    /// The day after which the next day is looked for, once the entered day
    /// is done.
    pub open spec fn resume_day(&self) -> int {
        if self.period_cursor() is Some {
            self.period_cursor()->0.day()
        } else {
            MIN_DAY + (self.day_end()->0.stamp() - 1) / 86400
        }
    }

    /// The call moves on to a new day (no tick is left in the entered day),
    /// for a date spec whose dates are found one by one, without
    /// business-day adjustment or move into the next month.
    pub open spec fn rolls_over(&self) -> bool {
        &&& self.in_day_tick()
        &&& time_step_defined(self.time_spec_of(), self.cursor().stamp())
        &&& !self.tick_within_day()
        &&& self.date_started()
        &&& (self.period_cursor() is Some || self.day_end()->0.stamp() >= 1)
        &&& crate::date::iter::search_checkable(self.date_spec_of())
        &&& self.date_spec_of().biz_day_adj is None
        &&& !crate::date::iter::overflows_to_next_month(self.date_spec_of())
    }

    /// No day after the resume day and before `to` (nor past the scan
    /// window) is a date of the date spec with a tick.
    pub open spec fn no_timed_day_before(&self, to: int) -> bool {
        forall|u: NaiveDateTime|
            self.resume_day() < u.day() < to && u.day() < window_end_day(self.resume_day())
                && #[trigger] date_matches(self.date_spec_of(), self.date_anchor(), u) ==> !day_has_time(
                self.time_spec_of(),
                u.day(),
            )
    }

    /// The cursor of the inner date iteration.
    pub closed spec fn date_cursor(&self) -> NaiveDateTime {
        self.date_iter.cursor()
    }

    /// A day has been taken from the inner date iteration.
    pub closed spec fn date_started(&self) -> bool {
        self.date_iter_started
    }

    /// Where the inner date iteration goes on from, once the current day is
    /// done.
    pub closed spec fn period_cursor(&self) -> Option<NaiveDateTime> {
        self.next_period_cursor
    }

    /// Midnight after the day last entered.
    pub closed spec fn day_end(&self) -> Option<NaiveDateTime> {
        self.current_date_end
    }

    /// No day has been entered yet, and `observed` is the day of the
    /// initial cursor: its first time is the tick after that cursor.
    pub closed spec fn on_initial_day(&self, observed: NaiveDateTime) -> bool {
        self.current_date_end is None && self.initial_dtm.day() == observed.day()
    }

    /// The cursor the iterator was made with.
    pub closed spec fn initial_cursor(&self) -> NaiveDateTime {
        self.initial_dtm
    }

    /// The end bound is reached: nothing more is returned.
    pub open spec fn at_end(&self) -> bool {
        self.end_of() matches Some(e) && self.cursor().stamp() >= e.stamp()
    }

    /// The next call returns the start itself.
    pub open spec fn at_start(&self) -> bool {
        &&& !self.at_end()
        &&& !self.started()
        &&& self.start_of() matches Some(s)
        &&& self.cursor().stamp() <= s.stamp()
    }

    /// What a successful call of `next` returns and leaves behind: `after`
    /// is the iterator after the call, `o` its outcome. Past the start, an
    /// outcome stays within the end bound and is either the next tick of
    /// the time spec within the same day, or the first time of a day that
    /// the date spec allows.
    pub open spec fn step_ok(&self, after: &Self, o: Option<NextResult<NaiveDateTime>>) -> bool {
        &&& after.time_spec_of() == self.time_spec_of()
        &&& after.date_spec_of() == self.date_spec_of()
        &&& after.date_anchor() == self.date_anchor()
        &&& after.initial_cursor() == self.initial_cursor()
        &&& after.end_of() == self.end_of()
        &&& after.start_of() == self.start_of()
        &&& self.at_end() ==> o is None
        &&& self.at_start() ==> o == Some(NextResult::Single(self.start_of()->0))
            && after.cursor() == self.start_of()->0
        &&& o matches Some(x) ==> after.cursor() == x.observed_of() && after.started()
        &&& !self.at_start() ==> (o matches Some(x) ==> (self.end_of() matches Some(e)
            ==> x.observed_of().stamp() <= e.stamp()))
        &&& !self.at_start() ==> (o matches Some(x) ==> ((x == NextResult::Single(x.observed_of())
            && x.observed_of().stamp() == time_step(self.time_spec_of(), self.cursor().stamp())
            && x.observed_of().stamp() > self.cursor().stamp()) || (date_matches(
            self.date_spec_of(),
            self.date_anchor(),
            x.actual_of(),
        ) && x.actual_of().sod() == x.observed_of().sod() && (x.observed_of().stamp()
            == time_step(self.time_spec_of(), self.initial_cursor().stamp())
            || x.observed_of().stamp() == day_first_time(
            self.time_spec_of(),
            x.observed_of().day(),
        )))))
    }

    /// What a call of `next` returns and leaves behind, success or not:
    /// `after` is the iterator after the call. It cannot fail at the end, at
    /// a start within the calendar, or on a tick within the current day.
    pub open spec fn next_ok(&self, after: &Self, r: Result<Option<NextResult<NaiveDateTime>>>) -> bool {
        match r {
            Ok(o) => self.step_ok(after, o),
            Err(_) => !self.at_end() && !(self.at_start() && self.start_of()->0.day() < MAX_DAY) && !(
            self.in_day_tick() && self.tick_within_day()),
        }
    }

    fn build(
        date_spec: &str,
        time_spec: &str,
        bdp: B,
        dtm: NaiveDateTime,
        start: Option<NaiveDateTime>,
        end: Option<NaiveDateTime>,
    ) -> (r: Result<Self>)
        ensures
            r matches Ok(it) ==> it.wf() && it.cursor() == dtm && it.initial_cursor() == dtm
                && it.start_of() == start && it.end_of() == end && !it.started() && Some(it.time_spec_of()) == crate::time::spec::parse_time_text(
                vstd::utf8::encode_utf8(time_spec@),
            ) && Some(it.date_spec_of().model()) == crate::date::spec::parse_date_text(
                vstd::utf8::encode_utf8(date_spec@),
            ) && it.date_anchor().stamp() == NaiveDateTime::stamp_of(dtm.day(), 0) - 1,
            crate::date::spec::parse_date_text(vstd::utf8::encode_utf8(date_spec@)) is None
                ==> r is Err,
            crate::time::spec::parse_time_text(vstd::utf8::encode_utf8(time_spec@)) is None
                ==> r is Err,
            r is Ok <==> dtm.day() > MIN_DAY && texts_ok(date_spec@, time_spec@),
            r matches Err(e) ==> (e is OutOfRange || e is InvalidDateSpec || e is InvalidTimeSpec),
    {
        dtm.bounds();
        let midnight = midnight_of(&dtm);
        assert(dtm.day() > MIN_DAY ==> midnight.stamp() >= 86400) by (nonlinear_arith)
            requires
                midnight.stamp() == (dtm.day() - MIN_DAY) * 86400,
        ;
        let before_today = match midnight.add_seconds(-1) {
            Some(t) => t,
            None => return Err(Error::OutOfRange),
        };
        let date_iter = DateIterator::new_after(date_spec, bdp, before_today)?;
        let ts = TimeSpec::parse(time_spec)?;
        if !ts.is_clock_valid() {
            return Err(Error::InvalidTimeSpec(crate::time::spec::failure_message(time_spec)));
        }
        Ok(NaiveSpecIterator {
            date_iter,
            time_spec: ts,
            current_date_end: None,
            date_iter_started: false,
            next_period_cursor: None,
            dtm,
            initial_dtm: dtm,
            start,
            end,
            started: false,
        })
    }

    /// Iterates the date-times strictly after `dtm`.
    pub fn new_after(date_spec: &str, time_spec: &str, bdp: B, dtm: NaiveDateTime) -> (r: Result<
        Self,
    >)
        ensures
            r matches Ok(it) ==> it.wf() && it.cursor() == dtm && it.initial_cursor() == dtm
                && it.start_of() is None && it.end_of() is None
                && !it.started() && Some(it.time_spec_of())
                == crate::time::spec::parse_time_text(vstd::utf8::encode_utf8(time_spec@))
                && Some(it.date_spec_of().model()) == crate::date::spec::parse_date_text(
                vstd::utf8::encode_utf8(date_spec@),
            ),
            crate::date::spec::parse_date_text(vstd::utf8::encode_utf8(date_spec@)) is None
                ==> r is Err,
            crate::time::spec::parse_time_text(vstd::utf8::encode_utf8(time_spec@)) is None
                ==> r is Err,
            r is Ok <==> dtm.day() > MIN_DAY && texts_ok(date_spec@, time_spec@),
            r matches Err(e) ==> (e is OutOfRange || e is InvalidDateSpec || e is InvalidTimeSpec),
    {
        Self::build(date_spec, time_spec, bdp, dtm, None, None)
    }

    /// Iterates from `start`, which is the first outcome.
    pub fn new_with_start(date_spec: &str, time_spec: &str, bdp: B, start: NaiveDateTime) -> (r:
        Result<Self>)
        ensures
            r matches Ok(it) ==> it.wf() && it.cursor() == start && it.initial_cursor() == start
                && it.start_of() == Some(start) && it.end_of() is None && !it.started() && Some(it.time_spec_of())
                == crate::time::spec::parse_time_text(vstd::utf8::encode_utf8(time_spec@))
                && Some(it.date_spec_of().model()) == crate::date::spec::parse_date_text(
                vstd::utf8::encode_utf8(date_spec@),
            ),
            crate::date::spec::parse_date_text(vstd::utf8::encode_utf8(date_spec@)) is None
                ==> r is Err,
            crate::time::spec::parse_time_text(vstd::utf8::encode_utf8(time_spec@)) is None
                ==> r is Err,
            r is Ok <==> start.day() > MIN_DAY && texts_ok(date_spec@, time_spec@),
            r matches Err(e) ==> (e is OutOfRange || e is InvalidDateSpec || e is InvalidTimeSpec),
    {
        Self::build(date_spec, time_spec, bdp, start, Some(start), None)
    }

    /// Iterates from `start` up to `end` (inclusive).
    pub fn new_with_end(
        date_spec: &str,
        time_spec: &str,
        bdp: B,
        start: NaiveDateTime,
        end: NaiveDateTime,
    ) -> (r: Result<Self>)
        ensures
            r matches Ok(it) ==> it.wf() && it.cursor() == start && it.initial_cursor() == start
                && it.start_of() == Some(start) && it.end_of() == Some(end) && !it.started() && Some(it.time_spec_of())
                == crate::time::spec::parse_time_text(vstd::utf8::encode_utf8(time_spec@))
                && Some(it.date_spec_of().model()) == crate::date::spec::parse_date_text(
                vstd::utf8::encode_utf8(date_spec@),
            ),
            crate::date::spec::parse_date_text(vstd::utf8::encode_utf8(date_spec@)) is None
                ==> r is Err,
            crate::time::spec::parse_time_text(vstd::utf8::encode_utf8(time_spec@)) is None
                ==> r is Err,
            r is Ok <==> start.stamp() < end.stamp() && start.day() > MIN_DAY && texts_ok(
                date_spec@,
                time_spec@,
            ),
            end.stamp() <= start.stamp() ==> (r matches Err(e) && e matches Error::Custom(m) && m@
                == "end date-time must be after the start date-time"@),
            r matches Err(e) ==> (e is OutOfRange || e is InvalidDateSpec || e is InvalidTimeSpec
                || e is Custom),
    {
        if !start.is_before(&end) {
            return Err(Error::Custom(String::from_str("end date-time must be after the start date-time")));
        }
        Self::build(date_spec, time_spec, bdp, start, Some(start), Some(end))
    }

    /// Iterates from `start` up to the end that the date-time spec
    /// `end_spec` gives: the first tick of its time part after `start`; its
    /// date part must be a date spec that can be iterated.
    pub fn new_with_end_spec(
        date_spec: &str,
        time_spec: &str,
        bdp: B,
        start: NaiveDateTime,
        end_spec: &str,
    ) -> (r: Result<Self>)
        ensures
            r is Ok <==> start.day() > MIN_DAY && texts_ok(date_spec@, time_spec@) && exists|i: int|
                #[trigger] crate::datetime::spec::first_separator_at(
                    vstd::utf8::encode_utf8(end_spec@),
                    i,
                ) && end_split_ok(vstd::utf8::encode_utf8(end_spec@), i, start),
            r matches Ok(it) ==> it.wf() && it.cursor() == start && it.initial_cursor() == start
                && it.start_of() == Some(start) && !it.started() && Some(it.time_spec_of())
                == crate::time::spec::parse_time_text(vstd::utf8::encode_utf8(time_spec@))
                && Some(it.date_spec_of().model()) == crate::date::spec::parse_date_text(
                vstd::utf8::encode_utf8(date_spec@),
            ),
            r matches Ok(it) ==> exists|i: int|
                #[trigger] crate::datetime::spec::first_separator_at(
                    vstd::utf8::encode_utf8(end_spec@),
                    i,
                ) && end_fixed(vstd::utf8::encode_utf8(end_spec@), i, start, it.end_of()),
            r matches Err(e) ==> (e is OutOfRange || e is InvalidDateSpec || e is InvalidTimeSpec
                || e is ParseError || e is Custom),
            (exists|i: int|
                #[trigger] crate::datetime::spec::first_separator_at(
                    vstd::utf8::encode_utf8(end_spec@),
                    i,
                ) && crate::time::iter::end_tick_none(
                    crate::time::spec::parse_time_text(
                        vstd::utf8::encode_utf8(end_spec@).subrange(
                            i + 1,
                            vstd::utf8::encode_utf8(end_spec@).len() as int,
                        ),
                    ),
                    start,
                )) ==> (r matches Err(e) && e matches Error::Custom(m) && m@
                == "End spec must result in a date-time after the start date-time"@),
    {
        let end_sp = crate::datetime::spec::Spec::parse(end_spec)?;
        let mut end_time_iter = crate::time::iter::NaiveSpecIterator::new_after(
            end_sp.time_spec.as_str(),
            start,
        )?;
        if !end_time_iter.is_clock_valid() {
            return Err(Error::InvalidTimeSpec(crate::time::spec::failure_message(end_sp.time_spec.as_str())));
        }
        let end = match end_time_iter.next()? {
            Some(t) => t,
            None => return Err(Error::Custom(String::from_str("End spec must result in a date-time after the start date-time"))),
        };
        let _end_dates = DateIterator::new_with_start(end_sp.date_spec.as_str(), bdp.clone(), end)?;
        Self::build(date_spec, time_spec, bdp, start, Some(start), Some(end))
    }

    /// Moves the date iterator past the day that was last entered.
    fn advance_date_iter(&mut self)
        requires
            old(self).wf(),
        ensures
            final(self).wf(),
            final(self).time_spec_of() == old(self).time_spec_of(),
            final(self).date_spec_of() == old(self).date_spec_of(),
            final(self).date_anchor() == old(self).date_anchor(),
            final(self).cursor() == old(self).cursor(),
            final(self).initial_cursor() == old(self).initial_cursor(),
            final(self).start_of() == old(self).start_of(),
            final(self).end_of() == old(self).end_of(),
            final(self).started() == old(self).started(),
            final(self).date_started() == old(self).date_started(),
            final(self).day_end() == old(self).day_end(),
            !old(self).date_started() ==> final(self).date_cursor() == old(self).date_cursor()
                && final(self).period_cursor() == old(self).period_cursor(),
            old(self).date_started() ==> final(self).period_cursor() is None,
            (old(self).date_started() && old(self).period_cursor() is Some) ==> final(self).date_cursor()
                == old(self).period_cursor()->0,
            (old(self).date_started() && old(self).period_cursor() is None && old(self).day_end() is Some
                && old(self).day_end()->0.stamp() >= 1) ==> final(self).date_cursor().stamp() == old(
                self,
            ).day_end()->0.stamp() - 1,
            (old(self).date_started() && old(self).period_cursor() is None && !(old(self).day_end() is Some
                && old(self).day_end()->0.stamp() >= 1)) ==> final(self).date_cursor() == old(
                self,
            ).date_cursor(),
    {
        if self.date_iter_started {
            let npc = self.next_period_cursor;
            self.next_period_cursor = None;
            match npc {
                Some(cursor) => {
                    self.date_iter.update_cursor(cursor);
                },
                None => {
                    if let Some(date_end) = self.current_date_end {
                        date_end.bounds();
                        if let Some(c) = date_end.add_seconds(-1) {
                            self.date_iter.update_cursor(c);
                        }
                    }
                },
            }
        }
    }

    /// The first time of a day that the date iterator returned.
    fn first_time_of_day(&self, observed: &NaiveDateTime) -> (r: Result<(NaiveDateTime, bool)>)
        requires
            self.wf(),
        ensures
            r matches Ok((t, valid)) ==> (valid ==> t.day() == observed.day()),
            r matches Ok((t, valid)) ==> t.stamp() == time_step(
                self.time_spec_of(),
                self.initial_cursor().stamp(),
            ) || t.stamp() == day_first_time(self.time_spec_of(), observed.day()),
            r is Ok <==> observed.day() < MAX_DAY && (if self.on_initial_day(*observed) {
                time_step_defined(self.time_spec_of(), self.initial_cursor().stamp())
            } else {
                day_first_defined(self.time_spec_of(), observed.day())
            }),
            r is Err ==> r == Err::<(NaiveDateTime, bool), Error>(Error::OutOfRange),
            r matches Ok((t, valid)) ==> if self.on_initial_day(*observed) {
                t.stamp() == time_step(self.time_spec_of(), self.initial_cursor().stamp()) && valid
                    == (self.initial_cursor().stamp() < t.stamp() < NaiveDateTime::stamp_of(
                    observed.day() + 1,
                    0,
                ))
            } else {
                t.stamp() == day_first_time(self.time_spec_of(), observed.day()) && valid == (
                NaiveDateTime::stamp_of(observed.day(), 0) <= t.stamp() < NaiveDateTime::stamp_of(
                    observed.day() + 1,
                    0,
                ))
            },
    {
        let date_midnight = midnight_of(observed);
        let date_end = midnight_next(observed)?;
        let is_initial_day = self.current_date_end.is_none() && self.initial_dtm.day_number()
            == observed.day_number();
        let first_time = if is_initial_day {
            tick(&self.time_spec, &self.initial_dtm)?
        } else {
            let delta = spec_delta(&self.time_spec);
            let back = match date_midnight.add_seconds(-delta) {
                Some(t) => t,
                None => return Err(Error::OutOfRange),
            };
            let candidate = tick(&self.time_spec, &back)?;
            if !candidate.is_before(&date_midnight) {
                candidate
            } else {
                tick(&self.time_spec, &date_midnight)?
            }
        };
        let valid = if is_initial_day {
            self.initial_dtm.is_before(&first_time) && first_time.is_before(&date_end)
        } else {
            !first_time.is_before(&date_midnight) && first_time.is_before(&date_end)
        };
        self.initial_dtm.bounds();
        proof {
            if valid {
                if is_initial_day {
                    calendar::lemma_stamp_parts(self.initial_dtm);
                }
                calendar::lemma_day_of_stamp(first_time, observed.day());
            }
        }
        Ok((first_time, valid))
    }

    /// The next date-time: the start first (when there is one), then the
    /// next tick of the time spec within the current day, else the first
    /// time of the next day that the date spec allows, carrying that day's
    /// business-day adjustment; `None` past the end.
    pub fn next(&mut self) -> (r: Result<Option<NextResult<NaiveDateTime>>>)
        requires
            old(self).wf(),
        ensures
            final(self).wf(),
            final(self).time_spec_of() == old(self).time_spec_of(),
            final(self).date_spec_of() == old(self).date_spec_of(),
            final(self).date_anchor() == old(self).date_anchor(),
            final(self).initial_cursor() == old(self).initial_cursor(),
            final(self).end_of() == old(self).end_of(),
            final(self).start_of() == old(self).start_of(),
            old(self).at_end() ==> r == Ok::<Option<NextResult<NaiveDateTime>>, Error>(None),
            old(self).at_start() && old(self).start_of()->0.day() < MAX_DAY ==> r == Ok::<
                Option<NextResult<NaiveDateTime>>,
                Error,
            >(Some(NextResult::Single(old(self).start_of()->0))),
            old(self).at_start() && old(self).start_of()->0.day() >= MAX_DAY ==> r == Err::<
                Option<NextResult<NaiveDateTime>>,
                Error,
            >(Error::OutOfRange),
            r matches Ok(o) ==> old(self).step_ok(final(self), o),
            old(self).next_ok(final(self), r),
            old(self).in_day_tick() && !time_step_defined(
                old(self).time_spec_of(),
                old(self).cursor().stamp(),
            ) ==> r == Err::<Option<NextResult<NaiveDateTime>>, Error>(Error::OutOfRange),
            old(self).rolls_over() ==> (r matches Ok(Some(x)) ==> x == NextResult::Single(
                x.observed_of(),
            ) && day_has_time(old(self).time_spec_of(), x.observed_of().day())
                && x.observed_of().stamp() == day_first_time(
                old(self).time_spec_of(),
                x.observed_of().day(),
            ) && x.observed_of().day() > old(self).resume_day() && date_matches(
                old(self).date_spec_of(),
                old(self).date_anchor(),
                x.observed_of(),
            ) && old(self).no_timed_day_before(x.observed_of().day())),
            old(self).rolls_over() ==> (r matches Ok(None) ==> old(self).no_timed_day_before(MAX_DAY + 1)
                || (old(self).end_of() matches Some(e) && forall|u: NaiveDateTime|
                old(self).resume_day() < u.day() < window_end_day(old(self).resume_day())
                    && #[trigger] date_matches(old(self).date_spec_of(), old(self).date_anchor(), u)
                    && day_has_time(old(self).time_spec_of(), u.day()) ==> e.stamp() < day_first_time(
                    old(self).time_spec_of(),
                    u.day(),
                ))),
            old(self).in_day_tick() && old(self).tick_within_day() ==> if old(self).end_of() matches Some(
                e,
            ) && e.stamp() < time_step(old(self).time_spec_of(), old(self).cursor().stamp()) {
                r == Ok::<Option<NextResult<NaiveDateTime>>, Error>(None)
            } else {
                r matches Ok(Some(x)) && x == NextResult::Single(x.observed_of())
                    && x.observed_of().stamp() == time_step(
                    old(self).time_spec_of(),
                    old(self).cursor().stamp(),
                )
            },
    {
        if let Some(end) = self.end {
            if !self.dtm.is_before(&end) {
                return Ok(None);
            }
        }
        if !self.started {
            if let Some(start) = self.start {
                if !start.is_before(&self.dtm) {
                    let next_midnight = midnight_next(&start)?;
                    self.dtm = start;
                    self.started = true;
                    self.current_date_end = Some(next_midnight);
                    self.date_iter_started = true;
                    self.next_period_cursor = Some(end_of_day(&start));
                    return Ok(Some(NextResult::Single(start)));
                }
            }
        }
        if let Some(date_end) = self.current_date_end {
            let candidate = tick(&self.time_spec, &self.dtm)?;
            if self.dtm.is_before(&candidate) && candidate.is_before(&date_end) {
                if let Some(end) = self.end {
                    if end.is_before(&candidate) {
                        return Ok(None);
                    }
                }
                self.dtm = candidate;
                self.started = true;
                return Ok(Some(NextResult::Single(candidate)));
            }
        }
        self.advance_date_iter();
        let ghost date_spec = self.date_iter.spec_of();
        let ghost anchor = self.date_iter.anchor();
        let mut rounds: u32 = 0;
        while rounds < MAX_DAY_ROUNDS
            invariant
                !old(self).at_end(),
                !old(self).at_start(),
                !(old(self).in_day_tick() && !time_step_defined(
                    old(self).time_spec_of(),
                    old(self).cursor().stamp(),
                )),
                !(old(self).in_day_tick() && old(self).tick_within_day()),
                self.date_iter.spec_of() == date_spec,
                self.date_iter.anchor() == anchor,
                date_spec == old(self).date_spec_of(),
                anchor == old(self).date_anchor(),
                self.time_spec == old(self).time_spec,
                self.initial_dtm == old(self).initial_dtm,
                self.end == old(self).end,
                self.start == old(self).start,
                clock_valid(self.time_spec),
                self.date_iter.start_of() is None,
                self.date_iter.end_of() is None,
                old(self).rolls_over() ==> {
                    &&& self.current_date_end is Some
                    &&& self.date_iter.cursor().day() >= old(self).resume_day()
                    &&& forall|u: NaiveDateTime|
                        old(self).resume_day() < u.day() <= self.date_iter.cursor().day() && u.day()
                            < window_end_day(old(self).resume_day()) && #[trigger] date_matches(
                            date_spec,
                            anchor,
                            u,
                        ) ==> !day_has_time(self.time_spec, u.day())
                },
            decreases MAX_DAY_ROUNDS - rounds,
        {
            rounds = rounds + 1;
            let next_date = match self.date_iter.next()? {
                Some(d) => d,
                None => return Ok(None),
            };
            self.date_iter_started = true;
            let observed = *next_date.observed();
            let actual = *next_date.actual();
            let date_end = midnight_next(&observed)?;
            let npc = end_of_day(&actual);
            let (first_time, valid) = self.first_time_of_day(&observed)?;
            if !valid {
                self.current_date_end = Some(date_end);
                self.date_iter.update_cursor(npc);
                continue ;
            }
            if let Some(end) = self.end {
                if end.is_before(&first_time) {
                    return Ok(None);
                }
            }
            self.current_date_end = Some(date_end);
            self.next_period_cursor = Some(npc);
            self.dtm = first_time;
            self.started = true;
            let result = match next_date {
                NextResult::Single(_) => {
                    proof {
                        lemma_same_day_matches(date_spec, anchor, actual, first_time);
                    }
                    NextResult::Single(first_time)
                },
                NextResult::AdjustedEarlier(a, _) => {
                    let x = combine(&a, &first_time);
                    proof {
                        lemma_same_day_matches(date_spec, anchor, actual, x);
                    }
                    NextResult::AdjustedEarlier(x, first_time)
                },
                NextResult::AdjustedLater(a, _) => {
                    let x = combine(&a, &first_time);
                    proof {
                        lemma_same_day_matches(date_spec, anchor, actual, x);
                    }
                    NextResult::AdjustedLater(x, first_time)
                },
            };
            return Ok(Some(result));
        }
        Err(Error::IteratorNotConverged)
    }
}

} // verus!
