//! Time recurrence iterators: every tick applies the time spec to the
//! previous occurrence.

use vstd::prelude::*;

use crate::calendar::{self, NaiveDateTime, MAX_TICKS};
use crate::error::{Error, Result};
use crate::time::spec::{self, Cycle, Spec};

verus! {

/// Some component advances by `Every`.
pub open spec fn has_every(sp: Spec) -> bool {
    sp.seconds is Every || sp.minutes is Every || sp.hours is Every
}

/// Stamp after the seconds component of one tick.
pub open spec fn second_stage(sp: Spec, t: int) -> int {
    match sp.seconds {
        Cycle::At(x) => t - t % 60 + x,
        Cycle::Every(x) => t + x,
        Cycle::ForEach => if !has_every(sp) { t + 1 } else { t },
        Cycle::AsIs => t,
    }
}

/// Stamp after the minutes component of one tick.
pub open spec fn minute_stage(sp: Spec, t: int) -> int {
    match sp.minutes {
        Cycle::At(x) => t - (t % 3600) / 60 * 60 + x * 60,
        Cycle::Every(x) => t + x * 60,
        Cycle::ForEach => if !has_every(sp) && !(sp.seconds is ForEach) { t + 60 } else { t },
        Cycle::AsIs => t,
    }
}

/// Stamp after the hours component of one tick.
pub open spec fn hour_stage(sp: Spec, t: int) -> int {
    match sp.hours {
        Cycle::At(x) => t - (t % 86400) / 3600 * 3600 + x * 3600,
        Cycle::Every(x) => t + x * 3600,
        Cycle::ForEach => if !has_every(sp) && !(sp.seconds is ForEach) && !(
        sp.minutes is ForEach) {
            t + 3600
        } else {
            t
        },
        Cycle::AsIs => t,
    }
}

/// Stamp of the date-time one tick of the spec after stamp `t`: seconds,
/// then minutes, then hours; `At` pins, `Every` adds, the finest `ForEach`
/// adds one unit when nothing adds by `Every`, `_` keeps.
pub open spec fn time_step(sp: Spec, t: int) -> int {
    hour_stage(sp, minute_stage(sp, second_stage(sp, t)))
}

pub open spec fn in_calendar(t: int) -> bool {
    0 <= t <= MAX_TICKS
}

/// Every stage of the tick stays in the calendar.
pub open spec fn time_step_defined(sp: Spec, t: int) -> bool {
    &&& in_calendar(second_stage(sp, t))
    &&& in_calendar(minute_stage(sp, second_stage(sp, t)))
    &&& in_calendar(time_step(sp, t))
}

fn add_or_none(t: &NaiveDateTime, secs: i64) -> (r: Option<NaiveDateTime>)
    ensures
        r is Some <==> in_calendar(t.stamp() + secs),
        r matches Some(u) ==> u.stamp() == t.stamp() + secs,
{
    t.add_seconds(secs)
}

/// The date-time one tick of `sp` after `cursor`; `None` when the tick
/// leaves the calendar.
pub fn apply_time_spec(sp: &Spec, cursor: &NaiveDateTime) -> (r: Option<NaiveDateTime>)
    requires
        spec::clock_valid(*sp),
    ensures
        r is Some <==> time_step_defined(*sp, cursor.stamp()),
        r matches Some(t) ==> t.stamp() == time_step(*sp, cursor.stamp()),
{
    let has_any_every = matches!(sp.seconds, Cycle::Every(_)) || matches!(sp.minutes, Cycle::Every(_))
        || matches!(sp.hours, Cycle::Every(_));
    let seconds_is_foreach = matches!(sp.seconds, Cycle::ForEach);
    let minutes_is_foreach = matches!(sp.minutes, Cycle::ForEach);
    cursor.bounds();
    let t1 = match sp.seconds {
        Cycle::At(s) => cursor.set_second(s as u32),
        Cycle::Every(s) => match add_or_none(cursor, s as i64) {
            Some(t) => t,
            None => return None,
        },
        Cycle::ForEach => if !has_any_every {
            match add_or_none(cursor, 1) {
                Some(t) => t,
                None => return None,
            }
        } else {
            *cursor
        },
        Cycle::AsIs => *cursor,
    };
    t1.bounds();
    let t2 = match sp.minutes {
        Cycle::At(m) => t1.set_minute(m as u32),
        Cycle::Every(m) => match add_or_none(&t1, m as i64 * 60) {
            Some(t) => t,
            None => return None,
        },
        Cycle::ForEach => if !has_any_every && !seconds_is_foreach {
            match add_or_none(&t1, 60) {
                Some(t) => t,
                None => return None,
            }
        } else {
            t1
        },
        Cycle::AsIs => t1,
    };
    t2.bounds();
    let t3 = match sp.hours {
        Cycle::At(h) => t2.set_hour(h as u32),
        Cycle::Every(h) => match add_or_none(&t2, h as i64 * 3600) {
            Some(t) => t,
            None => return None,
        },
        Cycle::ForEach => if !has_any_every && !seconds_is_foreach && !minutes_is_foreach {
            match add_or_none(&t2, 3600) {
                Some(t) => t,
                None => return None,
            }
        } else {
            t2
        },
        Cycle::AsIs => t2,
    };
    t3.bounds();
    Some(t3)
}

/// The end spec parses and names times of day, and its first tick after
/// `start` lies later within the calendar.
pub open spec fn end_tick_ok(end: Option<Spec>, start: NaiveDateTime) -> bool {
    end matches Some(e) && spec::clock_valid(e) && time_step_defined(e, start.stamp()) && time_step(e, start.stamp())
        > start.stamp()
}

/// The end spec parses and names times of day, and its tick after `start`
/// does not move forward.
pub open spec fn end_tick_none(end: Option<Spec>, start: NaiveDateTime) -> bool {
    end matches Some(e) && spec::clock_valid(e) && time_step_defined(e, start.stamp()) && time_step(e, start.stamp())
        <= start.stamp()
}

/// Non-timezone-aware time recurrence iterator.
#[derive(Debug, Clone)]
pub struct NaiveSpecIterator {
    spec: Spec,
    end: Option<NaiveDateTime>,
    dtm: NaiveDateTime,
    start: Option<NaiveDateTime>,
    index: usize,
}

impl NaiveSpecIterator {
    pub closed spec fn spec_of(&self) -> Spec {
        self.spec
    }

    pub closed spec fn end_of(&self) -> Option<NaiveDateTime> {
        self.end
    }

    pub closed spec fn start_of(&self) -> Option<NaiveDateTime> {
        self.start
    }

    /// The last occurrence returned, or the initial cursor.
    pub closed spec fn cursor(&self) -> NaiveDateTime {
        self.dtm
    }

    /// Some occurrence was returned already.
    pub closed spec fn started(&self) -> bool {
        self.index > 0
    }

    /// The end bound is reached: nothing more is returned.
    pub open spec fn at_end(&self) -> bool {
        self.end_of() matches Some(e) && self.cursor().stamp() >= e.stamp()
    }

    /// The next call returns the start itself.
    pub open spec fn at_start(&self) -> bool {
        &&& !self.at_end()
        &&& !self.started()
        &&& self.start_of() matches Some(s)
        &&& self.cursor().stamp() <= s.stamp()
    }

    /// What a successful call of `next` returns and leaves behind: `after`
    /// is the iterator after the call, `o` its outcome.
    pub open spec fn step_ok(&self, after: &Self, o: Option<NaiveDateTime>) -> bool {
        let c = self.cursor().stamp();
        let n = time_step(self.spec_of(), c);
        &&& after.spec_of() == self.spec_of()
        &&& after.end_of() == self.end_of()
        &&& after.start_of() == self.start_of()
        &&& self.at_end() ==> o is None && after.cursor() == self.cursor()
        &&& self.at_start() ==> o == self.start_of() && after.cursor() == self.start_of()->0
            && after.started()
        &&& !self.at_end() && !self.at_start() ==> {
            &&& time_step_defined(self.spec_of(), c)
            &&& n <= c ==> o is None && after.cursor() == self.cursor()
            &&& n > c && (self.end_of() matches Some(e) && n > e.stamp()) ==> o == self.end_of()
                && after.cursor() == self.end_of()->0 && after.started()
            &&& n > c && !(self.end_of() matches Some(e) && n > e.stamp()) ==> (o matches Some(t)
                && t.stamp() == n && after.cursor() == t && after.started())
        }
    }

    /// What a call of `next` returns and leaves behind, success or not:
    /// `after` is the iterator after the call. It fails exactly when the tick
    /// leaves the calendar.
    pub open spec fn next_ok(&self, after: &Self, r: Result<Option<NaiveDateTime>>) -> bool {
        match r {
            Ok(o) => self.step_ok(after, o),
            Err(e) => {
                &&& !self.at_end() && !self.at_start()
                &&& !time_step_defined(self.spec_of(), self.cursor().stamp())
                &&& e == Error::OutOfRange
                &&& after.spec_of() == self.spec_of()
                &&& after.end_of() == self.end_of()
                &&& after.start_of() == self.start_of()
                &&& after.cursor() == self.cursor()
            },
        }
    }

    /// `states` runs from `first` through successive calls of `next`, call
    /// `i` returning `outs[i]`.
    pub open spec fn run_ok(first: Self, states: Seq<Self>, outs: Seq<NaiveDateTime>) -> bool {
        &&& states.len() == outs.len() + 1
        &&& states[0] == first
        &&& forall|i: int|
            0 <= i < outs.len() ==> #[trigger] states[i].next_ok(&states[i + 1], Ok(Some(outs[i])))
    }

    /// `take(n)` from `first` returned `r` and left `last`: as many calls
    /// of `next` as give an occurrence, up to `n`, then the call that
    /// returned `None` or failed.
    pub open spec fn take_ok(first: Self, last: Self, n: nat, r: Result<Seq<NaiveDateTime>>) -> bool {
        exists|states: Seq<Self>, outs: Seq<NaiveDateTime>|
            #[trigger] Self::run_ok(first, states, outs) && match r {
                Ok(v) => v == outs && v.len() <= n && (v.len() == n ==> last == states.last()) && (
                v.len() < n ==> states.last().next_ok(&last, Ok(None))),
                Err(e) => outs.len() < n && states.last().next_ok(&last, Err(e)),
            }
    }

    /// Iterates the occurrences strictly after `dtm`.
    pub fn new_after(spec: &str, dtm: NaiveDateTime) -> (r: Result<NaiveSpecIterator>)
        ensures
            r is Err <==> spec::parse_time_text(vstd::utf8::encode_utf8(spec@)) is None,
            r matches Err(e) ==> e matches Error::InvalidTimeSpec(_),
            r matches Ok(it) ==> Some(it.spec_of()) == spec::parse_time_text(
                vstd::utf8::encode_utf8(spec@),
            ) && it.cursor() == dtm && it.start_of() is None && it.end_of() is None
                && !it.started(),
    {
        let sp = Spec::parse(spec)?;
        Ok(NaiveSpecIterator { spec: sp, end: None, dtm, start: None, index: 0 })
    }

    /// Iterates from `start`, which is the first occurrence.
    pub fn new_with_start(spec: &str, start: NaiveDateTime) -> (r: Result<NaiveSpecIterator>)
        ensures
            r is Err <==> spec::parse_time_text(vstd::utf8::encode_utf8(spec@)) is None,
            r matches Err(e) ==> e matches Error::InvalidTimeSpec(_),
            r matches Ok(it) ==> Some(it.spec_of()) == spec::parse_time_text(
                vstd::utf8::encode_utf8(spec@),
            ) && it.cursor() == start && it.start_of() == Some(start) && it.end_of() is None
                && !it.started(),
    {
        let sp = Spec::parse(spec)?;
        Ok(NaiveSpecIterator { spec: sp, end: None, dtm: start, start: Some(start), index: 0 })
    }

    /// Iterates from `start` up to `end`, which closes the series.
    pub fn new_with_end(spec: &str, start: NaiveDateTime, end: NaiveDateTime) -> (r: Result<
        NaiveSpecIterator,
    >)
        ensures
            r is Err <==> spec::parse_time_text(vstd::utf8::encode_utf8(spec@)) is None,
            r matches Err(e) ==> e matches Error::InvalidTimeSpec(_),
            r matches Ok(it) ==> Some(it.spec_of()) == spec::parse_time_text(
                vstd::utf8::encode_utf8(spec@),
            ) && it.cursor() == start && it.start_of() == Some(start) && it.end_of() == Some(end)
                && !it.started(),
    {
        let sp = Spec::parse(spec)?;
        Ok(NaiveSpecIterator { spec: sp, end: Some(end), dtm: start, start: Some(start), index: 0 })
    }

    /// Iterates from `start` up to the first occurrence of `end_spec` after
    /// `start`.
    pub fn new_with_end_spec(spec: &str, start: NaiveDateTime, end_spec: &str) -> (r: Result<
        NaiveSpecIterator,
    >)
        ensures
            r matches Ok(it) ==> Some(it.spec_of()) == spec::parse_time_text(
                vstd::utf8::encode_utf8(spec@),
            ) && it.cursor() == start && it.start_of() == Some(start) && !it.started(),
            r matches Ok(it) ==> (spec::parse_time_text(vstd::utf8::encode_utf8(end_spec@)) matches Some(
                e,
            ) && it.end_of() matches Some(end) && end.stamp() == time_step(e, start.stamp())),
            spec::parse_time_text(vstd::utf8::encode_utf8(spec@)) is None ==> r is Err,
            spec::parse_time_text(vstd::utf8::encode_utf8(end_spec@)) is None ==> r is Err,
            spec::parse_time_text(vstd::utf8::encode_utf8(end_spec@)) matches Some(e)
                && !spec::clock_valid(e) ==> r is Err,
            r is Ok <==> spec::parse_time_text(vstd::utf8::encode_utf8(spec@)) is Some
                && end_tick_ok(spec::parse_time_text(vstd::utf8::encode_utf8(end_spec@)), start),
            r matches Err(e) ==> (e is InvalidTimeSpec || e is InvalidEndSpec || e is OutOfRange),
            spec::parse_time_text(vstd::utf8::encode_utf8(spec@)) is Some && end_tick_none(
                spec::parse_time_text(vstd::utf8::encode_utf8(end_spec@)),
                start,
            ) ==> r == Err::<NaiveSpecIterator, Error>(Error::InvalidEndSpec),
    {
        let sp = Spec::parse(spec)?;
        let mut end_iter = Self::new_after(end_spec, start)?;
        if !end_iter.is_clock_valid() {
            return Err(Error::InvalidTimeSpec(spec::failure_message(end_spec)));
        }
        let end = match end_iter.next()? {
            Some(e) => e,
            None => return Err(Error::InvalidEndSpec),
        };
        Ok(NaiveSpecIterator { spec: sp, end: Some(end), dtm: start, start: Some(start), index: 0 })
    }

    /// Whether the spec names times of day.
    pub fn is_clock_valid(&self) -> (r: bool)
        ensures
            r == spec::clock_valid(self.spec_of()),
    {
        self.spec.is_clock_valid()
    }

    /// Moves the cursor: later occurrences follow `dtm`.
    pub fn update_cursor(&mut self, dtm: NaiveDateTime)
        ensures
            final(self).cursor() == dtm,
            final(self).spec_of() == old(self).spec_of(),
            final(self).end_of() == old(self).end_of(),
            final(self).start_of() == old(self).start_of(),
            final(self).started() == old(self).started(),
    {
        self.dtm = dtm;
    }

    /// The next occurrence: the start first (when there is one), then one
    /// tick of the spec after the previous occurrence; the end bound itself
    /// when a tick passes it; `None` at the end or when a tick does not move
    /// forward.
    pub fn next(&mut self) -> (r: Result<Option<NaiveDateTime>>)
        requires
            spec::clock_valid(old(self).spec_of()),
        ensures
            final(self).spec_of() == old(self).spec_of(),
            final(self).end_of() == old(self).end_of(),
            final(self).start_of() == old(self).start_of(),
            old(self).at_end() ==> r == Ok::<Option<NaiveDateTime>, Error>(None) && final(self).cursor()
                == old(self).cursor(),
            old(self).at_start() ==> r == Ok::<Option<NaiveDateTime>, Error>(old(self).start_of())
                && final(self).cursor() == old(self).start_of()->0 && final(self).started(),
            !old(self).at_end() && !old(self).at_start() ==> ({
                let c = old(self).cursor().stamp();
                let n = time_step(old(self).spec_of(), c);
                &&& !time_step_defined(old(self).spec_of(), c) ==> r == Err::<
                    Option<NaiveDateTime>,
                    Error,
                >(Error::OutOfRange) && final(self).cursor() == old(self).cursor()
                &&& time_step_defined(old(self).spec_of(), c) && n <= c ==> r == Ok::<
                    Option<NaiveDateTime>,
                    Error,
                >(None) && final(self).cursor() == old(self).cursor()
                &&& time_step_defined(old(self).spec_of(), c) && n > c && (old(
                    self,
                ).end_of() matches Some(e) && n > e.stamp()) ==> r == Ok::<
                    Option<NaiveDateTime>,
                    Error,
                >(old(self).end_of()) && final(self).cursor() == old(self).end_of()->0
                    && final(self).started()
                &&& time_step_defined(old(self).spec_of(), c) && n > c && !(old(
                    self,
                ).end_of() matches Some(e) && n > e.stamp()) ==> (r matches Ok(Some(t))
                    && t.stamp() == n && final(self).cursor() == t && final(self).started())
            }),
            r matches Ok(Some(t)) ==> t.stamp() >= old(self).cursor().stamp(),
            r matches Ok(Some(t)) ==> (old(self).started() ==> t.stamp() > old(
                self,
            ).cursor().stamp()),
            r matches Ok(Some(t)) ==> final(self).cursor() == t && final(self).started(),
            r matches Ok(o) ==> old(self).step_ok(final(self), o),
            old(self).next_ok(final(self), r),
    {
        if let Some(end) = self.end {
            if !self.dtm.is_before(&end) {
                return Ok(None);
            }
        }
        if self.index == 0 {
            if let Some(start) = self.start {
                if !start.is_before(&self.dtm) {
                    self.dtm = start;
                    self.index = 1;
                    return Ok(Some(start));
                }
            }
        }
        let next = match apply_time_spec(&self.spec, &self.dtm) {
            Some(t) => t,
            None => return Err(Error::OutOfRange),
        };
        if !self.dtm.is_before(&next) {
            return Ok(None);
        }
        if let Some(end) = self.end {
            if end.is_before(&next) {
                self.dtm = end;
                self.index = if self.index < usize::MAX { self.index + 1 } else { self.index };
                return Ok(Some(end));
            }
        }
        self.dtm = next;
        self.index = if self.index < usize::MAX { self.index + 1 } else { self.index };
        Ok(Some(next))
    }

    /// Up to `n` next occurrences, in order; they strictly increase. The
    /// calls of `next` stop at the first `None` or error, which is returned.
    pub fn take(&mut self, n: usize) -> (r: Result<Vec<NaiveDateTime>>)
        requires
            spec::clock_valid(old(self).spec_of()),
        ensures
            final(self).spec_of() == old(self).spec_of(),
            r matches Ok(v) ==> v.len() <= n,
            r matches Ok(v) ==> forall|i: int, j: int|
                0 <= i < j < v.len() ==> #[trigger] v[i].stamp() < #[trigger] v[j].stamp(),
            r matches Ok(v) ==> forall|i: int|
                0 <= i < v.len() ==> #[trigger] v[i].stamp() >= old(self).cursor().stamp(),
            Self::take_ok(
                *old(self),
                *final(self),
                n as nat,
                match r {
                    Ok(v) => Ok(v@),
                    Err(e) => Err(e),
                },
            ),
    {
        let mut out: Vec<NaiveDateTime> = Vec::new();
        let ghost c0 = self.cursor();
        let ghost first = *self;
        let ghost mut states: Seq<NaiveSpecIterator> = seq![first];
        while out.len() < n
            invariant
                self.spec_of() == old(self).spec_of(),
                spec::clock_valid(self.spec_of()),
                out.len() <= n,
                c0 == old(self).cursor(),
                first == *old(self),
                forall|i: int, j: int|
                    0 <= i < j < out.len() ==> #[trigger] out[i].stamp() < #[trigger] out[j].stamp(),
                forall|i: int| 0 <= i < out.len() ==> #[trigger] out[i].stamp() >= c0.stamp(),
                out.len() > 0 ==> self.cursor() == out[out.len() - 1] && self.started(),
                out.len() == 0 ==> self.cursor() == c0,
                Self::run_ok(first, states, out@),
                states.last() == *self,
            decreases n - out.len(),
        {
            let ghost before = *self;
            let r = self.next();
            match r {
                Ok(Some(t)) => {
                    proof {
                        let s0 = states;
                        states = states.push(*self);
                        assert(forall|i: int| 0 <= i < s0.len() ==> states[i] == s0[i]);
                    }
                    out.push(t);
                },
                Ok(None) => {
                    assert(Self::run_ok(first, states, out@));
                    return Ok(out);
                },
                Err(e) => {
                    assert(Self::run_ok(first, states, out@));
                    return Err(e);
                },
            }
        }
        assert(Self::run_ok(first, states, out@));
        Ok(out)
    }
}


} // verus!
