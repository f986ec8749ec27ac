//! The zoned date-time iterator and its builder.

use vstd::prelude::*;

use crate::biz_day::BizDayProcessor;
use crate::builder::{
    now_in_zone, EndDateTime, EndSpec, NoEnd, NoStart, NotSealed, Sealed, StartDateTime,
};
use crate::calendar::{NaiveDateTime, MIN_DAY};
use crate::date::iter::date_text_iterable;
use crate::datetime::iter::{end_fixed, end_split_ok, time_text_clock_valid, NaiveSpecIterator};
use crate::datetime::spec::Spec;
use crate::error::{Error, Result};
use crate::next_result::{DstPolicy, NextResult};
use crate::zone::{next_result_to_zone, resolves, zoned_outcome_ok, zoned_outcomes_ok, ZonedDateTime};

use crate::date::spec::parse_date_text;
use crate::datetime::spec::{first_separator_at, no_separator_before};
use crate::time::spec::parse_time_text;

verus! {

/// Date-time iterator in a time zone: each outcome of the local iteration
/// is mapped to the zone under the daylight-saving policy.
pub struct SpecIterator<B: BizDayProcessor> {
    zone: String,
    dst_policy: DstPolicy,
    naive_spec_iter: NaiveSpecIterator<B>,
}

impl<B: BizDayProcessor> SpecIterator<B> {
    pub closed spec fn zone_of(&self) -> Seq<char> {
        self.zone@
    }

    pub closed spec fn policy_of(&self) -> DstPolicy {
        self.dst_policy
    }

    /// The local iteration.
    pub closed spec fn naive_of(&self) -> NaiveSpecIterator<B> {
        self.naive_spec_iter
    }

    pub open spec fn wf(&self) -> bool {
        self.naive_of().wf()
    }

    /// What a call of `next` returns and leaves behind, success or not:
    /// `after` is the iterator after the call. It fails only where the local
    /// step fails, or where the local step succeeds with an outcome whose
    /// dates do not map to the zone under the policy.
    pub open spec fn next_ok(&self, after: &Self, r: Result<Option<NextResult<ZonedDateTime>>>) -> bool {
        &&& after.zone_of() == self.zone_of()
        &&& after.policy_of() == self.policy_of()
        &&& match r {
            Ok(None) => self.naive_of().step_ok(&after.naive_of(), None),
            Ok(Some(z)) => exists|x: NextResult<NaiveDateTime>|
                #[trigger] self.naive_of().step_ok(&after.naive_of(), Some(x))
                    && zoned_outcome_ok(self.zone_of(), x, self.policy_of(), z),
            Err(e) => self.naive_of().next_ok(&after.naive_of(), Err(e)) || exists|
                x: NextResult<NaiveDateTime>,
            |
                #[trigger] self.naive_of().step_ok(&after.naive_of(), Some(x)) && !(resolves(
                    self.zone_of(),
                    x.actual_of(),
                    self.policy_of(),
                ) && resolves(self.zone_of(), x.observed_of(), self.policy_of())),
        }
    }

    /// `states` runs from `first` through successive calls of `next`, call
    /// `i` returning `outs[i]`.
    pub open spec fn calls_ok(first: Self, states: Seq<Self>, outs: Seq<NextResult<ZonedDateTime>>) -> bool {
        &&& states.len() == outs.len() + 1
        &&& states[0] == first
        &&& forall|i: int|
            0 <= i < outs.len() ==> #[trigger] states[i].next_ok(&states[i + 1], Ok(Some(outs[i])))
    }

    /// `take(n)` from `first` returned `r` and left `last`: as many calls
    /// of `next` as give an outcome, up to `n`, then the call that returned
    /// `None` or failed.
    pub open spec fn take_ok(first: Self, last: Self, n: nat, r: Result<Seq<NextResult<ZonedDateTime>>>) -> bool {
        exists|states: Seq<Self>, outs: Seq<NextResult<ZonedDateTime>>|
            #[trigger] Self::calls_ok(first, states, outs) && match r {
                Ok(v) => v == outs && v.len() <= n && (v.len() == n ==> last == states.last()) && (
                v.len() < n ==> states.last().next_ok(&last, Ok(None))),
                Err(e) => outs.len() < n && states.last().next_ok(&last, Err(e)),
            }
    }

    /// The next outcome, in the zone: its observed date-time is the zoned
    /// form of the local iteration's new cursor.
    pub fn next(&mut self) -> (r: Result<Option<NextResult<ZonedDateTime>>>)
        requires
            old(self).wf(),
        ensures
            final(self).wf(),
            final(self).zone_of() == old(self).zone_of(),
            final(self).policy_of() == old(self).policy_of(),
            final(self).naive_of().time_spec_of() == old(self).naive_of().time_spec_of(),
            final(self).naive_of().date_spec_of() == old(self).naive_of().date_spec_of(),
            old(self).naive_of().at_end() ==> r == Ok::<Option<NextResult<ZonedDateTime>>, Error>(None),
            r matches Ok(None) ==> old(self).naive_of().step_ok(&final(self).naive_of(), None),
            r matches Ok(Some(z)) ==> exists|x: NextResult<NaiveDateTime>|
                #[trigger] old(self).naive_of().step_ok(&final(self).naive_of(), Some(x))
                    && zoned_outcome_ok(final(self).zone_of(), x, final(self).policy_of(), z),
            old(self).next_ok(final(self), r),
    {
        let next = match self.naive_spec_iter.next()? {
            Some(n) => n,
            None => return Ok(None),
        };
        let z = next_result_to_zone(self.zone.as_str(), next, self.dst_policy)?;
        assert(old(self).naive_of().step_ok(&self.naive_of(), Some(next)));
        Ok(Some(z))
    }

    /// Up to `n` next outcomes, in order: the zoned forms of the outcomes
    /// of successive steps of the local iteration.
    pub fn take(&mut self, n: usize) -> (r: Result<Vec<NextResult<ZonedDateTime>>>)
        requires
            old(self).wf(),
        ensures
            final(self).wf(),
            final(self).zone_of() == old(self).zone_of(),
            final(self).policy_of() == old(self).policy_of(),
            r matches Ok(v) ==> v.len() <= n,
            r matches Ok(v) ==> zoned_run(
                old(self).naive_of(),
                old(self).zone_of(),
                old(self).policy_of(),
                v@,
            ),
            Self::take_ok(
                *old(self),
                *final(self),
                n as nat,
                match r {
                    Ok(v) => Ok(v@),
                    Err(e) => Err(e),
                },
            ),
    {
        let mut out: Vec<NextResult<ZonedDateTime>> = Vec::new();
        let ghost first = self.naive_of();
        let ghost mut states: Seq<NaiveSpecIterator<B>> = seq![first];
        let ghost mut locals: Seq<NextResult<NaiveDateTime>> = Seq::empty();
        let ghost zfirst = *self;
        let ghost mut zstates: Seq<Self> = seq![zfirst];
        while out.len() < n
            invariant
                zfirst == *old(self),
                Self::calls_ok(zfirst, zstates, out@),
                zstates.last() == *self,
                self.wf(),
                self.zone_of() == old(self).zone_of(),
                self.policy_of() == old(self).policy_of(),
                first == old(self).naive_of(),
                out.len() <= n,
                run_ok(first, self.zone_of(), self.policy_of(), states, locals, out@),
                states.last() == self.naive_of(),
            decreases n - out.len(),
        {
            let ghost before = self.naive_of();
            let zr = self.next();
            match zr {
                Err(e) => {
                    assert(Self::calls_ok(zfirst, zstates, out@));
                    return Err(e);
                },
                Ok(None) => {
                    assert(Self::calls_ok(zfirst, zstates, out@));
                    assert(run_ok(first, self.zone_of(), self.policy_of(), states, locals, out@));
                    return Ok(out);
                },
                Ok(Some(x)) => {
                    proof {
                        let y = choose|y: NextResult<NaiveDateTime>|
                            #[trigger] before.step_ok(&self.naive_of(), Some(y))
                                && zoned_outcome_ok(self.zone_of(), y, self.policy_of(), x);
                        let ghost s0 = states;
                        states = states.push(self.naive_of());
                        locals = locals.push(y);
                        assert(forall|i: int| 0 <= i < s0.len() ==> states[i] == s0[i]);
                        let z0 = zstates;
                        zstates = zstates.push(*self);
                        assert(forall|i: int| 0 <= i < z0.len() ==> zstates[i] == z0[i]);
                    }
                    out.push(x);
                },
            }
        }
        assert(run_ok(first, self.zone_of(), self.policy_of(), states, locals, out@));
        Ok(out)
    }
}

/// `states` runs from `first` through successive steps of the local
/// iteration, step `i` giving `locals[i]`, and `v` is `locals` moved into
/// the zone.
pub open spec fn run_ok<B: BizDayProcessor>(
    first: NaiveSpecIterator<B>,
    zone: Seq<char>,
    policy: DstPolicy,
    states: Seq<NaiveSpecIterator<B>>,
    locals: Seq<NextResult<NaiveDateTime>>,
    v: Seq<NextResult<ZonedDateTime>>,
) -> bool {
    &&& states.len() == locals.len() + 1
    &&& states[0] == first
    &&& forall|i: int|
        0 <= i < locals.len() ==> #[trigger] states[i].step_ok(&states[i + 1], Some(locals[i]))
    &&& zoned_outcomes_ok(zone, policy, locals, v)
}

/// `v` is the zoned form of the outcomes of successive steps of the local
/// iteration from `first`.
pub open spec fn zoned_run<B: BizDayProcessor>(
    first: NaiveSpecIterator<B>,
    zone: Seq<char>,
    policy: DstPolicy,
    v: Seq<NextResult<ZonedDateTime>>,
) -> bool {
    exists|states: Seq<NaiveSpecIterator<B>>, locals: Seq<NextResult<NaiveDateTime>>|
        #[trigger] run_ok(first, zone, policy, states, locals, v)
}

/// The part before position `i` of `b` is a date spec that can be
/// iterated, the part after it a time spec that names times of day.
pub open spec fn split_ok(b: Seq<u8>, i: int) -> bool {
    date_text_iterable(b.subrange(0, i)) && time_text_clock_valid(b.subrange(i + 1, b.len() as int))
}

/// Builder of a [`SpecIterator`]: the start and the end are fixed by the
/// type of the builder.
pub struct SpecIteratorBuilder<B: BizDayProcessor, START, END, S> {
    dtm: NaiveDateTime,
    zone: String,
    start: START,
    spec: String,
    bd_processor: B,
    end: END,
    dst_policy: DstPolicy,
    sealed: S,
}

impl<B: BizDayProcessor, START, END, S> SpecIteratorBuilder<B, START, END, S> {
    pub closed spec fn cursor(&self) -> NaiveDateTime {
        self.dtm
    }

    pub closed spec fn zone_of(&self) -> Seq<char> {
        self.zone@
    }

    pub closed spec fn spec_text(&self) -> Seq<char> {
        self.spec@
    }

    /// The spec as UTF-8 bytes.
    pub open spec fn spec_bytes(&self) -> Seq<u8> {
        vstd::utf8::encode_utf8(self.spec_text())
    }

    pub closed spec fn policy_of(&self) -> DstPolicy {
        self.dst_policy
    }

    /// The same builder under another daylight-saving policy.
    pub fn with_dst_policy(self, policy: DstPolicy) -> (r: Self)
        ensures
            r.policy_of() == policy,
            r.cursor() == self.cursor(),
            r.zone_of() == self.zone_of(),
            r.spec_text() == self.spec_text(),
    {
        SpecIteratorBuilder { dst_policy: policy, ..self }
    }
}

impl<B: BizDayProcessor, END, S> SpecIteratorBuilder<B, StartDateTime, END, S> {
    pub closed spec fn start_time(&self) -> NaiveDateTime {
        self.start.0
    }
}

impl<B: BizDayProcessor, S> SpecIteratorBuilder<B, StartDateTime, EndDateTime, S> {
    pub closed spec fn end_time(&self) -> NaiveDateTime {
        self.end.0
    }
}

impl<B: BizDayProcessor> SpecIteratorBuilder<B, NoStart, NoEnd, NotSealed> {
    /// Outcomes after the current time of the zone.
    pub fn new(spec: &str, bdp: B, zone: &str) -> (r: Result<Self>)
        ensures
            r matches Ok(b) ==> b.zone_of() == zone@ && b.spec_text() == spec@ && b.policy_of()
                == DstPolicy::Adjust,
            r matches Err(e) ==> (e matches Error::Custom(m) && m@ == "unknown time zone: "@ + zone@),
            r is Ok <==> crate::zone::zone_known(zone@),
    {
        let now = now_in_zone(zone)?;
        Ok(Self::new_after(spec, bdp, zone, now))
    }

    /// Outcomes strictly after the local date-time `dtm` of the zone.
    pub fn new_after(spec: &str, bdp: B, zone: &str, dtm: NaiveDateTime) -> (r: Self)
        ensures
            r.cursor() == dtm,
            r.zone_of() == zone@,
            r.spec_text() == spec@,
            r.policy_of() == DstPolicy::Adjust,
    {
        SpecIteratorBuilder {
            dtm,
            zone: zone.to_owned(),
            start: NoStart,
            spec: spec.to_owned(),
            bd_processor: bdp,
            end: NoEnd,
            dst_policy: DstPolicy::Adjust,
            sealed: NotSealed,
        }
    }

    /// The iterator: the spec is split at its first separator into a date
    /// spec and a time spec; an error when there is none, or when either
    /// part is not a spec that can be iterated.
    pub fn build(self) -> (r: Result<SpecIterator<B>>)
        ensures
            no_separator_before(self.spec_bytes(), self.spec_bytes().len() as int) ==> r is Err,
            forall|i: int|
                #[trigger] first_separator_at(self.spec_bytes(), i) && (
                parse_date_text(self.spec_bytes().subrange(0, i)) is None
                    || parse_time_text(self.spec_bytes().subrange(i + 1, self.spec_bytes().len() as int))
                    is None) ==> r is Err,
            r matches Ok(it) ==> exists|i: int|
                #[trigger] first_separator_at(self.spec_bytes(), i) && Some(
                    it.naive_of().date_spec_of().model(),
                ) == parse_date_text(self.spec_bytes().subrange(0, i)) && Some(
                    it.naive_of().time_spec_of(),
                ) == parse_time_text(self.spec_bytes().subrange(i + 1, self.spec_bytes().len() as int)),
            r matches Ok(it) ==> !it.naive_of().started(),
            r is Ok <==> self.cursor().day() > MIN_DAY && exists|i: int|
                #[trigger] first_separator_at(self.spec_bytes(), i) && split_ok(self.spec_bytes(), i),
            r matches Err(e) ==> (e is OutOfRange || e is InvalidDateSpec || e is InvalidTimeSpec
                || e is ParseError),
            r matches Ok(it) ==> it.wf() && it.zone_of() == self.zone_of() && it.policy_of()
                == self.policy_of() && it.naive_of().cursor() == self.cursor()
                && it.naive_of().initial_cursor() == self.cursor()
                && it.naive_of().start_of() is None && it.naive_of().end_of() is None,
    {
        let sp = Spec::parse(self.spec.as_str())?;
        let naive = NaiveSpecIterator::new_after(
            sp.date_spec.as_str(),
            sp.time_spec.as_str(),
            self.bd_processor,
            self.dtm,
        )?;
        Ok(SpecIterator { zone: self.zone, dst_policy: self.dst_policy, naive_spec_iter: naive })
    }
}

impl<B: BizDayProcessor> SpecIteratorBuilder<B, StartDateTime, NoEnd, NotSealed> {
    /// Outcomes from the local date-time `start` of the zone, which is the
    /// first of them.
    pub fn new_with_start(spec: &str, bdp: B, zone: &str, start: NaiveDateTime) -> (r: Self)
        ensures
            r.cursor() == start,
            r.start_time() == start,
            r.zone_of() == zone@,
            r.spec_text() == spec@,
            r.policy_of() == DstPolicy::Adjust,
    {
        SpecIteratorBuilder {
            dtm: start,
            zone: zone.to_owned(),
            start: StartDateTime(start),
            spec: spec.to_owned(),
            bd_processor: bdp,
            end: NoEnd,
            dst_policy: DstPolicy::Adjust,
            sealed: NotSealed,
        }
    }

    /// Ends the iteration at the first tick, after the start, of the time
    /// part of the date-time spec `end_spec`.
    pub fn with_end_spec(self, end_spec: &str) -> (r: SpecIteratorBuilder<
        B,
        StartDateTime,
        EndSpec,
        Sealed,
    >)
        ensures
            r.cursor() == self.cursor(),
            r.start_time() == self.start_time(),
            r.end_spec_text() == end_spec@,
            r.zone_of() == self.zone_of(),
            r.spec_text() == self.spec_text(),
            r.policy_of() == self.policy_of(),
    {
        SpecIteratorBuilder {
            dtm: self.dtm,
            zone: self.zone,
            start: self.start,
            spec: self.spec,
            bd_processor: self.bd_processor,
            end: EndSpec(end_spec.to_owned()),
            dst_policy: self.dst_policy,
            sealed: Sealed,
        }
    }

    /// Ends the iteration at the local date-time `end`.
    pub fn with_end(self, end: NaiveDateTime) -> (r: SpecIteratorBuilder<
        B,
        StartDateTime,
        EndDateTime,
        Sealed,
    >)
        ensures
            r.cursor() == self.cursor(),
            r.start_time() == self.start_time(),
            r.end_time() == end,
            r.zone_of() == self.zone_of(),
            r.spec_text() == self.spec_text(),
            r.policy_of() == self.policy_of(),
    {
        SpecIteratorBuilder {
            dtm: self.dtm,
            zone: self.zone,
            start: self.start,
            spec: self.spec,
            bd_processor: self.bd_processor,
            end: EndDateTime(end),
            dst_policy: self.dst_policy,
            sealed: Sealed,
        }
    }

    /// The iterator: the spec is split at its first separator into a date
    /// spec and a time spec; an error when there is none, or when either
    /// part is not a spec that can be iterated.
    pub fn build(self) -> (r: Result<SpecIterator<B>>)
        ensures
            no_separator_before(self.spec_bytes(), self.spec_bytes().len() as int) ==> r is Err,
            forall|i: int|
                #[trigger] first_separator_at(self.spec_bytes(), i) && (
                parse_date_text(self.spec_bytes().subrange(0, i)) is None
                    || parse_time_text(self.spec_bytes().subrange(i + 1, self.spec_bytes().len() as int))
                    is None) ==> r is Err,
            r matches Ok(it) ==> exists|i: int|
                #[trigger] first_separator_at(self.spec_bytes(), i) && Some(
                    it.naive_of().date_spec_of().model(),
                ) == parse_date_text(self.spec_bytes().subrange(0, i)) && Some(
                    it.naive_of().time_spec_of(),
                ) == parse_time_text(self.spec_bytes().subrange(i + 1, self.spec_bytes().len() as int)),
            r matches Ok(it) ==> !it.naive_of().started(),
            r is Ok <==> self.start_time().day() > MIN_DAY && exists|i: int|
                #[trigger] first_separator_at(self.spec_bytes(), i) && split_ok(self.spec_bytes(), i),
            r matches Err(e) ==> (e is OutOfRange || e is InvalidDateSpec || e is InvalidTimeSpec
                || e is ParseError),
            r matches Ok(it) ==> it.wf() && it.zone_of() == self.zone_of() && it.policy_of()
                == self.policy_of() && it.naive_of().cursor() == self.start_time()
                && it.naive_of().initial_cursor() == self.start_time()
                && it.naive_of().start_of() == Some(self.start_time())
                && it.naive_of().end_of() is None,
    {
        let sp = Spec::parse(self.spec.as_str())?;
        let naive = NaiveSpecIterator::new_with_start(
            sp.date_spec.as_str(),
            sp.time_spec.as_str(),
            self.bd_processor,
            self.start.0,
        )?;
        Ok(SpecIterator { zone: self.zone, dst_policy: self.dst_policy, naive_spec_iter: naive })
    }
}

impl<B: BizDayProcessor> SpecIteratorBuilder<B, StartDateTime, EndDateTime, Sealed> {
    /// The iterator: the spec is split at its first separator into a date
    /// spec and a time spec; an error when there is none, or when either
    /// part is not a spec that can be iterated.
    pub fn build(self) -> (r: Result<SpecIterator<B>>)
        ensures
            no_separator_before(self.spec_bytes(), self.spec_bytes().len() as int) ==> r is Err,
            forall|i: int|
                #[trigger] first_separator_at(self.spec_bytes(), i) && (
                parse_date_text(self.spec_bytes().subrange(0, i)) is None
                    || parse_time_text(self.spec_bytes().subrange(i + 1, self.spec_bytes().len() as int))
                    is None) ==> r is Err,
            r matches Ok(it) ==> exists|i: int|
                #[trigger] first_separator_at(self.spec_bytes(), i) && Some(
                    it.naive_of().date_spec_of().model(),
                ) == parse_date_text(self.spec_bytes().subrange(0, i)) && Some(
                    it.naive_of().time_spec_of(),
                ) == parse_time_text(self.spec_bytes().subrange(i + 1, self.spec_bytes().len() as int)),
            r matches Ok(it) ==> !it.naive_of().started(),
            r is Ok <==> self.start_time().stamp() < self.end_time().stamp()
                && self.start_time().day() > MIN_DAY && exists|i: int|
                #[trigger] first_separator_at(self.spec_bytes(), i) && split_ok(self.spec_bytes(), i),
            r matches Err(e) ==> (e is OutOfRange || e is InvalidDateSpec || e is InvalidTimeSpec
                || e is ParseError || e is Custom),
            r matches Ok(it) ==> it.wf() && it.zone_of() == self.zone_of() && it.policy_of()
                == self.policy_of() && it.naive_of().cursor() == self.start_time()
                && it.naive_of().initial_cursor() == self.start_time()
                && it.naive_of().start_of() == Some(self.start_time())
                && it.naive_of().end_of() == Some(self.end_time()),
    {
        let sp = Spec::parse(self.spec.as_str())?;
        let naive = NaiveSpecIterator::new_with_end(
            sp.date_spec.as_str(),
            sp.time_spec.as_str(),
            self.bd_processor,
            self.start.0,
            self.end.0,
        )?;
        Ok(SpecIterator { zone: self.zone, dst_policy: self.dst_policy, naive_spec_iter: naive })
    }
}

impl<B: BizDayProcessor> SpecIteratorBuilder<B, StartDateTime, EndSpec, Sealed> {
    pub closed spec fn end_spec_text(&self) -> Seq<char> {
        self.end.0@
    }

    /// The end spec as UTF-8 bytes.
    pub open spec fn end_spec_bytes(&self) -> Seq<u8> {
        vstd::utf8::encode_utf8(self.end_spec_text())
    }

    /// The iterator, which ends at the first tick after the start of the
    /// end spec's time part. An error when either spec lacks a separator,
    /// when a part is not a spec that can be iterated, or when the end
    /// spec gives no later end.
    #[verifier::rlimit(50)]
    #[verifier::spinoff_prover]
    pub fn build(self) -> (r: Result<SpecIterator<B>>)
        ensures
            r is Ok <==> self.start_time().day() > MIN_DAY && (exists|i: int|
                #[trigger] first_separator_at(self.spec_bytes(), i) && split_ok(self.spec_bytes(), i))
                && (exists|j: int|
                #[trigger] first_separator_at(self.end_spec_bytes(), j) && end_split_ok(
                    self.end_spec_bytes(),
                    j,
                    self.start_time(),
                )),
            r matches Err(e) ==> (e is OutOfRange || e is InvalidDateSpec || e is InvalidTimeSpec
                || e is ParseError || e is Custom),
            (exists|i: int| #[trigger] first_separator_at(self.spec_bytes(), i)) && (exists|j: int|
                #[trigger] first_separator_at(self.end_spec_bytes(), j)
                    && crate::time::iter::end_tick_none(
                    parse_time_text(
                        self.end_spec_bytes().subrange(j + 1, self.end_spec_bytes().len() as int),
                    ),
                    self.start_time(),
                )) ==> (r matches Err(e) && e matches Error::Custom(m) && m@
                == "End spec must result in a date-time after the start date-time"@),
            r matches Ok(it) ==> exists|i: int|
                #[trigger] first_separator_at(self.spec_bytes(), i) && Some(
                    it.naive_of().date_spec_of().model(),
                ) == parse_date_text(self.spec_bytes().subrange(0, i)) && Some(
                    it.naive_of().time_spec_of(),
                ) == parse_time_text(self.spec_bytes().subrange(i + 1, self.spec_bytes().len() as int)),
            r matches Ok(it) ==> exists|j: int|
                #[trigger] first_separator_at(self.end_spec_bytes(), j) && end_fixed(
                    self.end_spec_bytes(),
                    j,
                    self.start_time(),
                    it.naive_of().end_of(),
                ),
            r matches Ok(it) ==> it.wf() && it.zone_of() == self.zone_of() && it.policy_of()
                == self.policy_of() && it.naive_of().cursor() == self.start_time()
                && it.naive_of().initial_cursor() == self.start_time()
                && it.naive_of().start_of() == Some(self.start_time()) && !it.naive_of().started(),
    {
        let sp = Spec::parse(self.spec.as_str())?;
        let ghost b = self.spec_bytes();
        let ghost i = choose|i: int|
            #[trigger] first_separator_at(b, i) && vstd::utf8::encode_utf8(sp.date_spec@)
                == b.subrange(0, i) && vstd::utf8::encode_utf8(sp.time_spec@) == b.subrange(
                i + 1,
                b.len() as int,
            );
        proof {
            assert forall|k: int| #[trigger] first_separator_at(b, k) implies k == i by {
                if k < i {
                    assert(crate::datetime::spec::separator_at(b, k));
                } else if k > i {
                    assert(crate::datetime::spec::separator_at(b, i));
                }
            }
        }
        let naive = NaiveSpecIterator::new_with_end_spec(
            sp.date_spec.as_str(),
            sp.time_spec.as_str(),
            self.bd_processor,
            self.start.0,
            self.end.0.as_str(),
        )?;
        Ok(SpecIterator { zone: self.zone, dst_policy: self.dst_policy, naive_spec_iter: naive })
    }
}

} // verus!
