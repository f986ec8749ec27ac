//! The zoned time iterator and its builder.

use vstd::prelude::*;

use crate::builder::{
    now_in_zone, EndDateTime, EndSpec, NoEnd, NoStart, NotSealed, Sealed, StartDateTime,
};
use crate::calendar::NaiveDateTime;
use crate::time::iter::{end_tick_ok, time_step, NaiveSpecIterator};
use crate::time::spec::clock_valid;
use crate::error::{Error, Result};
use crate::next_result::DstPolicy;
use crate::zone::{resolve_local, resolve_local_ok, resolves, ZonedDateTime};

use crate::time::spec::parse_time_text;

verus! {

/// Time iterator in a time zone: each outcome of the local iteration is
/// mapped to the zone under the daylight-saving policy.
pub struct SpecIterator {
    zone: String,
    dst_policy: DstPolicy,
    naive_spec_iter: NaiveSpecIterator,
}

impl SpecIterator {
    /// The time spec names times of day.
    pub open spec fn wf(&self) -> bool {
        clock_valid(self.naive_of().spec_of())
    }

    pub closed spec fn zone_of(&self) -> Seq<char> {
        self.zone@
    }

    pub closed spec fn policy_of(&self) -> DstPolicy {
        self.dst_policy
    }

    /// The local iteration.
    pub closed spec fn naive_of(&self) -> NaiveSpecIterator {
        self.naive_spec_iter
    }

    /// What a call of `next` returns and leaves behind, success or not:
    /// `after` is the iterator after the call. It fails only where the local
    /// step fails, or where the local step succeeds with a time that does
    /// not map to the zone under the policy.
    pub open spec fn next_ok(&self, after: &Self, r: Result<Option<ZonedDateTime>>) -> bool {
        &&& after.zone_of() == self.zone_of()
        &&& after.policy_of() == self.policy_of()
        &&& match r {
            Ok(None) => self.naive_of().step_ok(&after.naive_of(), None),
            Ok(Some(z)) => self.naive_of().step_ok(
                &after.naive_of(),
                Some(after.naive_of().cursor()),
            ) && resolve_local_ok(self.zone_of(), after.naive_of().cursor(), self.policy_of(), z),
            Err(e) => self.naive_of().next_ok(&after.naive_of(), Err(e)) || (self.naive_of().step_ok(
                &after.naive_of(),
                Some(after.naive_of().cursor()),
            ) && !resolves(self.zone_of(), after.naive_of().cursor(), self.policy_of())),
        }
    }

    /// `states` runs from `first` through successive calls of `next`, call
    /// `i` returning `outs[i]`.
    pub open spec fn calls_ok(first: Self, states: Seq<Self>, outs: Seq<ZonedDateTime>) -> bool {
        &&& states.len() == outs.len() + 1
        &&& states[0] == first
        &&& forall|i: int|
            0 <= i < outs.len() ==> #[trigger] states[i].next_ok(&states[i + 1], Ok(Some(outs[i])))
    }

    /// `take(n)` from `first` returned `r` and left `last`: as many calls
    /// of `next` as give an outcome, up to `n`, then the call that returned
    /// `None` or failed.
    pub open spec fn take_ok(first: Self, last: Self, n: nat, r: Result<Seq<ZonedDateTime>>) -> bool {
        exists|states: Seq<Self>, outs: Seq<ZonedDateTime>|
            #[trigger] Self::calls_ok(first, states, outs) && match r {
                Ok(v) => v == outs && v.len() <= n && (v.len() == n ==> last == states.last()) && (
                v.len() < n ==> states.last().next_ok(&last, Ok(None))),
                Err(e) => outs.len() < n && states.last().next_ok(&last, Err(e)),
            }
    }

    /// The next outcome, in the zone: its raw date is the zoned form of the
    /// local iteration's new cursor.
    pub fn next(&mut self) -> (r: Result<Option<ZonedDateTime>>)
        requires
            old(self).wf(),
        ensures
            final(self).wf(),
            final(self).zone_of() == old(self).zone_of(),
            final(self).policy_of() == old(self).policy_of(),
            final(self).naive_of().spec_of() == old(self).naive_of().spec_of(),
            old(self).naive_of().at_end() ==> r == Ok::<Option<ZonedDateTime>, Error>(None),
            r matches Ok(None) ==> old(self).naive_of().step_ok(&final(self).naive_of(), None),
            r matches Ok(Some(z)) ==> old(self).naive_of().step_ok(
                &final(self).naive_of(),
                Some(final(self).naive_of().cursor()),
            ) && resolve_local_ok(
                final(self).zone_of(),
                final(self).naive_of().cursor(),
                final(self).policy_of(),
                z,
            ),
            old(self).next_ok(final(self), r),
    {
        let next = match self.naive_spec_iter.next()? {
            Some(n) => n,
            None => return Ok(None),
        };
        let z = resolve_local(self.zone.as_str(), next, self.dst_policy)?;
        Ok(Some(z))
    }

    /// Up to `n` next outcomes, in order: the zoned forms of the outcomes
    /// of successive steps of the local iteration, which strictly increase
    /// from the cursor on.
    pub fn take(&mut self, n: usize) -> (r: Result<Vec<ZonedDateTime>>)
        requires
            old(self).wf(),
        ensures
            final(self).wf(),
            final(self).zone_of() == old(self).zone_of(),
            final(self).policy_of() == old(self).policy_of(),
            r matches Ok(v) ==> v.len() <= n,
            r matches Ok(v) ==> zoned_run(
                old(self).naive_of(),
                old(self).zone_of(),
                old(self).policy_of(),
                v@,
            ),
            Self::take_ok(
                *old(self),
                *final(self),
                n as nat,
                match r {
                    Ok(v) => Ok(v@),
                    Err(e) => Err(e),
                },
            ),
    {
        let mut out: Vec<ZonedDateTime> = Vec::new();
        let ghost first = self.naive_of();
        let ghost mut states: Seq<NaiveSpecIterator> = seq![first];
        let ghost mut locals: Seq<NaiveDateTime> = Seq::empty();
        let ghost zfirst = *self;
        let ghost mut zstates: Seq<Self> = seq![zfirst];
        while out.len() < n
            invariant
                zfirst == *old(self),
                Self::calls_ok(zfirst, zstates, out@),
                zstates.last() == *self,
                self.wf(),
                self.zone_of() == old(self).zone_of(),
                self.policy_of() == old(self).policy_of(),
                first == old(self).naive_of(),
                out.len() <= n,
                run_ok(first, self.zone_of(), self.policy_of(), states, locals, out@),
                states.last() == self.naive_of(),
                locals.len() > 0 ==> self.naive_of().cursor() == locals.last()
                    && self.naive_of().started(),
                locals.len() == 0 ==> self.naive_of().cursor() == first.cursor(),
            decreases n - out.len(),
        {
            let zr = self.next();
            match zr {
                Err(e) => {
                    assert(Self::calls_ok(zfirst, zstates, out@));
                    return Err(e);
                },
                Ok(None) => {
                    assert(Self::calls_ok(zfirst, zstates, out@));
                    assert(run_ok(first, self.zone_of(), self.policy_of(), states, locals, out@));
                    return Ok(out);
                },
                Ok(Some(x)) => {
                    proof {
                        let ghost s0 = states;
                        states = states.push(self.naive_of());
                        locals = locals.push(self.naive_of().cursor());
                        assert(forall|i: int| 0 <= i < s0.len() ==> states[i] == s0[i]);
                        let z0 = zstates;
                        zstates = zstates.push(*self);
                        assert(forall|i: int| 0 <= i < z0.len() ==> zstates[i] == z0[i]);
                    }
                    out.push(x);
                },
            }
        }
        assert(run_ok(first, self.zone_of(), self.policy_of(), states, locals, out@));
        Ok(out)
    }
}

/// `states` runs from `first` through successive steps of the local
/// iteration, step `i` giving `locals[i]`; `locals` strictly increases and
/// starts no earlier than the cursor of `first`; and `v` is `locals` moved
/// into the zone.
pub open spec fn run_ok(
    first: NaiveSpecIterator,
    zone: Seq<char>,
    policy: DstPolicy,
    states: Seq<NaiveSpecIterator>,
    locals: Seq<NaiveDateTime>,
    v: Seq<ZonedDateTime>,
) -> bool {
    &&& states.len() == locals.len() + 1
    &&& locals.len() == v.len()
    &&& states[0] == first
    &&& forall|i: int|
        0 <= i < locals.len() ==> #[trigger] states[i].step_ok(&states[i + 1], Some(locals[i]))
    &&& forall|i: int, j: int|
        0 <= i < j < locals.len() ==> #[trigger] locals[i].stamp() < #[trigger] locals[j].stamp()
    &&& forall|i: int| 0 <= i < locals.len() ==> #[trigger] locals[i].stamp() >= first.cursor().stamp()
    &&& forall|i: int|
        0 <= i < locals.len() ==> resolve_local_ok(zone, #[trigger] locals[i], policy, v[i])
}

/// `v` is the zoned form of the outcomes of successive steps of the local
/// iteration from `first`.
pub open spec fn zoned_run(
    first: NaiveSpecIterator,
    zone: Seq<char>,
    policy: DstPolicy,
    v: Seq<ZonedDateTime>,
) -> bool {
    exists|states: Seq<NaiveSpecIterator>, locals: Seq<NaiveDateTime>|
        #[trigger] run_ok(first, zone, policy, states, locals, v)
}

/// Builder of a [`SpecIterator`]: the start and the end are fixed by the
/// type of the builder.
pub struct SpecIteratorBuilder<START, END, S> {
    dtm: NaiveDateTime,
    zone: String,
    start: START,
    spec: String,
    end: END,
    dst_policy: DstPolicy,
    sealed: S,
}

impl<START, END, S> SpecIteratorBuilder<START, END, S> {
    pub closed spec fn cursor(&self) -> NaiveDateTime {
        self.dtm
    }

    pub closed spec fn zone_of(&self) -> Seq<char> {
        self.zone@
    }

    pub closed spec fn spec_text(&self) -> Seq<char> {
        self.spec@
    }

    /// The spec as UTF-8 bytes.
    pub open spec fn spec_bytes(&self) -> Seq<u8> {
        vstd::utf8::encode_utf8(self.spec_text())
    }

    pub closed spec fn policy_of(&self) -> DstPolicy {
        self.dst_policy
    }

    /// The same builder under another daylight-saving policy.
    pub fn with_dst_policy(self, policy: DstPolicy) -> (r: Self)
        ensures
            r.policy_of() == policy,
            r.cursor() == self.cursor(),
            r.zone_of() == self.zone_of(),
            r.spec_text() == self.spec_text(),
    {
        SpecIteratorBuilder { dst_policy: policy, ..self }
    }
}

impl<END, S> SpecIteratorBuilder<StartDateTime, END, S> {
    pub closed spec fn start_time(&self) -> NaiveDateTime {
        self.start.0
    }
}

impl<S> SpecIteratorBuilder<StartDateTime, EndDateTime, S> {
    pub closed spec fn end_time(&self) -> NaiveDateTime {
        self.end.0
    }
}

impl SpecIteratorBuilder<NoStart, NoEnd, NotSealed> {
    /// Outcomes after the current time of the zone.
    pub fn new(spec: &str, zone: &str) -> (r: Result<Self>)
        ensures
            r matches Ok(b) ==> b.zone_of() == zone@ && b.spec_text() == spec@ && b.policy_of()
                == DstPolicy::Adjust,
            r matches Err(e) ==> (e matches Error::Custom(m) && m@ == "unknown time zone: "@ + zone@),
            r is Ok <==> crate::zone::zone_known(zone@),
    {
        let now = now_in_zone(zone)?;
        Ok(Self::new_after(spec, zone, now))
    }

    /// Outcomes strictly after the local date-time `dtm` of the zone.
    pub fn new_after(spec: &str, zone: &str, dtm: NaiveDateTime) -> (r: Self)
        ensures
            r.cursor() == dtm,
            r.zone_of() == zone@,
            r.spec_text() == spec@,
            r.policy_of() == DstPolicy::Adjust,
    {
        SpecIteratorBuilder {
            dtm,
            zone: zone.to_owned(),
            start: NoStart,
            spec: spec.to_owned(),
            end: NoEnd,
            dst_policy: DstPolicy::Adjust,
            sealed: NotSealed,
        }
    }

    /// The iterator; an error when the spec is not a time spec that names
    /// times of day.
    pub fn build(self) -> (r: Result<SpecIterator>)
        ensures
            r is Ok <==> (parse_time_text(self.spec_bytes()) matches Some(sp)
                && clock_valid(sp)),
            r matches Err(e) ==> e is InvalidTimeSpec,
            r matches Ok(it) ==> it.wf() && it.zone_of() == self.zone_of() && it.policy_of()
                == self.policy_of() && Some(it.naive_of().spec_of()) == parse_time_text(self.spec_bytes())
                && it.naive_of().cursor() == self.cursor() && it.naive_of().start_of() is None
                && it.naive_of().end_of() is None && !it.naive_of().started(),
    {
        let naive = NaiveSpecIterator::new_after(self.spec.as_str(), self.dtm)?;
        if !naive.is_clock_valid() {
            return Err(Error::InvalidTimeSpec(crate::time::spec::failure_message(self.spec.as_str())));
        }
        Ok(SpecIterator { zone: self.zone, dst_policy: self.dst_policy, naive_spec_iter: naive })
    }
}

impl SpecIteratorBuilder<StartDateTime, NoEnd, NotSealed> {
    /// Outcomes from the local date-time `start` of the zone, which is the
    /// first of them.
    pub fn new_with_start(spec: &str, zone: &str, start: NaiveDateTime) -> (r: Self)
        ensures
            r.cursor() == start,
            r.start_time() == start,
            r.zone_of() == zone@,
            r.spec_text() == spec@,
            r.policy_of() == DstPolicy::Adjust,
    {
        SpecIteratorBuilder {
            dtm: start,
            zone: zone.to_owned(),
            start: StartDateTime(start),
            spec: spec.to_owned(),
            end: NoEnd,
            dst_policy: DstPolicy::Adjust,
            sealed: NotSealed,
        }
    }

    /// Ends the iteration at the first outcome of `end_spec`.
    pub fn with_end_spec(self, end_spec: &str) -> (r: SpecIteratorBuilder<
        StartDateTime,
        EndSpec,
        Sealed,
    >)
        ensures
            r.cursor() == self.cursor(),
            r.start_time() == self.start_time(),
            r.end_spec_text() == end_spec@,
            r.zone_of() == self.zone_of(),
            r.spec_text() == self.spec_text(),
            r.policy_of() == self.policy_of(),
    {
        SpecIteratorBuilder {
            dtm: self.dtm,
            zone: self.zone,
            start: self.start,
            spec: self.spec,
            end: EndSpec(end_spec.to_owned()),
            dst_policy: self.dst_policy,
            sealed: Sealed,
        }
    }

    /// Ends the iteration at the local date-time `end`.
    pub fn with_end(self, end: NaiveDateTime) -> (r: SpecIteratorBuilder<
        StartDateTime,
        EndDateTime,
        Sealed,
    >)
        ensures
            r.cursor() == self.cursor(),
            r.start_time() == self.start_time(),
            r.end_time() == end,
            r.zone_of() == self.zone_of(),
            r.spec_text() == self.spec_text(),
            r.policy_of() == self.policy_of(),
    {
        SpecIteratorBuilder {
            dtm: self.dtm,
            zone: self.zone,
            start: self.start,
            spec: self.spec,
            end: EndDateTime(end),
            dst_policy: self.dst_policy,
            sealed: Sealed,
        }
    }

    /// The iterator; an error when the spec is not a time spec that names
    /// times of day.
    pub fn build(self) -> (r: Result<SpecIterator>)
        ensures
            r is Ok <==> (parse_time_text(self.spec_bytes()) matches Some(sp)
                && clock_valid(sp)),
            r matches Err(e) ==> e is InvalidTimeSpec,
            r matches Ok(it) ==> it.wf() && it.zone_of() == self.zone_of() && it.policy_of()
                == self.policy_of() && Some(it.naive_of().spec_of()) == parse_time_text(self.spec_bytes())
                && it.naive_of().cursor() == self.start_time() && it.naive_of().start_of() == Some(
                self.start_time(),
            ) && it.naive_of().end_of() is None && !it.naive_of().started(),
    {
        let naive = NaiveSpecIterator::new_with_start(
            self.spec.as_str(),
            self.start.0,
        )?;
        if !naive.is_clock_valid() {
            return Err(Error::InvalidTimeSpec(crate::time::spec::failure_message(self.spec.as_str())));
        }
        Ok(SpecIterator { zone: self.zone, dst_policy: self.dst_policy, naive_spec_iter: naive })
    }
}

impl SpecIteratorBuilder<StartDateTime, EndDateTime, Sealed> {
    /// The iterator; an error when the spec is not a time spec that names
    /// times of day.
    pub fn build(self) -> (r: Result<SpecIterator>)
        ensures
            r is Ok <==> (parse_time_text(self.spec_bytes()) matches Some(sp)
                && clock_valid(sp)),
            r matches Err(e) ==> e is InvalidTimeSpec,
            r matches Ok(it) ==> it.wf() && it.zone_of() == self.zone_of() && it.policy_of()
                == self.policy_of() && Some(it.naive_of().spec_of()) == parse_time_text(self.spec_bytes())
                && it.naive_of().cursor() == self.start_time() && it.naive_of().start_of() == Some(
                self.start_time(),
            ) && it.naive_of().end_of() == Some(self.end_time()) && !it.naive_of().started(),
    {
        let naive = NaiveSpecIterator::new_with_end(
            self.spec.as_str(),
            self.start.0,
            self.end.0,
        )?;
        if !naive.is_clock_valid() {
            return Err(Error::InvalidTimeSpec(crate::time::spec::failure_message(self.spec.as_str())));
        }
        Ok(SpecIterator { zone: self.zone, dst_policy: self.dst_policy, naive_spec_iter: naive })
    }
}

impl SpecIteratorBuilder<StartDateTime, EndSpec, Sealed> {
    pub closed spec fn end_spec_text(&self) -> Seq<char> {
        self.end.0@
    }

    /// The end spec as UTF-8 bytes.
    pub open spec fn end_spec_bytes(&self) -> Seq<u8> {
        vstd::utf8::encode_utf8(self.end_spec_text())
    }

    /// The iterator, which ends at the first tick of the end spec after the
    /// start; an error when either spec is not a time spec that names times
    /// of day.
    pub fn build(self) -> (r: Result<SpecIterator>)
        ensures
            !(parse_time_text(self.spec_bytes()) matches Some(sp) && clock_valid(sp)) ==> r is Err,
            !(parse_time_text(self.end_spec_bytes()) matches Some(sp) && clock_valid(sp)) ==> r is Err,
            r is Ok <==> (parse_time_text(self.spec_bytes()) matches Some(sp) && clock_valid(sp)) && (
            parse_time_text(self.end_spec_bytes()) matches Some(e) && clock_valid(e)) && end_tick_ok(
                parse_time_text(self.end_spec_bytes()),
                self.start_time(),
            ),
            r matches Err(e) ==> (e is InvalidTimeSpec || e is InvalidEndSpec || e is OutOfRange),
            r matches Ok(it) ==> it.wf() && it.zone_of() == self.zone_of() && it.policy_of()
                == self.policy_of() && Some(it.naive_of().spec_of()) == parse_time_text(self.spec_bytes())
                && it.naive_of().cursor() == self.start_time() && it.naive_of().start_of() == Some(
                self.start_time(),
            ) && !it.naive_of().started() && (parse_time_text(self.end_spec_bytes()) matches Some(e)
                && it.naive_of().end_of() matches Some(end) && end.stamp() == time_step(
                e,
                self.start_time().stamp(),
            )),
    {
        let end_spec = crate::time::spec::Spec::parse(self.end.0.as_str())?;
        if !end_spec.is_clock_valid() {
            return Err(Error::InvalidTimeSpec(crate::time::spec::failure_message(self.end.0.as_str())));
        }
        let naive = NaiveSpecIterator::new_with_end_spec(
            self.spec.as_str(),
            self.start.0,
            self.end.0.as_str(),
        )?;
        if !naive.is_clock_valid() {
            return Err(Error::InvalidTimeSpec(crate::time::spec::failure_message(self.spec.as_str())));
        }
        Ok(SpecIterator { zone: self.zone, dst_policy: self.dst_policy, naive_spec_iter: naive })
    }
}

} // verus!
