//! Time zones: mapping a local date-time to an instant of a named zone of
//! the IANA database, under a daylight-saving policy.

use chrono::{Offset, TimeZone};
use vstd::prelude::*;

use crate::calendar::NaiveDateTime;
use crate::error::{Error, Result};
use crate::next_result::{DstPolicy, NextResult};

verus! {

/// The UTC offsets (seconds east of UTC) that a local date-time has in a
/// zone.
#[derive(Debug, Clone, Copy, PartialEq, Eq, Structural)]
pub enum LocalOffsets {
    /// The local time is skipped by a spring-forward transition.
    Gap,
    /// The local time has exactly one offset.
    Single(i32),
    /// The local time occurs twice (fall-back); earlier instant first.
    Ambiguous(i32, i32),
}

/// A local date-time of a zone together with its UTC offset.
#[derive(Debug, Clone, Copy, PartialEq, Eq, Structural)]
pub struct ZonedDateTime {
    /// The wall-clock date-time.
    pub local: NaiveDateTime,
    /// Seconds east of UTC.
    pub offset: i32,
}

impl ZonedDateTime {
    /// Seconds of the instant on the calendar's UTC time line.
    pub open spec fn instant(self) -> int {
        self.local.stamp() - self.offset
    }
}

/// `chrono_tz::Tz::from_str` knows the zone so named: its built-in table
/// of IANA zones holds the name.
pub uninterp spec fn zone_known(zone: Seq<char>) -> bool;

/// The offsets of a local date-time (by its stamp) in the zone so named;
/// `None` for a name that the zone database does not know.
pub uninterp spec fn zone_offsets(zone: Seq<char>, local: int) -> Option<LocalOffsets>;

/// `chrono_tz::Tz::from_str` on the zone name, then
/// `TimeZone::from_local_datetime` on the local date-time, read as the
/// offsets of the result. The contract names the result, and says that it
/// is `None` exactly for a name that `Tz::from_str` does not know (the
/// local date-time is always a valid chrono date-time); it claims nothing
/// else of the zone database.
#[verifier::external_body]
fn chrono_zone_offsets(zone: &str, day: i32, h: u32, mi: u32, s: u32) -> (r: Option<LocalOffsets>)
    requires
        crate::calendar::MIN_DAY <= day <= crate::calendar::MAX_DAY,
        h < 24,
        mi < 60,
        s < 60,
    ensures
        r == zone_offsets(zone@, NaiveDateTime::stamp_of(day as int, h * 3600 + mi * 60 + s)),
        r is None <==> !zone_known(zone@),
{
    let tz: chrono_tz::Tz = zone.parse().ok()?;
    let date = chrono::NaiveDate::from_num_days_from_ce_opt(day)?;
    let naive = date.and_hms_opt(h, mi, s)?;
    match tz.from_local_datetime(&naive) {
        chrono::LocalResult::None => Some(LocalOffsets::Gap),
        chrono::LocalResult::Single(t) => Some(LocalOffsets::Single(t.offset().fix().local_minus_utc())),
        chrono::LocalResult::Ambiguous(a, b) => {
            Some(LocalOffsets::Ambiguous(a.offset().fix().local_minus_utc(), b.offset().fix().local_minus_utc()))
        },
    }
}

/// The decimal digit `d` (0 to 9) as a character.
pub open spec fn digit_char(d: int) -> char {
    (48 + d) as char
}

/// The decimal digits of `n`, without leading zeros.
pub open spec fn decimal_text(n: nat) -> Seq<char>
    decreases n,
{
    if n < 10 {
        seq![digit_char(n as int)]
    } else {
        decimal_text(n / 10) + seq![digit_char((n % 10) as int)]
    }
}

/// The decimal digits of `n`, with leading zeros up to `width` digits.
pub open spec fn padded_text(n: nat, width: nat) -> Seq<char> {
    let t = decimal_text(n);
    if t.len() >= width {
        t
    } else {
        Seq::new((width - t.len()) as nat, |i: int| '0') + t
    }
}

/// A year as chrono writes it: four digits from 0 to 9999, else a sign and
/// at least four digits.
pub open spec fn year_text(y: int) -> Seq<char> {
    if 0 <= y <= 9999 {
        padded_text(y as nat, 4)
    } else if y < 0 {
        seq!['-'] + padded_text((-y) as nat, 4)
    } else {
        seq!['+'] + padded_text(y as nat, 4)
    }
}

/// chrono's text of a local date-time, by its stamp: `%Y-%m-%d %H:%M:%S`
/// (`2024-03-10 02:30:00`).
pub open spec fn local_text(local: int) -> Seq<char> {
    let day = crate::calendar::MIN_DAY + local / 86400;
    let sod = local % 86400;
    let (y, m, d) = crate::calendar::civil_of_day(day);
    year_text(y) + seq!['-'] + padded_text(m as nat, 2) + seq!['-'] + padded_text(d as nat, 2)
        + seq![' '] + padded_text((sod / 3600) as nat, 2) + seq![':'] + padded_text(
        ((sod % 3600) / 60) as nat,
        2,
    ) + seq![':'] + padded_text((sod % 60) as nat, 2)
}

/// `Display` of the `chrono::NaiveDateTime` of a local date-time: its
/// text as [`local_text`] spells it out.
#[verifier::external_body]
fn chrono_local_text(day: i32, h: u32, mi: u32, s: u32) -> (r: String)
    requires
        crate::calendar::MIN_DAY <= day <= crate::calendar::MAX_DAY,
        h < 24,
        mi < 60,
        s < 60,
    ensures
        r@ == local_text(NaiveDateTime::stamp_of(day as int, h * 3600 + mi * 60 + s)),
{
    let date = chrono::NaiveDate::from_num_days_from_ce_opt(day).unwrap();
    date.and_hms_opt(h, mi, s).unwrap().to_string()
}

/// The day number and the hour, minute and second of a date-time.
fn clock_parts(t: &NaiveDateTime) -> (r: (i32, u32, u32, u32))
    ensures
        crate::calendar::MIN_DAY <= r.0 <= crate::calendar::MAX_DAY,
        r.1 < 24,
        r.2 < 60,
        r.3 < 60,
        NaiveDateTime::stamp_of(r.0 as int, r.1 * 3600 + r.2 * 60 + r.3) == t.stamp(),
{
    let d = t.day_number();
    let h = t.hour_of_day();
    let mi = t.minute_of_hour();
    let s = t.second_of_minute();
    proof {
        crate::calendar::lemma_stamp_parts(*t);
        let sod = t.sod();
        assert(sod == (sod / 3600) * 3600 + ((sod % 3600) / 60) * 60 + sod % 60) by (nonlinear_arith)
            requires
                0 <= sod < 86400,
        ;
    }
    (d, h, mi, s)
}

/// The text of the failure of resolving `local` strictly: in a
/// spring-forward gap (`gap`) or in a fall-back overlap.
pub open spec fn strict_failure_text(local: int, gap: bool) -> Seq<char> {
    local_text(local) + if gap {
        " does not exist in timezone (DST spring-forward gap)"@
    } else {
        " is ambiguous in timezone (DST fall-back overlap)"@
    }
}

fn strict_failure_message(local: &NaiveDateTime, gap: bool) -> (r: String)
    ensures
        r@ == strict_failure_text(local.stamp(), gap),
{
    let (d, h, mi, s) = clock_parts(local);
    let mut m = chrono_local_text(d, h, mi, s);
    if gap {
        m.append(" does not exist in timezone (DST spring-forward gap)");
    } else {
        m.append(" is ambiguous in timezone (DST fall-back overlap)");
    }
    m
}

/// The message for an unknown zone name.
pub(crate) fn unknown_zone_message(zone: &str) -> (r: String)
    ensures
        r@ == "unknown time zone: "@ + zone@,
{
    let mut m = String::from_str("unknown time zone: ");
    m.append(zone);
    m
}

/// In a gap, the offset taken is the latest one of the local time one
/// hour later.
pub open spec fn gap_offset_ok(zone: Seq<char>, later: int, z: ZonedDateTime) -> bool {
    match zone_offsets(zone, later) {
        Some(LocalOffsets::Single(o)) => z.offset == o,
        Some(LocalOffsets::Ambiguous(_, l)) => z.offset == l,
        _ => false,
    }
}

/// [`resolve_local`] succeeds on `local`: the zone is known and the local
/// time has one offset, or the policy adjusts an overlap, or it adjusts a
/// gap whose time one hour later lies in the calendar and has an offset.
pub open spec fn resolves(zone: Seq<char>, local: NaiveDateTime, policy: DstPolicy) -> bool {
    match zone_offsets(zone, local.stamp()) {
        Some(LocalOffsets::Single(_)) => true,
        Some(LocalOffsets::Ambiguous(_, _)) => policy == DstPolicy::Adjust,
        Some(LocalOffsets::Gap) => policy == DstPolicy::Adjust && local.stamp() + 3600
            <= crate::calendar::MAX_TICKS && !(zone_offsets(zone, local.stamp() + 3600) is None)
            && !(zone_offsets(zone, local.stamp() + 3600) == Some(LocalOffsets::Gap)),
        None => false,
    }
}

/// Maps a local date-time of the zone `zone` to a zoned date-time. A
/// unique local time keeps its offset. Under `Adjust`, a time in a
/// spring-forward gap moves one hour later (latest offset), an ambiguous
/// time takes the earlier instant; under `Strict` both are
/// [`Error::AmbiguousLocalTime`].
pub fn resolve_local(zone: &str, dtm: NaiveDateTime, policy: DstPolicy) -> (r: Result<ZonedDateTime>)
    ensures
        r is Ok <==> resolves(zone@, dtm, policy),
        zone_offsets(zone@, dtm.stamp()) is None ==> (r matches Err(Error::Custom(m)) && m@
            == "unknown time zone: "@ + zone@),
        zone_offsets(zone@, dtm.stamp()) matches Some(LocalOffsets::Single(o)) ==> r == Ok::<
            ZonedDateTime,
            Error,
        >(ZonedDateTime { local: dtm, offset: o }),
        zone_offsets(zone@, dtm.stamp()) matches Some(LocalOffsets::Ambiguous(e, _)) ==> (
        policy == DstPolicy::Adjust ==> r == Ok::<ZonedDateTime, Error>(
            ZonedDateTime { local: dtm, offset: e },
        )),
        policy == DstPolicy::Strict ==> (zone_offsets(zone@, dtm.stamp()) matches Some(
            LocalOffsets::Ambiguous(_, _),
        ) ==> r matches Err(Error::AmbiguousLocalTime(m)) && m@ == strict_failure_text(
            dtm.stamp(),
            false,
        )),
        policy == DstPolicy::Strict ==> (zone_offsets(zone@, dtm.stamp()) matches Some(
            LocalOffsets::Gap,
        ) ==> r matches Err(Error::AmbiguousLocalTime(m)) && m@ == strict_failure_text(
            dtm.stamp(),
            true,
        )),
        policy == DstPolicy::Adjust ==> (zone_offsets(zone@, dtm.stamp()) matches Some(
            LocalOffsets::Gap,
        ) ==> (r matches Ok(z) ==> z.local.stamp() == dtm.stamp() + 3600 && gap_offset_ok(
            zone@,
            dtm.stamp() + 3600,
            z,
        ))),
{
    let (d, h, mi, s) = clock_parts(&dtm);
    match chrono_zone_offsets(zone, d, h, mi, s) {
        None => Err(Error::Custom(unknown_zone_message(zone))),
        Some(LocalOffsets::Single(o)) => Ok(ZonedDateTime { local: dtm, offset: o }),
        Some(LocalOffsets::Ambiguous(e, _)) => match policy {
            DstPolicy::Adjust => Ok(ZonedDateTime { local: dtm, offset: e }),
            DstPolicy::Strict => Err(Error::AmbiguousLocalTime(strict_failure_message(&dtm, false))),
        },
        Some(LocalOffsets::Gap) => match policy {
            DstPolicy::Strict => Err(Error::AmbiguousLocalTime(strict_failure_message(&dtm, true))),
            DstPolicy::Adjust => {
                dtm.bounds();
                let later = match dtm.add_seconds(3600) {
                    Some(t) => t,
                    None => return Err(Error::OutOfRange),
                };
                let (ld, lh, lmi, ls) = clock_parts(&later);
                match chrono_zone_offsets(zone, ld, lh, lmi, ls) {
                    Some(LocalOffsets::Single(o)) => Ok(ZonedDateTime { local: later, offset: o }),
                    Some(LocalOffsets::Ambiguous(_, l)) => Ok(ZonedDateTime { local: later, offset: l }),
                    _ => Err(Error::AmbiguousLocalTime(strict_failure_message(&dtm, true))),
                }
            },
        },
    }
}

/// Maps every date of an outcome with [`resolve_local`].
pub fn next_result_to_zone(zone: &str, next: NextResult<NaiveDateTime>, policy: DstPolicy) -> (r: Result<
    NextResult<ZonedDateTime>,
>)
    ensures
        r matches Ok(z) ==> zoned_outcome_ok(zone@, next, policy, z),
        r is Ok <==> resolves(zone@, next.actual_of(), policy) && resolves(
            zone@,
            next.observed_of(),
            policy,
        ),
{
    match next {
        NextResult::Single(t) => Ok(NextResult::Single(resolve_local(zone, t, policy)?)),
        NextResult::AdjustedEarlier(a, o) => Ok(
            NextResult::AdjustedEarlier(resolve_local(zone, a, policy)?, resolve_local(zone, o, policy)?),
        ),
        NextResult::AdjustedLater(a, o) => Ok(
            NextResult::AdjustedLater(resolve_local(zone, a, policy)?, resolve_local(zone, o, policy)?),
        ),
    }
}

/// `z` is the outcome `x` moved into the zone: same kind of outcome, each
/// of its two date-times resolved as [`resolve_local`] does.
pub open spec fn zoned_outcome_ok(
    zone: Seq<char>,
    x: NextResult<NaiveDateTime>,
    policy: DstPolicy,
    z: NextResult<ZonedDateTime>,
) -> bool {
    &&& (z is Single <==> x is Single)
    &&& (z is AdjustedLater <==> x is AdjustedLater)
    &&& resolve_local_ok(zone, x.actual_of(), policy, z.actual_of())
    &&& resolve_local_ok(zone, x.observed_of(), policy, z.observed_of())
}

/// `v` is `locals` moved into the zone, outcome by outcome.
pub open spec fn zoned_outcomes_ok(
    zone: Seq<char>,
    policy: DstPolicy,
    locals: Seq<NextResult<NaiveDateTime>>,
    v: Seq<NextResult<ZonedDateTime>>,
) -> bool {
    &&& locals.len() == v.len()
    &&& forall|i: int|
        0 <= i < locals.len() ==> zoned_outcome_ok(zone, #[trigger] locals[i], policy, v[i])
}

/// `z` is what [`resolve_local`] gives for `local`, when it succeeds: same
/// local time with its unique offset, or the adjustment of a gap or of an
/// overlap.
pub open spec fn resolve_local_ok(zone: Seq<char>, local: NaiveDateTime, policy: DstPolicy, z: ZonedDateTime) -> bool {
    match zone_offsets(zone, local.stamp()) {
        Some(LocalOffsets::Single(o)) => z == ZonedDateTime { local, offset: o },
        Some(LocalOffsets::Ambiguous(e, _)) => policy == DstPolicy::Adjust && z == ZonedDateTime { local, offset: e },
        Some(LocalOffsets::Gap) => policy == DstPolicy::Adjust && z.local.stamp() == local.stamp()
            + 3600 && gap_offset_ok(zone, local.stamp() + 3600, z),
        None => false,
    }
}

} // verus!
