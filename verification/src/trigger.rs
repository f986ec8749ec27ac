//! The decisions of a scheduler: where a schedule starts, and how long to
//! wait before a tick fires.

use chrono::{Datelike, Timelike};
use vstd::prelude::*;

use crate::calendar::{NaiveDateTime, MAX_DAY, MIN_DAY};
use crate::datetime::iter::{day_first_defined, day_first_tick, day_first_time, tick};
use crate::time::iter::{time_step, time_step_defined};
use crate::time::spec::{clock_valid, parse_time_text, Spec as TimeSpec};

verus! {

/// Milliseconds to wait, at `now_ms`, before firing at `fire_at_ms` (both
/// milliseconds since the epoch): none once the time has come.
pub fn delay_millis(fire_at_ms: i64, now_ms: i64) -> (r: u64)
    ensures
        fire_at_ms > now_ms ==> r == fire_at_ms - now_ms,
        fire_at_ms <= now_ms ==> r == 0,
{
    if fire_at_ms > now_ms {
        (fire_at_ms as i128 - now_ms as i128) as u64
    } else {
        0
    }
}

/// The UTC instant that an RFC 3339 date-time text denotes, as its day
/// number and second of the day; `None` for a text that is not one.
pub uninterp spec fn rfc3339_instant(s: Seq<char>) -> Option<(int, int)>;

/// `chrono::DateTime::parse_from_rfc3339`, read in UTC as the day number
/// and second of the day. The contract names the result; chrono's dates all
/// lie in the calendar.
#[verifier::external_body]
fn chrono_parse_rfc3339(s: &str) -> (r: Option<(i32, u32)>)
    ensures
        r is None <==> rfc3339_instant(s@) is None,
        r matches Some((d, t)) ==> rfc3339_instant(s@) == Some((d as int, t as int)) && MIN_DAY <= d
            <= MAX_DAY && t < 86400,
{
    let u = chrono::DateTime::parse_from_rfc3339(s).ok()?.naive_utc();
    Some((u.date().num_days_from_ce(), u.time().num_seconds_from_midnight()))
}

/// The first occurrence of a time spec strictly after `now`: its next time
/// when that lies later, else its first time on the following day; `None`
/// when neither stays within the calendar and after `now`.
pub open spec fn next_start_after(sp: TimeSpec, now: NaiveDateTime) -> Option<int> {
    if time_step_defined(sp, now.stamp()) && time_step(sp, now.stamp()) > now.stamp() {
        Some(time_step(sp, now.stamp()))
    } else if now.day() < MAX_DAY && day_first_defined(sp, now.day() + 1) && day_first_time(
        sp,
        now.day() + 1,
    ) > now.stamp() {
        Some(day_first_time(sp, now.day() + 1))
    } else {
        None
    }
}

/// Where a schedule starts, in UTC: the instant of an RFC 3339 date-time;
/// else, for a time spec that names times of day, its first occurrence
/// strictly after `now` (on the following day when today's has passed);
/// else `now`.
pub fn resolve_start(s: &str, now: NaiveDateTime) -> (r: NaiveDateTime)
    ensures
        rfc3339_instant(s@) matches Some((d, t)) ==> r.day() == d && r.sod() == t,
        rfc3339_instant(s@) is None ==> match parse_time_text(vstd::utf8::encode_utf8(s@)) {
            Some(sp) => if clock_valid(sp) && next_start_after(sp, now) is Some {
                r.stamp() == next_start_after(sp, now)->0
            } else {
                r == now
            },
            None => r == now,
        },
{
    if let Some((d, t)) = chrono_parse_rfc3339(s) {
        return NaiveDateTime::from_day_and_secs(d, t);
    }
    let sp = match TimeSpec::parse(s) {
        Ok(sp) => sp,
        Err(_) => return now,
    };
    if !sp.is_clock_valid() {
        return now;
    }
    if let Ok(t) = tick(&sp, &now) {
        if now.is_before(&t) {
            return t;
        }
    }
    let d = now.day_number();
    if d < MAX_DAY {
        if let Some(t) = day_first_tick(&sp, d + 1) {
            if now.is_before(&t) {
                return t;
            }
        }
    }
    now
}

} // verus!
