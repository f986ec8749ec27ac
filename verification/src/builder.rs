//! Type-state markers of the iterator builders, and the current local
//! time of a zone.

use chrono::{Datelike, Timelike};
use vstd::prelude::*;

use crate::calendar::{NaiveDateTime, MAX_DAY, MIN_DAY};
use crate::error::{Error, Result};

verus! {

/// The builder has a start date-time: the first outcome.
#[derive(Debug, Clone, Copy)]
pub struct StartDateTime(pub NaiveDateTime);

/// The builder has no start: outcomes follow the cursor.
#[derive(Debug, Clone, Copy)]
pub struct NoStart;

/// The iteration ends at this date-time.
#[derive(Debug, Clone, Copy)]
pub struct EndDateTime(pub NaiveDateTime);

/// The iteration ends at the first outcome of this spec.
#[derive(Debug, Clone)]
pub struct EndSpec(pub String);

/// The iteration has no end.
#[derive(Debug, Clone, Copy)]
pub struct NoEnd;

/// The builder's bounds are complete.
#[derive(Debug, Clone, Copy)]
pub struct Sealed;

/// The builder may still receive an end.
#[derive(Debug, Clone, Copy)]
pub struct NotSealed;

/// `chrono::Utc::now()` seen in the zone so named (`chrono_tz`), as the
/// day number and the second of the day of its local date-time; `None` for
/// an unknown zone. The result depends on the clock: the contract claims
/// only that it is a date-time of the calendar, given exactly when
/// `Tz::from_str` knows the zone.
#[verifier::external_body]
fn chrono_now_local(zone: &str) -> (r: Option<(i32, u32)>)
    ensures
        r matches Some((d, s)) ==> MIN_DAY <= d <= MAX_DAY && s < 86400,
        r is Some <==> crate::zone::zone_known(zone@),
{
    let tz: chrono_tz::Tz = match zone.parse() {
        Ok(tz) => tz,
        Err(_) => return None,
    };
    let local = chrono::Utc::now().with_timezone(&tz).naive_local();
    Some((local.date().num_days_from_ce(), local.time().num_seconds_from_midnight()))
}

/// The current local date-time of the zone so named.
pub fn now_in_zone(zone: &str) -> (r: Result<NaiveDateTime>)
    ensures
        r matches Err(e) ==> (e matches Error::Custom(m) && m@ == "unknown time zone: "@ + zone@),
        r is Ok <==> crate::zone::zone_known(zone@),
{
    match chrono_now_local(zone) {
        Some((d, s)) => Ok(NaiveDateTime::from_day_and_secs(d, s)),
        None => Err(Error::Custom(crate::zone::unknown_zone_message(zone))),
    }
}

} // verus!
