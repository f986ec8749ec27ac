//! Errors of parsing and iterating schedules.

use vstd::prelude::*;

verus! {

/// Every failure that the library reports.
#[derive(Clone, Debug, PartialEq, Eq)]
pub enum Error {
    /// A date spec that does not follow the date spec grammar.
    InvalidDateSpec(String),
    /// A time spec that does not follow the time spec grammar.
    InvalidTimeSpec(String),
    /// A date-time spec that cannot be read.
    InvalidDateTimeSpec(String),
    /// A spec text without the parts it must have (a date-time spec
    /// without its `T` separator).
    ParseError(String),
    /// An end spec that yields no end date-time.
    InvalidEndSpec,
    /// A schedule whose next occurrence could not be found.
    IteratorNotConverged,
    /// A local time that does not map to exactly one instant under the
    /// strict daylight-saving policy.
    AmbiguousLocalTime(String),
    /// A date-time that would leave the supported calendar.
    OutOfRange,
    /// Any other failure.
    Custom(String),
}

/// The library's result type.
pub type Result<T> = core::result::Result<T, Error>;

} // verus!
