//! The outcome of one scheduling step and the daylight-saving policy.

use vstd::prelude::*;

verus! {

/// How a local date-time that falls in a daylight-saving transition is
/// mapped to an instant.
#[derive(Debug, Clone, Copy, PartialEq, Eq, Structural)]
pub enum DstPolicy {
    /// Resolve silently: a time in a spring-forward gap is moved one hour
    /// later, an ambiguous fall-back time takes the earlier instant.
    Adjust,
    /// Report [`crate::Error::AmbiguousLocalTime`] instead.
    Strict,
}

impl Default for DstPolicy {
    fn default() -> (r: DstPolicy)
        ensures
            r == DstPolicy::Adjust,
    {
        DstPolicy::Adjust
    }
}

/// Outcome of one scheduling step: the raw calendar date and, when a
/// business-day rule moved it, the settlement date.
#[derive(Debug, Clone, PartialEq)]
pub enum NextResult<T> {
    /// No adjustment: the raw date is the settlement date.
    Single(T),
    /// The settlement date (second) is later than the raw date (first).
    AdjustedLater(T, T),
    /// The settlement date (second) is earlier than the raw date (first).
    AdjustedEarlier(T, T),
}

impl<T> NextResult<T> {
    /// The raw calendar date.
    pub open spec fn actual_of(self) -> T {
        match self {
            NextResult::Single(t) => t,
            NextResult::AdjustedLater(a, _) => a,
            NextResult::AdjustedEarlier(a, _) => a,
        }
    }

    /// The settlement date.
    pub open spec fn observed_of(self) -> T {
        match self {
            NextResult::Single(t) => t,
            NextResult::AdjustedLater(_, o) => o,
            NextResult::AdjustedEarlier(_, o) => o,
        }
    }

    /// Returns the inner value of a [`NextResult::Single`], otherwise `None`.
    /// The settlement date when it moved earlier, the raw date otherwise.
    pub open spec fn earlier_of(self) -> T {
        match self {
            NextResult::AdjustedEarlier(_, o) => o,
            _ => self.actual_of(),
        }
    }

    /// The settlement date when it moved later, the raw date otherwise.
    pub open spec fn later_of(self) -> T {
        match self {
            NextResult::AdjustedLater(_, o) => o,
            _ => self.actual_of(),
        }
    }

    pub fn single(self) -> (r: Option<T>)
        ensures
            r == (match self {
                NextResult::Single(t) => Some(t),
                _ => None,
            }),
    {
        match self {
            NextResult::Single(t) => Some(t),
            _ => None,
        }
    }

    /// The chronologically earlier of the two dates: the settlement date
    /// when it moved earlier, the raw date otherwise.
    pub fn earlier(&self) -> (r: &T)
        ensures
            *r == self.earlier_of(),
    {
        match self {
            NextResult::Single(t) => t,
            NextResult::AdjustedEarlier(_, t) => t,
            NextResult::AdjustedLater(t, _) => t,
        }
    }

    /// The chronologically later of the two dates: the settlement date when
    /// it moved later, the raw date otherwise.
    pub fn later(&self) -> (r: &T)
        ensures
            *r == self.later_of(),
    {
        match self {
            NextResult::Single(t) => t,
            NextResult::AdjustedEarlier(t, _) => t,
            NextResult::AdjustedLater(_, t) => t,
        }
    }

    /// The settlement (post-adjustment) date.
    pub fn observed(&self) -> (r: &T)
        ensures
            *r == self.observed_of(),
    {
        match self {
            NextResult::Single(t) => t,
            NextResult::AdjustedEarlier(_, t) => t,
            NextResult::AdjustedLater(_, t) => t,
        }
    }

    /// The raw calendar date before any business-day adjustment.
    pub fn actual(&self) -> (r: &T)
        ensures
            *r == self.actual_of(),
    {
        match self {
            NextResult::Single(t) => t,
            NextResult::AdjustedEarlier(t, _) => t,
            NextResult::AdjustedLater(t, _) => t,
        }
    }

    /// `(actual, observed)`.
    pub fn as_tuple(&self) -> (r: (&T, &T))
        ensures
            *r.0 == self.actual_of(),
            *r.1 == self.observed_of(),
    {
        match self {
            NextResult::Single(t) => (t, t),
            NextResult::AdjustedEarlier(a, o) => (a, o),
            NextResult::AdjustedLater(a, o) => (a, o),
        }
    }
}

/// An outcome is in the order its kind names under the strict order `lt`:
/// the observed date before the raw one for `AdjustedEarlier`, after it
/// for `AdjustedLater`.
pub open spec fn in_order_by<T>(r: NextResult<T>, lt: spec_fn(T, T) -> bool) -> bool {
    match r {
        NextResult::Single(_) => true,
        NextResult::AdjustedEarlier(a, o) => lt(o, a),
        NextResult::AdjustedLater(a, o) => lt(a, o),
    }
}

/// For any strict order `lt` on the dates (irreflexive and asymmetric),
/// and an outcome in the order its kind names, `earlier` is the smaller of
/// its two dates and `later` the larger: each is one of the two, and no
/// date of the outcome lies before `earlier` or after `later`.
pub proof fn law_earlier_is_min_later_is_max<T>(r: NextResult<T>, lt: spec_fn(T, T) -> bool)
    requires
        forall|x: T| !#[trigger] lt(x, x),
        forall|x: T, y: T| #[trigger] lt(x, y) ==> !lt(y, x),
        in_order_by(r, lt),
    ensures
        r.earlier_of() == r.actual_of() || r.earlier_of() == r.observed_of(),
        r.later_of() == r.actual_of() || r.later_of() == r.observed_of(),
        !lt(r.actual_of(), r.earlier_of()) && !lt(r.observed_of(), r.earlier_of()),
        !lt(r.later_of(), r.actual_of()) && !lt(r.later_of(), r.observed_of()),
        !lt(r.later_of(), r.earlier_of()),
{
    match r {
        NextResult::Single(t) => {
            assert(!lt(t, t));
        },
        NextResult::AdjustedEarlier(a, o) => {
            assert(!lt(a, o));
            assert(!lt(o, o));
            assert(!lt(a, a));
        },
        NextResult::AdjustedLater(a, o) => {
            assert(!lt(o, a));
            assert(!lt(a, a));
            assert(!lt(o, o));
        },
    }
}

} // verus!
