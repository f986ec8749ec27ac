//! Date-time recurrence: a date spec picks the days, a time spec the
//! times within each of them.

pub mod builder;
pub mod iter;
pub mod spec;

pub use builder::{SpecIterator, SpecIteratorBuilder};
pub use crate::builder::{EndDateTime, EndSpec, NoEnd, NoStart, NotSealed, Sealed, StartDateTime};
pub use iter::NaiveSpecIterator;
pub use spec::Spec;
