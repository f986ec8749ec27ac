//! Intra-day time recurrence driven by `HH:MM:SS` specs.

pub mod builder;
pub mod iter;
pub mod spec;

pub use builder::{SpecIterator, SpecIteratorBuilder};
pub use crate::builder::{EndDateTime, EndSpec, NoEnd, NoStart, NotSealed, Sealed, StartDateTime};
pub use iter::NaiveSpecIterator;
pub use spec::{Cycle, Spec};
