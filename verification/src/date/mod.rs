//! Calendar-day recurrence driven by `<years>-<months>-<days>[~<adj>]`
//! specs.

pub mod builder;
pub mod component;
pub mod display;
pub mod iter;
pub mod laws;
pub mod parser;
pub mod spec;

pub use builder::{SpecIterator, SpecIteratorBuilder};
pub use crate::builder::{EndDateTime, EndSpec, NoEnd, NoStart, NotSealed, Sealed, StartDateTime};
pub use iter::NaiveSpecIterator;
pub use parser::parse_spec;

pub use spec::{
    BizDayAdjustment, Cycle, DayCycle, LastDayOption, NextNthDayOption, Spec,
    WeekdayOption,
};
