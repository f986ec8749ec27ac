//! Recurrence schedules described by small date, time and date-time spec
//! strings, with business-day adjustment and verified iteration.

pub mod biz_day;
pub mod builder;
pub mod calendar;
pub mod date;
pub mod datetime;
pub mod error;
pub mod next_result;
pub mod text;
pub mod time;
pub mod trigger;
pub mod utils;
pub mod zone;

pub use calendar::{NaiveDateTime, Weekday, WeekdayStartingMonday};
pub use error::{Error, Result};
pub use next_result::{DstPolicy, NextResult};
