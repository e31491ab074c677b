use vstd::prelude::*;

pub mod duration;
pub mod formatted_date_parser;
pub mod timepoint;

pub use duration::Duration;
pub use timepoint::{DateFormat, DateFormatIndices, Day, Month, Timepoint, month_from_int, month_from_str};

verus! {
} // verus!
