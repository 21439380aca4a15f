pub mod commands;
pub mod date;
pub mod digits;
pub mod dto;
pub mod format;
pub mod normalize;
pub mod store;

use vstd::prelude::*;

verus! {

/// A failure while turning a remote response into dated profit records.
///
/// `BadMonthKey`: a month key is not `"<year>-<month>"` with both parts
/// decimal numbers. `BadDay`: a day-of-month string is not a decimal number.
/// `InvalidDate`: the year, month and day do not name a calendar date.
#[derive(Clone, Copy, Debug, PartialEq, Eq, Structural)]
pub enum NormalizeError {
    BadMonthKey,
    BadDay,
    InvalidDate,
}

} // verus!
