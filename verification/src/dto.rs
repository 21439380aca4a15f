use vstd::prelude::*;
use crate::date::Date;

verus! {

/// One day-of-month entry of the remote payload: the day as the raw string
/// key it came under, and the metric value in euro cents.
#[derive(Debug)]
pub struct DayValue {
    pub day: String,
    pub value: i64,
}

/// One metric of one month: its per-day values, in the order the payload
/// listed them.
#[derive(Debug)]
pub struct ProfitData {
    pub data: Vec<DayValue>,
}

/// One month of the remote payload, under its raw `"<year>-<month>"` key.
#[derive(Debug)]
pub struct MonthEntry {
    pub month_key: String,
    pub net_profit: ProfitData,
    pub revenue: ProfitData,
}

/// The remote response, reduced to plain values: the months, in the order
/// the payload listed them. Transient — it exists only between fetch and
/// normalization.
#[derive(Debug)]
pub struct PersonalResponse {
    pub result: Vec<MonthEntry>,
}

/// One normalized record: a calendar date and a value in euro cents.
#[derive(Clone, Copy, Debug, PartialEq, Eq, Structural)]
pub struct ProfitDay {
    pub date: Date,
    pub value: i64,
}

/// The flattened response: one list of dated records per metric.
#[derive(Debug)]
pub struct ParsedProfit {
    pub net_profit: Vec<ProfitDay>,
    pub revenue: Vec<ProfitDay>,
}

} // verus!
