use vstd::prelude::*;
use crate::NormalizeError;
use crate::date::{Date, valid_ymd};
use crate::digits::{parses_as_u32, digits_value, parse_u32};
use crate::dto::{DayValue, MonthEntry, PersonalResponse, ProfitDay, ParsedProfit};

verus! {

/// Index of the first `'-'` in the sequence, or its length if there is none.
pub open spec fn first_dash(s: Seq<char>) -> int
    decreases s.len(),
{
    if s.len() == 0 {
        0
    } else if s[0] == '-' {
        0
    } else {
        1 + first_dash(s.drop_first())
    }
}

pub proof fn lemma_first_dash_found(s: Seq<char>, i: int)
    requires
        0 <= i < s.len(),
        s[i] == '-',
        forall|j: int| 0 <= j < i ==> s[j] != '-',
    ensures
        first_dash(s) == i,
    decreases i,
{
    if i > 0 {
        assert(s.drop_first()[i - 1] == s[i]);
        assert(forall|j: int| 0 <= j < i - 1 ==> s.drop_first()[j] == s[j + 1]);
        lemma_first_dash_found(s.drop_first(), i - 1);
    }
}

pub proof fn lemma_first_dash_absent(s: Seq<char>)
    requires
        forall|j: int| 0 <= j < s.len() ==> s[j] != '-',
    ensures
        first_dash(s) == s.len(),
    decreases s.len(),
{
    if s.len() > 0 {
        assert(forall|j: int| 0 <= j < s.len() - 1 ==> s.drop_first()[j] == s[j + 1]);
        lemma_first_dash_absent(s.drop_first());
    }
}

/// The month key splits at its first `'-'` into a year part and a month
/// part, both non-empty decimal numbers that fit a `u32`.
pub open spec fn month_key_ok(k: Seq<char>) -> bool {
    first_dash(k) < k.len() && parses_as_u32(k.subrange(0, first_dash(k)))
        && parses_as_u32(k.subrange(first_dash(k) + 1, k.len() as int))
}

/// The year a month key denotes (meaningful when `month_key_ok`).
pub open spec fn key_year(k: Seq<char>) -> int {
    digits_value(k.subrange(0, first_dash(k)))
}

/// The month-of-year a month key denotes (meaningful when `month_key_ok`).
pub open spec fn key_month(k: Seq<char>) -> int {
    digits_value(k.subrange(first_dash(k) + 1, k.len() as int))
}

/// What, if anything, is wrong with one day entry under year `y`, month `m`:
/// a day string that is not a decimal number, or components that do not
/// name a calendar date.
pub open spec fn day_entry_error(y: int, m: int, d: Seq<char>) -> Option<NormalizeError> {
    if !parses_as_u32(d) {
        Some(NormalizeError::BadDay)
    } else if !valid_ymd(y, m, digits_value(d)) {
        Some(NormalizeError::InvalidDate)
    } else {
        None
    }
}

/// The record one well-formed day entry flattens to.
pub open spec fn day_record(y: int, m: int, e: DayValue) -> ProfitDay {
    ProfitDay {
        date: Date { year: y as u32, month: m as u32, day: digits_value(e.day@) as u32 },
        value: e.value,
    }
}

/// First failure among a metric's day entries, in listed order.
pub open spec fn days_error(y: int, m: int, ds: Seq<DayValue>) -> Option<NormalizeError>
    decreases ds.len(),
{
    if ds.len() == 0 {
        None
    } else {
        match day_entry_error(y, m, ds[0].day@) {
            Some(e) => Some(e),
            None => days_error(y, m, ds.drop_first()),
        }
    }
}

/// The records a metric's day entries flatten to, in listed order
/// (meaningful when `days_error` is `None`).
pub open spec fn days_records(y: int, m: int, ds: Seq<DayValue>) -> Seq<ProfitDay>
    decreases ds.len(),
{
    if ds.len() == 0 {
        Seq::empty()
    } else {
        days_records(y, m, ds.drop_last()) + seq![day_record(y, m, ds.last())]
    }
}

/// First failure within one month entry: its key, then its net-profit
/// days, then its revenue days.
pub open spec fn month_error(e: MonthEntry) -> Option<NormalizeError> {
    if !month_key_ok(e.month_key@) {
        Some(NormalizeError::BadMonthKey)
    } else {
        match days_error(key_year(e.month_key@), key_month(e.month_key@), e.net_profit.data@) {
            Some(err) => Some(err),
            None => days_error(key_year(e.month_key@), key_month(e.month_key@), e.revenue.data@),
        }
    }
}

/// First failure in the whole response, in listed order of its months.
pub open spec fn response_error(ms: Seq<MonthEntry>) -> Option<NormalizeError>
    decreases ms.len(),
{
    if ms.len() == 0 {
        None
    } else {
        match month_error(ms[0]) {
            Some(err) => Some(err),
            None => response_error(ms.drop_first()),
        }
    }
}

/// One month's net-profit records (meaningful when `month_error` is `None`).
pub open spec fn month_net(e: MonthEntry) -> Seq<ProfitDay> {
    days_records(key_year(e.month_key@), key_month(e.month_key@), e.net_profit.data@)
}

/// One month's revenue records (meaningful when `month_error` is `None`).
pub open spec fn month_rev(e: MonthEntry) -> Seq<ProfitDay> {
    days_records(key_year(e.month_key@), key_month(e.month_key@), e.revenue.data@)
}

/// All net-profit records of the response, months in listed order.
pub open spec fn response_net(ms: Seq<MonthEntry>) -> Seq<ProfitDay>
    decreases ms.len(),
{
    if ms.len() == 0 {
        Seq::empty()
    } else {
        response_net(ms.drop_last()) + month_net(ms.last())
    }
}

/// All revenue records of the response, months in listed order.
pub open spec fn response_rev(ms: Seq<MonthEntry>) -> Seq<ProfitDay>
    decreases ms.len(),
{
    if ms.len() == 0 {
        Seq::empty()
    } else {
        response_rev(ms.drop_last()) + month_rev(ms.last())
    }
}

/// Split a raw month key at its first `'-'` and parse both parts:
/// `Some` exactly when the key is well-formed.
pub fn split_month_key(k: &str) -> (r: Option<(u32, u32)>)
    ensures
        match r {
            Some(p) => month_key_ok(k@) && p.0 == key_year(k@) && p.1 == key_month(k@),
            None => !month_key_ok(k@),
        },
{
    let n = k.unicode_len();
    let mut i: usize = 0;
    while i < n
        invariant
            i <= n == k@.len(),
            forall|j: int| 0 <= j < i ==> k@[j] != '-',
        decreases n - i,
    {
        if k.get_char(i) == '-' {
            proof {
                lemma_first_dash_found(k@, i as int);
            }
            let year_s = k.substring_char(0, i);
            let month_s = k.substring_char(i + 1, n);
            return match (parse_u32(year_s), parse_u32(month_s)) {
                (Some(y), Some(m)) => Some((y, m)),
                _ => None,
            };
        }
        i = i + 1;
    }
    proof {
        lemma_first_dash_absent(k@);
    }
    None
}

impl ParsedProfit {
    /// Flatten a remote response into one dated record per day entry, per
    /// metric. Returns the first failure, in listed order, if any month key
    /// or day entry is malformed or names no calendar date; on success the
    /// two lists are exactly the response's entries, flattened in order.
    pub fn parse(resp: &PersonalResponse) -> (r: Result<ParsedProfit, NormalizeError>)
        ensures
            match r {
                Ok(p) => response_error(resp.result@) is None
                    && p.net_profit@ == response_net(resp.result@)
                    && p.revenue@ == response_rev(resp.result@),
                Err(e) => response_error(resp.result@) == Some(e),
            },
    {
        let ghost ms = resp.result@;
        let mut net: Vec<ProfitDay> = Vec::new();
        let mut rev: Vec<ProfitDay> = Vec::new();
        let mut i: usize = 0;
        proof {
            assert(ms.skip(0) =~= ms);
        }
        while i < resp.result.len()
            invariant
                i <= resp.result.len(),
                ms == resp.result@,
                response_error(ms) == response_error(ms.skip(i as int)),
                net@ == response_net(ms.take(i as int)),
                rev@ == response_rev(ms.take(i as int)),
            decreases resp.result.len() - i,
        {
            let entry = &resp.result[i];
            let ghost suffix = ms.skip(i as int);
            proof {
                assert(suffix[0] == ms[i as int]);
            }
            let (y, m) = match split_month_key(entry.month_key.as_str()) {
                Some(p) => p,
                None => {
                    return Err(NormalizeError::BadMonthKey);
                },
            };
            let ghost yy = key_year(entry.month_key@);
            let ghost mm = key_month(entry.month_key@);
            // Net-profit days of this month.
            let data = &entry.net_profit.data;
            let ghost ds = data@;
            let mut j: usize = 0;
            proof {
                assert(ds.skip(0) =~= ds);
            }
            while j < data.len()
                invariant
                    j <= data.len(),
                    i < ms.len(),
                    ms == resp.result@,
                    ds == data@,
                    ds == ms[i as int].net_profit.data@,
                    y == yy,
                    m == mm,
                    month_key_ok(ms[i as int].month_key@),
                    yy == key_year(ms[i as int].month_key@),
                    mm == key_month(ms[i as int].month_key@),
                    response_error(ms) == response_error(ms.skip(i as int)),
                    days_error(yy, mm, ds) == days_error(yy, mm, ds.skip(j as int)),
                    net@ == response_net(ms.take(i as int)) + days_records(yy, mm, ds.take(j as int)),
                decreases data.len() - j,
            {
                let e = &data[j];
                let ghost dsuf = ds.skip(j as int);
                proof {
                    assert(dsuf[0] == ds[j as int]);
                    assert(dsuf.drop_first() =~= ds.skip(j + 1));
                }
                let d = match parse_u32(e.day.as_str()) {
                    Some(d) => d,
                    None => {
                        proof {
                            assert(days_error(yy, mm, dsuf) == Some(NormalizeError::BadDay));
                            assert(month_error(ms[i as int]) == Some(NormalizeError::BadDay));
                            assert(ms.skip(i as int)[0] == ms[i as int]);
                            assert(response_error(ms.skip(i as int)) == Some(NormalizeError::BadDay));
                        }
                        return Err(NormalizeError::BadDay);
                    },
                };
                let date = match Date::new(y, m, d) {
                    Some(date) => date,
                    None => {
                        proof {
                            assert(days_error(yy, mm, dsuf) == Some(NormalizeError::InvalidDate));
                            assert(month_error(ms[i as int]) == Some(NormalizeError::InvalidDate));
                            assert(ms.skip(i as int)[0] == ms[i as int]);
                            assert(response_error(ms.skip(i as int)) == Some(NormalizeError::InvalidDate));
                        }
                        return Err(NormalizeError::InvalidDate);
                    },
                };
                net.push(ProfitDay { date, value: e.value });
                proof {
                    assert(ds.take(j + 1).drop_last() =~= ds.take(j as int));
                    assert(ds.take(j + 1).last() == ds[j as int]);
                    assert(net@ =~= response_net(ms.take(i as int)) + days_records(yy, mm, ds.take(j + 1)));
                }
                j = j + 1;
            }
            proof {
                assert(ds.skip(ds.len() as int) =~= Seq::<DayValue>::empty());
                assert(ds.take(ds.len() as int) =~= ds);
                assert(days_error(yy, mm, ds) is None);
            }
            // Revenue days of this month.
            let rdata = &entry.revenue.data;
            let ghost rds = rdata@;
            let mut j: usize = 0;
            proof {
                assert(rds.skip(0) =~= rds);
            }
            while j < rdata.len()
                invariant
                    j <= rdata.len(),
                    i < ms.len(),
                    ms == resp.result@,
                    rds == rdata@,
                    rds == ms[i as int].revenue.data@,
                    y == yy,
                    m == mm,
                    month_key_ok(ms[i as int].month_key@),
                    yy == key_year(ms[i as int].month_key@),
                    mm == key_month(ms[i as int].month_key@),
                    days_error(yy, mm, ms[i as int].net_profit.data@) is None,
                    response_error(ms) == response_error(ms.skip(i as int)),
                    days_error(yy, mm, rds) == days_error(yy, mm, rds.skip(j as int)),
                    rev@ == response_rev(ms.take(i as int)) + days_records(yy, mm, rds.take(j as int)),
                decreases rdata.len() - j,
            {
                let e = &rdata[j];
                let ghost dsuf = rds.skip(j as int);
                proof {
                    assert(dsuf[0] == rds[j as int]);
                    assert(dsuf.drop_first() =~= rds.skip(j + 1));
                }
                let d = match parse_u32(e.day.as_str()) {
                    Some(d) => d,
                    None => {
                        proof {
                            assert(days_error(yy, mm, dsuf) == Some(NormalizeError::BadDay));
                            assert(month_error(ms[i as int]) == Some(NormalizeError::BadDay));
                            assert(ms.skip(i as int)[0] == ms[i as int]);
                            assert(response_error(ms.skip(i as int)) == Some(NormalizeError::BadDay));
                        }
                        return Err(NormalizeError::BadDay);
                    },
                };
                let date = match Date::new(y, m, d) {
                    Some(date) => date,
                    None => {
                        proof {
                            assert(days_error(yy, mm, dsuf) == Some(NormalizeError::InvalidDate));
                            assert(month_error(ms[i as int]) == Some(NormalizeError::InvalidDate));
                            assert(ms.skip(i as int)[0] == ms[i as int]);
                            assert(response_error(ms.skip(i as int)) == Some(NormalizeError::InvalidDate));
                        }
                        return Err(NormalizeError::InvalidDate);
                    },
                };
                rev.push(ProfitDay { date, value: e.value });
                proof {
                    assert(rds.take(j + 1).drop_last() =~= rds.take(j as int));
                    assert(rds.take(j + 1).last() == rds[j as int]);
                    assert(rev@ =~= response_rev(ms.take(i as int)) + days_records(yy, mm, rds.take(j + 1)));
                }
                j = j + 1;
            }
            proof {
                assert(rds.skip(rds.len() as int) =~= Seq::<DayValue>::empty());
                assert(rds.take(rds.len() as int) =~= rds);
                assert(days_error(yy, mm, rds) is None);
                assert(month_error(ms[i as int]) is None);
                assert(suffix.drop_first() =~= ms.skip(i + 1));
                assert(response_error(ms.skip(i + 1)) == response_error(ms));
                assert(ms.take(i + 1).drop_last() =~= ms.take(i as int));
                assert(ms.take(i + 1).last() == ms[i as int]);
                assert(net@ =~= response_net(ms.take(i + 1)));
                assert(rev@ =~= response_rev(ms.take(i + 1)));
            }
            i = i + 1;
        }
        proof {
            assert(ms.skip(ms.len() as int) =~= Seq::<MonthEntry>::empty());
            assert(ms.take(ms.len() as int) =~= ms);
        }
        Ok(ParsedProfit { net_profit: net, revenue: rev })
    }
}

} // verus!
