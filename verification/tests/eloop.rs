use eloop::commands::{
    apply_response, configure, credentials_for_update, load_config_key, save_config_key, summary,
    summary_line, ConfigError, MissingKey,
};
use eloop::date::Date;
use eloop::digits::parse_u32;
use eloop::dto::{DayValue, MonthEntry, ParsedProfit, PersonalResponse, ProfitData, ProfitDay};
use eloop::format::format_amount;
use eloop::normalize::split_month_key;
use eloop::store::{ConfigTable, Database, ProfitTable};
use eloop::NormalizeError;

fn day_value(day: &str, value: i64) -> DayValue {
    DayValue { day: day.to_string(), value }
}

fn month(key: &str, net: Vec<DayValue>, rev: Vec<DayValue>) -> MonthEntry {
    MonthEntry {
        month_key: key.to_string(),
        net_profit: ProfitData { data: net },
        revenue: ProfitData { data: rev },
    }
}

fn date(y: u32, m: u32, d: u32) -> Date {
    Date::new(y, m, d).unwrap()
}

#[test]
fn config_set_then_get_returns_value() {
    let mut t = ConfigTable::new();
    t.set("api-key".to_string(), "k1".to_string());
    assert_eq!(t.get("api-key").unwrap().as_str(), "k1");
}

#[test]
fn config_second_set_updates_in_place() {
    let mut t = ConfigTable::new();
    t.set("api-key".to_string(), "first".to_string());
    t.set("api-key".to_string(), "second".to_string());
    assert_eq!(t.get("api-key").unwrap().as_str(), "second");
    assert_eq!(t.rows.len(), 1, "no duplicate key rows may exist");
}

#[test]
fn config_get_missing_key_is_none() {
    let t = ConfigTable::new();
    assert!(t.get("api-key").is_none());
}

#[test]
fn save_then_load_config_key_roundtrip() {
    let mut db = Database::new();
    save_config_key(&mut db, "session-token".to_string(), "tok".to_string());
    assert_eq!(load_config_key(&db, "session-token").unwrap(), "tok");
    assert_eq!(load_config_key(&db, "api-key"), Err(ConfigError::NotFound));
}

#[test]
fn normalize_single_month_yields_one_record_per_metric() {
    let resp = PersonalResponse {
        result: vec![month(
            "2024-03",
            vec![day_value("15", 12345)],
            vec![day_value("15", 12345)],
        )],
    };
    let parsed = ParsedProfit::parse(&resp).unwrap();
    assert_eq!(parsed.revenue.len(), 1);
    assert_eq!(parsed.revenue[0], ProfitDay { date: date(2024, 3, 15), value: 12345 });
    assert_eq!(parsed.net_profit.len(), 1);
    assert_eq!(parsed.net_profit[0], ProfitDay { date: date(2024, 3, 15), value: 12345 });
}

#[test]
fn normalize_empty_response_is_empty() {
    let resp = PersonalResponse { result: vec![] };
    let parsed = ParsedProfit::parse(&resp).unwrap();
    assert!(parsed.revenue.is_empty());
    assert!(parsed.net_profit.is_empty());
}

#[test]
fn normalize_month_key_without_dash_fails() {
    let resp = PersonalResponse { result: vec![month("202403", vec![], vec![])] };
    assert_eq!(ParsedProfit::parse(&resp).unwrap_err(), NormalizeError::BadMonthKey);
}

#[test]
fn normalize_month_key_with_second_dash_fails() {
    let resp = PersonalResponse {
        result: vec![month("2024-03-05", vec![], vec![day_value("1", 1)])],
    };
    assert_eq!(ParsedProfit::parse(&resp).unwrap_err(), NormalizeError::BadMonthKey);
}

#[test]
fn normalize_day_not_an_integer_fails() {
    let resp = PersonalResponse {
        result: vec![month("2024-03", vec![], vec![day_value("1x", 100)])],
    };
    assert_eq!(ParsedProfit::parse(&resp).unwrap_err(), NormalizeError::BadDay);
}

#[test]
fn normalize_invalid_calendar_date_fails() {
    let resp = PersonalResponse {
        result: vec![month("2024-02", vec![], vec![day_value("30", 100)])],
    };
    assert_eq!(ParsedProfit::parse(&resp).unwrap_err(), NormalizeError::InvalidDate);
}

#[test]
fn failed_normalization_inserts_nothing() {
    let mut db = Database::new();
    let resp = PersonalResponse {
        result: vec![month(
            "2024-02",
            vec![day_value("1", 7)],
            vec![day_value("28", 5), day_value("30", 100)],
        )],
    };
    let r = apply_response(&mut db, &resp);
    assert_eq!(r, Err(NormalizeError::InvalidDate));
    assert!(db.revenues.rows.is_empty());
    assert!(db.net_profits.rows.is_empty());
}

#[test]
fn reinserting_a_day_keeps_the_stored_value() {
    let mut t = ProfitTable::new();
    t.insert_or_ignore(ProfitDay { date: date(2024, 3, 15), value: 100 });
    t.insert_or_ignore(ProfitDay { date: date(2024, 3, 15), value: 200 });
    assert_eq!(t.rows.len(), 1);
    assert_eq!(t.rows[0].value, 100);
}

#[test]
fn second_update_only_fills_gaps() {
    let mut db = Database::new();
    let first = PersonalResponse {
        result: vec![month("2024-03", vec![], vec![day_value("15", 100)])],
    };
    apply_response(&mut db, &first).unwrap();
    let second = PersonalResponse {
        result: vec![month("2024-03", vec![], vec![day_value("15", 999), day_value("16", 50)])],
    };
    apply_response(&mut db, &second).unwrap();
    assert_eq!(db.revenues.rows.len(), 2);
    assert_eq!(db.revenues.rows[0], ProfitDay { date: date(2024, 3, 15), value: 100 });
    assert_eq!(db.revenues.rows[1], ProfitDay { date: date(2024, 3, 16), value: 50 });
}

#[test]
fn summary_of_empty_table_is_absent_not_zero() {
    let db = Database::new();
    assert_eq!(summary(&db), None);
    assert_eq!(summary_line(&db), None);
}

#[test]
fn summary_sums_revenues_to_two_decimals() {
    let mut db = Database::new();
    db.revenues.insert_or_ignore(ProfitDay { date: date(2024, 3, 15), value: 1000 });
    db.revenues.insert_or_ignore(ProfitDay { date: date(2024, 3, 16), value: 550 });
    assert_eq!(summary(&db), Some(1550));
    assert_eq!(summary_line(&db).unwrap(), "Revenue: € 15.50");
}

#[test]
fn summary_ignores_net_profit_table() {
    let mut db = Database::new();
    db.net_profits.insert_or_ignore(ProfitDay { date: date(2024, 3, 15), value: 1000 });
    assert_eq!(summary(&db), None);
}

#[test]
fn update_without_session_token_fails_before_fetch() {
    let mut db = Database::new();
    save_config_key(&mut db, "api-key".to_string(), "k".to_string());
    assert_eq!(credentials_for_update(&db).unwrap_err(), MissingKey::SessionToken);
}

#[test]
fn update_without_api_key_fails_before_fetch() {
    let mut db = Database::new();
    save_config_key(&mut db, "session-token".to_string(), "t".to_string());
    assert_eq!(credentials_for_update(&db).unwrap_err(), MissingKey::RestApiKey);
}

#[test]
fn update_with_both_keys_gets_credentials() {
    let mut db = Database::new();
    save_config_key(&mut db, "session-token".to_string(), "t".to_string());
    save_config_key(&mut db, "api-key".to_string(), "k".to_string());
    let c = credentials_for_update(&db).unwrap();
    assert_eq!(c.session_token, "t");
    assert_eq!(c.rest_api_key, "k");
}

#[test]
fn configure_sets_only_provided_flags() {
    let mut db = Database::new();
    configure(&mut db, Some("k".to_string()), None);
    assert_eq!(load_config_key(&db, "api-key").unwrap(), "k");
    assert_eq!(load_config_key(&db, "session-token"), Err(ConfigError::NotFound));
    configure(&mut db, None, Some("t".to_string()));
    assert_eq!(load_config_key(&db, "api-key").unwrap(), "k");
    assert_eq!(load_config_key(&db, "session-token").unwrap(), "t");
}

#[test]
fn format_amount_writes_two_decimals() {
    assert_eq!(format_amount(0), "0.00");
    assert_eq!(format_amount(5), "0.05");
    assert_eq!(format_amount(50), "0.50");
    assert_eq!(format_amount(1550), "15.50");
    assert_eq!(format_amount(12345), "123.45");
    assert_eq!(format_amount(-7), "-0.07");
    assert_eq!(format_amount(-123456), "-1234.56");
}

#[test]
fn parse_u32_accepts_exactly_decimal_numbers() {
    assert_eq!(parse_u32("0"), Some(0));
    assert_eq!(parse_u32("007"), Some(7));
    assert_eq!(parse_u32("4294967295"), Some(u32::MAX));
    assert_eq!(parse_u32("4294967296"), None);
    assert_eq!(parse_u32(""), None);
    assert_eq!(parse_u32("12a"), None);
    assert_eq!(parse_u32("-1"), None);
    assert_eq!(parse_u32("+1"), None);
}

#[test]
fn split_month_key_splits_at_first_dash() {
    assert_eq!(split_month_key("2024-03"), Some((2024, 3)));
    assert_eq!(split_month_key("202403"), None);
    assert_eq!(split_month_key("-03"), None);
    assert_eq!(split_month_key("2024-"), None);
    assert_eq!(split_month_key("2024-03-05"), None);
}

#[test]
fn date_validity_follows_the_calendar() {
    assert!(Date::new(2024, 2, 29).is_some(), "leap year");
    assert!(Date::new(2023, 2, 29).is_none());
    assert!(Date::new(1900, 2, 29).is_none(), "century is no leap year");
    assert!(Date::new(2000, 2, 29).is_some(), "fourth century is");
    assert!(Date::new(2024, 4, 31).is_none());
    assert!(Date::new(2024, 13, 1).is_none());
    assert!(Date::new(2024, 0, 1).is_none());
    assert!(Date::new(2024, 1, 0).is_none());
    assert!(Date::new(2024, 12, 31).is_some());
}
