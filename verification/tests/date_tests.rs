use netmeter::date::{leap_year, month_len, Date};
use netmeter::datetime::DateTime;
use netmeter::parse::{parse_date, parse_datetime};

fn d(y: u64, m: u64, day: u64) -> Date {
    Date::new(y, m, day)
}

#[test]
fn leap_years() {
    assert!(leap_year(2024));
    assert!(!leap_year(2023));
    assert!(!leap_year(1900));
    assert!(leap_year(2000));
}

#[test]
fn month_lengths() {
    assert_eq!(month_len(2024, 2), 29);
    assert_eq!(month_len(2023, 2), 28);
    assert_eq!(month_len(2024, 1), 31);
    assert_eq!(month_len(2024, 4), 30);
    assert_eq!(month_len(2024, 12), 31);
}

#[test]
fn day_index_orders_dates() {
    assert!(d(2024, 3, 15).is_before(&d(2024, 3, 16)));
    assert!(d(2024, 2, 29).is_before(&d(2024, 3, 1)));
    assert!(d(2023, 12, 31).is_before(&d(2024, 1, 1)));
    assert!(d(2024, 3, 15).is_on_or_before(&d(2024, 3, 15)));
    assert!(!d(2024, 3, 16).is_on_or_before(&d(2024, 3, 15)));
}

#[test]
fn next_and_prev_day_cross_boundaries() {
    assert_eq!(d(2024, 2, 28).next_day(), d(2024, 2, 29));
    assert_eq!(d(2024, 2, 29).next_day(), d(2024, 3, 1));
    assert_eq!(d(2024, 12, 31).next_day(), d(2025, 1, 1));
    assert_eq!(d(2024, 3, 1).prev_day(), d(2024, 2, 29));
    assert_eq!(d(2025, 1, 1).prev_day(), d(2024, 12, 31));
}

#[test]
fn add_and_sub_days() {
    assert_eq!(d(2024, 1, 1).add_days(31), d(2024, 2, 1));
    assert_eq!(d(2024, 1, 1).add_days(366), d(2025, 1, 1));
    assert_eq!(d(2024, 3, 1).sub_days(1), d(2024, 2, 29));
    assert_eq!(d(2024, 1, 1).sub_days(0), d(2024, 1, 1));
}

#[test]
fn add_months_clamps_day_of_month() {
    assert_eq!(d(2024, 1, 31).add_months(1), d(2024, 2, 29));
    assert_eq!(d(2023, 1, 31).add_months(1), d(2023, 2, 28));
    assert_eq!(d(2024, 1, 31).add_months(3), d(2024, 4, 30));
    assert_eq!(d(2024, 11, 30).add_months(2), d(2025, 1, 30));
}

#[test]
fn sub_months_clamps_day_of_month() {
    assert_eq!(d(2024, 3, 31).sub_months(1), d(2024, 2, 29));
    assert_eq!(d(2024, 1, 15).sub_months(1), d(2023, 12, 15));
    assert_eq!(d(2024, 5, 31).sub_months(1), d(2024, 4, 30));
}

#[test]
fn parses_dates() {
    assert_eq!(parse_date("2024-01-01"), Some(d(2024, 1, 1)));
    assert_eq!(parse_date("2024-02-29"), Some(d(2024, 2, 29)));
    assert_eq!(parse_date("2023-02-29"), None);
    assert_eq!(parse_date("2024-13-01"), None);
    assert_eq!(parse_date("2024-00-10"), None);
    assert_eq!(parse_date("2024-1-1"), None);
    assert_eq!(parse_date("20240101"), None);
    assert_eq!(parse_date(""), None);
    assert_eq!(parse_date("2024-01-01x"), None);
}

#[test]
fn parses_datetimes() {
    assert_eq!(
        parse_datetime("2024-03-10T23:59:59"),
        Some(DateTime::new(d(2024, 3, 10), 23, 59, 59))
    );
    assert_eq!(parse_datetime("2024-03-10 23:59:59"), None);
    assert_eq!(parse_datetime("2024-03-10T24:00:00"), None);
    assert_eq!(parse_datetime("2024-03-10T23:60:00"), None);
}

#[test]
fn datetime_arithmetic() {
    let a = DateTime::new(d(2024, 3, 10), 23, 0, 0);
    let b = a.plus_one_hour();
    assert_eq!(b, DateTime::new(d(2024, 3, 11), 0, 0, 0));
    let c = DateTime::new(d(2024, 3, 10), 10, 15, 30).floor_to_hour();
    assert_eq!(c, DateTime::new(d(2024, 3, 10), 10, 0, 0));
    let s = DateTime::new(d(2024, 3, 10), 0, 0, 0);
    let e = DateTime::new(d(2024, 3, 11), 0, 0, 15);
    assert_eq!(s.seconds_until(&e), 86415);
}
