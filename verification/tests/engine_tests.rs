use netmeter::config::{TrafficCycleConfig, TrafficNotifyConfig};
use netmeter::cycle::CycleType;
use netmeter::date::Date;
use netmeter::datetime::DateTime;
use netmeter::engine::{
    collect_day_data, collect_hour_data, collect_second_data, corrected_delta, frist_collect,
    generate_cycle, modify_data, verify_exceeds_limit,
};
use netmeter::error::ConfigError;
use netmeter::state::{
    sort_notify_desc, CycleAppState, CycleNotifyAppState, CycleStatisticMethod,
};
use netmeter::store::{MonitorSecond, MonitorStore};

fn d(y: u64, m: u64, day: u64) -> Date {
    Date::new(y, m, day)
}

fn t(y: u64, m: u64, day: u64, h: u64, mi: u64, s: u64) -> DateTime {
    DateTime::new(d(y, m, day), h, mi, s)
}

fn sample(start: DateTime, end: DateTime, up: u64, down: u64) -> MonitorSecond {
    MonitorSecond {
        start_time: start,
        end_time: end,
        uplink_traffic_readings: 0,
        downlink_traffic_readings: 0,
        uplink_traffic_usage: up,
        downlink_traffic_usage: down,
        time_interval: start.seconds_until(&end),
        is_corrected: false,
    }
}

fn gb(n: u64) -> u64 {
    n * 1024 * 1024 * 1024
}

fn cycle_config(notify: Vec<TrafficNotifyConfig>) -> TrafficCycleConfig {
    TrafficCycleConfig {
        cycle_type: "month".to_string(),
        each: Some(1),
        traffic_reset_date: Some("2024-01-01".to_string()),
        start_date: None,
        end_date: None,
        traffic_limit: "100GB".to_string(),
        statistic_method: "sum(in,out)".to_string(),
        command: None,
        notify: if notify.is_empty() { None } else { Some(notify) },
    }
}

#[test]
fn delta_is_difference_or_reset_value() {
    assert_eq!(corrected_delta(100, 250), 150);
    assert_eq!(corrected_delta(100, 100), 0);
    // a counter that shrank was reset: the new reading is the delta
    assert_eq!(corrected_delta(250, 100), 100);
    assert_eq!(corrected_delta(u64::MAX, 0), 0);
}

#[test]
fn first_sample_is_zero_length_bootstrap() {
    let mut store = MonitorStore::new();
    let now = t(2024, 3, 15, 10, 0, 0);
    let (_, res) = collect_second_data(&None, None, &mut store, 5000, 7000, now);
    let (row, action) = res.unwrap();
    assert!(action.is_none());
    assert_eq!(row.start_time, now);
    assert_eq!(row.end_time, now);
    assert_eq!(row.uplink_traffic_usage, 0);
    assert_eq!(row.downlink_traffic_usage, 0);
    assert_eq!(row.time_interval, 0);
    assert_eq!(row.uplink_traffic_readings, 5000);
    assert_eq!(row.downlink_traffic_readings, 7000);
    assert!(!row.is_corrected);
    assert_eq!(store.seconds.len(), 1);
}

#[test]
fn second_tick_books_the_delta_and_rolls_up() {
    let mut store = MonitorStore::new();
    let t0 = t(2024, 3, 15, 10, 0, 0);
    let (_, res) = collect_second_data(&None, None, &mut store, 5000, 7000, t0);
    assert!(res.is_ok());
    let t1 = t(2024, 3, 15, 10, 0, 15);
    let (_, res) = collect_second_data(&None, None, &mut store, 6000, 7500, t1);
    let (row, _) = res.unwrap();
    assert_eq!(row.start_time, t0);
    assert_eq!(row.end_time, t1);
    assert_eq!(row.uplink_traffic_usage, 1000);
    assert_eq!(row.downlink_traffic_usage, 500);
    assert_eq!(row.time_interval, 15);
    // the hour aggregate was recomputed from both samples
    assert_eq!(store.hours.len(), 1);
    assert_eq!(store.hours[0].day, d(2024, 3, 15));
    assert_eq!(store.hours[0].hour, 10);
    assert_eq!(store.hours[0].uplink_traffic_usage, 1000);
    assert_eq!(store.hours[0].downlink_traffic_usage, 500);
    // and the day aggregate from the hour rows
    assert_eq!(store.days.len(), 1);
    assert_eq!(store.days[0].uplink_traffic_usage, 1000);
}

#[test]
fn counter_reset_books_the_new_reading() {
    let mut store = MonitorStore::new();
    let (_, res) = collect_second_data(&None, None, &mut store, 900, 800, t(2024, 3, 15, 10, 0, 0));
    assert!(res.is_ok());
    let (_, res) =
        collect_second_data(&None, None, &mut store, 40, 800, t(2024, 3, 15, 10, 0, 15));
    let (row, _) = res.unwrap();
    assert_eq!(row.uplink_traffic_usage, 40);
    assert_eq!(row.downlink_traffic_usage, 0);
}

#[test]
fn hour_rollup_rerun_yields_same_values() {
    let mut store = MonitorStore::new();
    store.create_second(sample(t(2024, 3, 10, 9, 0, 0), t(2024, 3, 10, 9, 0, 15), 100, 200));
    store.create_second(sample(t(2024, 3, 10, 9, 30, 0), t(2024, 3, 10, 9, 30, 15), 50, 60));
    store.create_second(sample(t(2024, 3, 10, 10, 0, 0), t(2024, 3, 10, 10, 0, 15), 999, 999));
    collect_hour_data(&mut store, t(2024, 3, 10, 9, 45, 0));
    let first = store.hours.clone();
    collect_hour_data(&mut store, t(2024, 3, 10, 9, 45, 0));
    assert_eq!(store.hours, first);
    assert_eq!(store.hours.len(), 1);
    assert_eq!(store.hours[0].uplink_traffic_usage, 150);
    assert_eq!(store.hours[0].downlink_traffic_usage, 260);
}

#[test]
fn day_rollup_rerun_yields_same_values() {
    let mut store = MonitorStore::new();
    store.create_second(sample(t(2024, 3, 10, 9, 0, 0), t(2024, 3, 10, 9, 0, 15), 100, 200));
    collect_hour_data(&mut store, t(2024, 3, 10, 9, 0, 0));
    collect_day_data(&mut store, d(2024, 3, 10));
    let days_first = store.days.clone();
    let seconds_first = store.seconds.clone();
    collect_day_data(&mut store, d(2024, 3, 10));
    assert_eq!(store.days, days_first);
    assert_eq!(store.seconds, seconds_first);
    assert_eq!(store.days.len(), 1);
    assert_eq!(store.days[0].uplink_traffic_usage, 100);
}

#[test]
fn day_rollup_prunes_only_before_previous_day() {
    let mut store = MonitorStore::new();
    // deleted: ended one second before 2024-03-09 00:00:00
    store.create_second(sample(t(2024, 3, 8, 23, 59, 40), t(2024, 3, 8, 23, 59, 59), 1, 1));
    // kept: ended one second after the cutoff
    store.create_second(sample(t(2024, 3, 8, 23, 59, 50), t(2024, 3, 9, 0, 0, 1), 2, 2));
    // kept: the day being rolled up
    store.create_second(sample(t(2024, 3, 10, 8, 0, 0), t(2024, 3, 10, 8, 0, 15), 3, 3));
    collect_hour_data(&mut store, t(2024, 3, 10, 8, 0, 0));
    collect_day_data(&mut store, d(2024, 3, 10));
    assert_eq!(store.seconds.len(), 2);
    assert_eq!(store.seconds[0].uplink_traffic_usage, 2);
    assert_eq!(store.seconds[1].uplink_traffic_usage, 3);
}

#[test]
fn day_rollup_without_hour_rows_changes_nothing() {
    let mut store = MonitorStore::new();
    store.create_second(sample(t(2024, 3, 1, 0, 0, 0), t(2024, 3, 1, 0, 0, 15), 9, 9));
    collect_day_data(&mut store, d(2024, 3, 10));
    assert_eq!(store.days.len(), 0);
    assert_eq!(store.seconds.len(), 1);
}

#[test]
fn baseline_skips_corrected_rows_and_picks_newest() {
    let mut store = MonitorStore::new();
    store.create_second(sample(t(2024, 3, 10, 9, 0, 0), t(2024, 3, 10, 9, 0, 15), 1, 1));
    store.create_second(sample(t(2024, 3, 10, 9, 5, 0), t(2024, 3, 10, 9, 5, 15), 2, 2));
    let mut manual = sample(t(2024, 3, 10, 9, 9, 0), t(2024, 3, 10, 9, 9, 0), 7, 7);
    manual.is_corrected = true;
    store.create_second(manual);
    let pre = store.get_pre_data().unwrap();
    assert_eq!(pre.end_time, t(2024, 3, 10, 9, 5, 15));
    assert!(!pre.is_corrected);
}

#[test]
fn generate_cycle_builds_sorted_unfired_rules() {
    let cfg = cycle_config(vec![
        TrafficNotifyConfig { percent: 50, command: None },
        TrafficNotifyConfig { percent: 90, command: Some("shutdown".to_string()) },
        TrafficNotifyConfig { percent: 70, command: None },
    ]);
    let store = MonitorStore::new();
    let c = generate_cycle(&cfg, d(2024, 3, 15), &store).unwrap();
    assert_eq!(c.current_cycle_start_date, d(2024, 3, 1));
    assert_eq!(c.current_cycle_end_date, d(2024, 3, 31));
    assert_eq!(c.traffic_limit, 107374182400);
    assert_eq!(c.statistic_method, CycleStatisticMethod::SumInOut);
    assert_eq!(c.uplink_traffic_usage, 0);
    assert_eq!(c.downlink_traffic_usage, 0);
    assert_eq!(c.traffic_usage, 0);
    let percents: Vec<u8> = c.notify.iter().map(|n| n.percent).collect();
    assert_eq!(percents, vec![90, 70, 50]);
    assert!(c.notify.iter().all(|n| !n.finished));
    assert_eq!(c.notify[0].command.as_deref(), Some("shutdown"));
}

#[test]
fn generate_cycle_seeds_usage_from_store() {
    let mut store = MonitorStore::new();
    // whole days inside the window, before today
    store.upsert_day(d(2024, 3, 5), 100, 200);
    store.upsert_day(d(2024, 3, 10), 300, 400);
    // outside the window
    store.upsert_day(d(2024, 2, 5), 999, 999);
    // today's partial samples
    store.create_second(sample(t(2024, 3, 15, 1, 0, 0), t(2024, 3, 15, 1, 0, 15), 11, 22));
    // yesterday's samples are not today's partial sum
    store.create_second(sample(t(2024, 3, 14, 1, 0, 0), t(2024, 3, 14, 1, 0, 15), 5, 5));
    let cfg = cycle_config(vec![]);
    let c = generate_cycle(&cfg, d(2024, 3, 15), &store).unwrap();
    assert_eq!(c.uplink_traffic_usage, 411);
    assert_eq!(c.downlink_traffic_usage, 622);
    assert_eq!(c.traffic_usage, 411 + 622);
}

#[test]
fn generate_cycle_rejects_bad_configs() {
    let store = MonitorStore::new();
    let today = d(2024, 3, 15);
    let mut cfg = cycle_config(vec![]);
    cfg.cycle_type = "weekly".to_string();
    assert_eq!(generate_cycle(&cfg, today, &store).unwrap_err(), ConfigError::BadCycleType);

    let mut cfg = cycle_config(vec![]);
    cfg.each = Some(0);
    assert_eq!(generate_cycle(&cfg, today, &store).unwrap_err(), ConfigError::NonPositivePeriod);

    let mut cfg = cycle_config(vec![]);
    cfg.each = None;
    assert_eq!(generate_cycle(&cfg, today, &store).unwrap_err(), ConfigError::MissingField);

    let mut cfg = cycle_config(vec![]);
    cfg.traffic_reset_date = Some("2024-13-01".to_string());
    assert_eq!(generate_cycle(&cfg, today, &store).unwrap_err(), ConfigError::BadDate);

    let mut cfg = cycle_config(vec![]);
    cfg.statistic_method = "median".to_string();
    assert_eq!(generate_cycle(&cfg, today, &store).unwrap_err(), ConfigError::BadStatisticMethod);

    let mut cfg = cycle_config(vec![]);
    cfg.traffic_limit = "100".to_string();
    assert_eq!(generate_cycle(&cfg, today, &store).unwrap_err(), ConfigError::BadTrafficLimit);

    let mut cfg = cycle_config(vec![]);
    cfg.cycle_type = "once".to_string();
    assert_eq!(generate_cycle(&cfg, today, &store).unwrap_err(), ConfigError::MissingField);

    let mut cfg = cycle_config(vec![]);
    cfg.each = Some(i64::MAX);
    assert_eq!(generate_cycle(&cfg, today, &store).unwrap_err(), ConfigError::DateOutOfRange);
}

#[test]
fn statistic_methods_combine() {
    assert_eq!(CycleStatisticMethod::SumInOut.combine(10, 7), 17);
    assert_eq!(CycleStatisticMethod::MaxInOut.combine(10, 7), 10);
    assert_eq!(CycleStatisticMethod::MaxInOut.combine(7, 10), 10);
    assert_eq!(CycleStatisticMethod::OnlyOut.combine(10, 7), 10);
}

#[test]
fn sort_orders_by_falling_percent() {
    let rules = vec![
        CycleNotifyAppState { percent: 10, finished: false, command: None },
        CycleNotifyAppState { percent: 95, finished: true, command: None },
        CycleNotifyAppState { percent: 50, finished: false, command: Some("x".to_string()) },
        CycleNotifyAppState { percent: 50, finished: false, command: Some("y".to_string()) },
    ];
    let sorted = sort_notify_desc(rules);
    let percents: Vec<u8> = sorted.iter().map(|n| n.percent).collect();
    assert_eq!(percents, vec![95, 50, 50, 10]);
    assert_eq!(sorted.len(), 4);
}

fn fresh_cycle(limit: u64, percents: &[u8]) -> CycleAppState {
    CycleAppState {
        cycle_type: CycleType::MONTH(1, d(2024, 1, 1)),
        current_cycle_start_date: d(2024, 3, 1),
        current_cycle_end_date: d(2024, 3, 31),
        uplink_traffic_usage: 0,
        downlink_traffic_usage: 0,
        traffic_usage: 0,
        traffic_limit: limit,
        notify: percents
            .iter()
            .map(|p| CycleNotifyAppState { percent: *p, finished: false, command: None })
            .collect(),
        statistic_method: CycleStatisticMethod::OnlyOut,
    }
}

#[test]
fn threshold_fires_once_at_fifty_percent() {
    // the documented scenario: a 100GB limit with a 50% rule fires exactly
    // once when usage first reaches 53687091200 bytes, and not again at 60%
    let mut c = fresh_cycle(107374182400, &[50]);
    let a = c.apply_delta(53687091200, 0);
    let fired = a.expect("the 50% rule must fire");
    assert_eq!(fired.percent, 50);
    assert_eq!(fired.traffic_usage, 53687091200);
    assert_eq!(fired.traffic_limit, 107374182400);
    assert!(c.notify[0].finished);
    // another 10% of usage fires nothing new
    let a = c.apply_delta(gb(10), 0);
    assert!(a.is_none());
    assert!(c.notify[0].finished);
}

#[test]
fn threshold_does_not_fire_below_the_mark() {
    let mut c = fresh_cycle(107374182400, &[50]);
    let a = c.apply_delta(53687091199, 0);
    assert!(a.is_none());
    assert!(!c.notify[0].finished);
}

#[test]
fn highest_unmet_threshold_fires_first() {
    let mut c = fresh_cycle(gb(100), &[90, 70, 50]);
    // jump straight past 70%: the highest met-and-unfired rule is 70
    let a = c.apply_delta(gb(75), 0).expect("70% fires");
    assert_eq!(a.percent, 70);
    // the 50% rule is still unfired and met: it fires on the next delta
    let a = c.apply_delta(1, 0).expect("50% fires");
    assert_eq!(a.percent, 50);
    let a = c.apply_delta(1, 0);
    assert!(a.is_none());
    // crossing 90% fires the last rule
    let a = c.apply_delta(gb(20), 0).expect("90% fires");
    assert_eq!(a.percent, 90);
    assert!(c.notify.iter().all(|n| n.finished));
}

#[test]
fn rollover_replaces_the_window_and_books_the_delta() {
    let store = MonitorStore::new();
    let cfg = cycle_config(vec![TrafficNotifyConfig { percent: 50, command: None }]);
    let mut old = fresh_cycle(gb(100), &[50]);
    old.uplink_traffic_usage = gb(90);
    old.traffic_usage = gb(90);
    old.notify[0].finished = true;
    // today is past the old window: the cycle is derived anew, usage
    // restarts, and the fired flag is gone
    let (cyc, res) = verify_exceeds_limit(&Some(cfg), Some(old), &store, d(2024, 4, 2), 10, 20);
    assert!(res.unwrap().is_none());
    let c = cyc.unwrap();
    assert_eq!(c.current_cycle_start_date, d(2024, 4, 1));
    assert_eq!(c.current_cycle_end_date, d(2024, 4, 30));
    assert_eq!(c.uplink_traffic_usage, 10);
    assert_eq!(c.downlink_traffic_usage, 20);
    assert!(!c.notify[0].finished);
}

#[test]
fn expired_once_cycle_stays_silent() {
    let store = MonitorStore::new();
    let cfg = TrafficCycleConfig {
        cycle_type: "once".to_string(),
        each: None,
        traffic_reset_date: None,
        start_date: Some("2024-01-01".to_string()),
        end_date: Some("2024-01-31".to_string()),
        traffic_limit: "100GB".to_string(),
        statistic_method: "out".to_string(),
        command: None,
        notify: Some(vec![TrafficNotifyConfig { percent: 50, command: None }]),
    };
    let mut c = fresh_cycle(gb(100), &[50]);
    c.cycle_type = CycleType::ONCE(d(2024, 1, 1), d(2024, 1, 31));
    c.current_cycle_start_date = d(2024, 1, 1);
    c.current_cycle_end_date = d(2024, 1, 31);
    let before = c.clone();
    let (cyc, res) =
        verify_exceeds_limit(&Some(cfg), Some(c), &store, d(2024, 2, 10), gb(60), 0);
    assert!(res.unwrap().is_none());
    let after = cyc.unwrap();
    // no usage was booked and nothing fired
    assert_eq!(after.uplink_traffic_usage, before.uplink_traffic_usage);
    assert_eq!(after.traffic_usage, before.traffic_usage);
    assert!(!after.notify[0].finished);
}

#[test]
fn no_configured_cycle_accounts_nothing() {
    let store = MonitorStore::new();
    let (cyc, res) = verify_exceeds_limit(&None, None, &store, d(2024, 3, 15), 5, 5);
    assert!(cyc.is_none());
    assert!(res.unwrap().is_none());
}

#[test]
fn startup_skips_when_baseline_is_fresh() {
    let mut store = MonitorStore::new();
    let (_, res) =
        collect_second_data(&None, None, &mut store, 100, 100, t(2024, 3, 15, 10, 0, 0));
    assert!(res.is_ok());
    let rows = store.seconds.len();
    // five seconds later, same minute: too fresh to sample again
    let (_, res) =
        frist_collect(&None, None, &mut store, 200, 200, t(2024, 3, 15, 10, 0, 5));
    assert!(res.unwrap().is_none());
    assert_eq!(store.seconds.len(), rows);
}

#[test]
fn startup_collects_when_baseline_is_stale() {
    let mut store = MonitorStore::new();
    let (_, res) =
        collect_second_data(&None, None, &mut store, 100, 100, t(2024, 3, 15, 10, 0, 0));
    assert!(res.is_ok());
    let (_, res) =
        frist_collect(&None, None, &mut store, 300, 250, t(2024, 3, 15, 10, 5, 0));
    assert!(res.is_ok());
    assert_eq!(store.seconds.len(), 2);
    assert_eq!(store.seconds[1].uplink_traffic_usage, 200);
    assert_eq!(store.seconds[1].downlink_traffic_usage, 150);
}

#[test]
fn startup_without_baseline_only_generates_the_cycle() {
    let mut store = MonitorStore::new();
    let cfg = cycle_config(vec![]);
    let (cyc, res) =
        frist_collect(&Some(cfg), None, &mut store, 100, 100, t(2024, 3, 15, 10, 0, 0));
    assert!(res.unwrap().is_none());
    assert_eq!(store.seconds.len(), 0);
    let c = cyc.unwrap();
    assert_eq!(c.current_cycle_start_date, d(2024, 3, 1));
}

#[test]
fn startup_with_bad_config_changes_nothing() {
    let mut store = MonitorStore::new();
    let mut cfg = cycle_config(vec![]);
    cfg.traffic_limit = "lots".to_string();
    let (cyc, res) =
        frist_collect(&Some(cfg), None, &mut store, 100, 100, t(2024, 3, 15, 10, 0, 0));
    assert_eq!(res.unwrap_err(), ConfigError::BadTrafficLimit);
    assert!(cyc.is_none());
    assert_eq!(store.seconds.len(), 0);
}

#[test]
fn manual_correction_is_booked_and_marked() {
    let mut store = MonitorStore::new();
    let now = t(2024, 3, 15, 12, 30, 0);
    let (_, res) = modify_data(&None, None, &mut store, 500, 700, now);
    assert!(res.unwrap().is_none());
    assert_eq!(store.seconds.len(), 1);
    let row = store.seconds[0];
    assert!(row.is_corrected);
    assert_eq!(row.uplink_traffic_usage, 500);
    assert_eq!(row.start_time, now);
    assert_eq!(row.time_interval, 0);
    // the manual row is rolled up like any sample
    assert_eq!(store.hours.len(), 1);
    assert_eq!(store.hours[0].uplink_traffic_usage, 500);
    assert_eq!(store.days[0].downlink_traffic_usage, 700);
    // but never serves as a delta baseline
    assert!(store.get_pre_data().is_none());
}

#[test]
fn store_sums_and_lists_filter_by_range() {
    let mut store = MonitorStore::new();
    store.create_second(sample(t(2024, 3, 10, 9, 0, 0), t(2024, 3, 10, 9, 0, 15), 10, 20));
    store.create_second(sample(t(2024, 3, 10, 10, 0, 0), t(2024, 3, 10, 10, 0, 15), 1, 2));
    let s = store
        .sum_timerange_data(t(2024, 3, 10, 9, 0, 0), t(2024, 3, 10, 10, 0, 0))
        .unwrap();
    assert_eq!(s, (10, 20));
    assert!(store
        .sum_timerange_data(t(2024, 3, 11, 0, 0, 0), t(2024, 3, 12, 0, 0, 0))
        .is_none());
    let listed = store.list_timerange_data(t(2024, 3, 10, 9, 0, 0), t(2024, 3, 10, 10, 0, 0));
    assert_eq!(listed.len(), 1);
    assert_eq!(listed[0].uplink_traffic_usage, 10);

    store.upsert_day(d(2024, 3, 9), 5, 6);
    store.upsert_day(d(2024, 3, 10), 7, 8);
    assert_eq!(store.sum_daterange_data(d(2024, 3, 9), d(2024, 3, 10)).unwrap(), (12, 14));
    assert_eq!(store.sum_daterange_data(d(2024, 3, 10), d(2024, 3, 10)).unwrap(), (7, 8));
    let days = store.list_daterange_data(d(2024, 3, 10), d(2024, 3, 31));
    assert_eq!(days.len(), 1);

    store.upsert_hour(d(2024, 3, 10), 9, 100, 200);
    store.upsert_hour(d(2024, 3, 10), 9, 42, 43);
    assert_eq!(store.hours.len(), 1);
    assert_eq!(store.sum_day_data(d(2024, 3, 10)).unwrap(), (42, 43));
    let hours = store.list_hour_data(t(2024, 3, 10, 9, 0, 0), t(2024, 3, 10, 10, 0, 0));
    assert_eq!(hours.len(), 1);
    assert_eq!(hours[0].uplink_traffic_usage, 42);
}
