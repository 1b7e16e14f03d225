use netmeter::cycle::CycleType;
use netmeter::date::Date;
use netmeter::report::daily_report;
use netmeter::state::{CycleAppState, CycleStatisticMethod};
use netmeter::store::MonitorStore;

fn d(y: u64, m: u64, day: u64) -> Date {
    Date::new(y, m, day)
}

fn march_cycle() -> CycleAppState {
    CycleAppState {
        cycle_type: CycleType::MONTH(1, d(2024, 1, 1)),
        current_cycle_start_date: d(2024, 3, 1),
        current_cycle_end_date: d(2024, 3, 31),
        uplink_traffic_usage: 0,
        downlink_traffic_usage: 0,
        traffic_usage: 0,
        traffic_limit: 1000,
        notify: Vec::new(),
        statistic_method: CycleStatisticMethod::SumInOut,
    }
}

#[test]
fn report_needs_the_day_aggregate() {
    let store = MonitorStore::new();
    assert!(daily_report(&store, &None, d(2024, 3, 14), d(2024, 3, 15)).is_none());
}

#[test]
fn report_without_cycle_carries_only_the_day() {
    let mut store = MonitorStore::new();
    store.upsert_day(d(2024, 3, 14), 40, 60);
    let rep = daily_report(&store, &None, d(2024, 3, 14), d(2024, 3, 15)).unwrap();
    assert_eq!(rep.day, d(2024, 3, 14));
    assert_eq!(rep.uplink, 40);
    assert_eq!(rep.downlink, 60);
    assert!(rep.cycle.is_none());
}

#[test]
fn report_on_running_cycle() {
    let mut store = MonitorStore::new();
    store.upsert_day(d(2024, 3, 10), 100, 100);
    store.upsert_day(d(2024, 3, 14), 40, 60);
    let cycle = Some(march_cycle());
    let rep = daily_report(&store, &cycle, d(2024, 3, 14), d(2024, 3, 15)).unwrap();
    let cp = rep.cycle.unwrap();
    assert!(!cp.previous_cycle_ended);
    assert_eq!(cp.counted, 100);
    assert_eq!(cp.range_start, d(2024, 3, 1));
    assert_eq!(cp.range_end, d(2024, 3, 14));
    assert_eq!((cp.range_uplink, cp.range_downlink), (140, 160));
    assert_eq!(cp.range_counted, 300);
    // 700 of 1000 bytes left: 70%; 17 of 31 days left: 55%
    assert_eq!(cp.remain_days, 17);
    assert_eq!(cp.total_days, 31);
    assert_eq!(cp.remaining_traffic_percent, 70);
    assert_eq!(cp.remaining_cycle_percent, 55);
}

#[test]
fn report_on_reset_day_shows_previous_window() {
    let mut store = MonitorStore::new();
    store.upsert_day(d(2024, 2, 10), 200, 100);
    store.upsert_day(d(2024, 2, 29), 40, 60);
    let mut c = march_cycle();
    c.traffic_limit = 400;
    let cycle = Some(c);
    let rep = daily_report(&store, &cycle, d(2024, 2, 29), d(2024, 3, 1)).unwrap();
    let cp = rep.cycle.unwrap();
    assert!(cp.previous_cycle_ended);
    assert_eq!(cp.range_start, d(2024, 2, 1));
    assert_eq!(cp.range_end, d(2024, 2, 29));
    assert_eq!((cp.range_uplink, cp.range_downlink), (240, 160));
    assert_eq!(cp.range_counted, 400);
    assert_eq!(cp.remaining_traffic_percent, 0);
    assert_eq!(cp.remain_days, 0);
}

#[test]
fn report_after_cycle_end_has_no_cycle_part() {
    let mut store = MonitorStore::new();
    store.upsert_day(d(2024, 4, 2), 40, 60);
    let cycle = Some(march_cycle());
    let rep = daily_report(&store, &cycle, d(2024, 4, 2), d(2024, 4, 3)).unwrap();
    assert!(rep.cycle.is_none());
}

#[test]
fn report_shows_negative_remaining_traffic_when_over_limit() {
    let mut store = MonitorStore::new();
    store.upsert_day(d(2024, 3, 10), 1500, 0);
    store.upsert_day(d(2024, 3, 14), 1, 1);
    let cycle = Some(march_cycle());
    let rep = daily_report(&store, &cycle, d(2024, 3, 14), d(2024, 3, 15)).unwrap();
    let cp = rep.cycle.unwrap();
    assert_eq!(cp.range_counted, 1502);
    assert_eq!(cp.remaining_traffic_percent, -50);
}
