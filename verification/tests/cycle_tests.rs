use netmeter::cycle::{derive_cycle_window, CycleType};
use netmeter::date::Date;

fn d(y: u64, m: u64, day: u64) -> Date {
    Date::new(y, m, day)
}

#[test]
fn month_cycle_window_documented_scenario() {
    // anchor 2024-01-01, one-month cycle, today 2024-03-15:
    // the window is March 2024
    let ct = CycleType::MONTH(1, d(2024, 1, 1));
    let w = derive_cycle_window(&ct, d(2024, 3, 15));
    assert_eq!(w.0, d(2024, 3, 1));
    assert_eq!(w.1, d(2024, 3, 31));
}

#[test]
fn month_cycle_window_contains_today_on_boundaries() {
    let ct = CycleType::MONTH(1, d(2024, 1, 1));
    let w = derive_cycle_window(&ct, d(2024, 3, 1));
    assert_eq!((w.0, w.1), (d(2024, 3, 1), d(2024, 3, 31)));
    let w = derive_cycle_window(&ct, d(2024, 3, 31));
    assert_eq!((w.0, w.1), (d(2024, 3, 1), d(2024, 3, 31)));
    let w = derive_cycle_window(&ct, d(2024, 1, 1));
    assert_eq!((w.0, w.1), (d(2024, 1, 1), d(2024, 1, 31)));
}

#[test]
fn month_cycle_window_before_anchor() {
    let ct = CycleType::MONTH(1, d(2024, 3, 1));
    let w = derive_cycle_window(&ct, d(2024, 1, 15));
    assert_eq!((w.0, w.1), (d(2024, 1, 1), d(2024, 1, 31)));
    let w = derive_cycle_window(&ct, d(2024, 2, 29));
    assert_eq!((w.0, w.1), (d(2024, 2, 1), d(2024, 2, 29)));
}

#[test]
fn month_cycle_anchored_mid_month_clamps() {
    // anchored on the 31st, the boundary clamps to short months
    let ct = CycleType::MONTH(1, d(2024, 1, 31));
    let w = derive_cycle_window(&ct, d(2024, 2, 15));
    assert_eq!((w.0, w.1), (d(2024, 1, 31), d(2024, 2, 28)));
    // the clamp is cumulative: the next boundary steps from Feb 29, not Jan 31
    let w = derive_cycle_window(&ct, d(2024, 2, 29));
    assert_eq!((w.0, w.1), (d(2024, 2, 29), d(2024, 3, 28)));
}

#[test]
fn day_cycle_windows_tile_the_line() {
    let ct = CycleType::DAY(7, d(2024, 1, 1));
    let w = derive_cycle_window(&ct, d(2024, 1, 1));
    assert_eq!((w.0, w.1), (d(2024, 1, 1), d(2024, 1, 7)));
    let w = derive_cycle_window(&ct, d(2024, 1, 7));
    assert_eq!((w.0, w.1), (d(2024, 1, 1), d(2024, 1, 7)));
    let w = derive_cycle_window(&ct, d(2024, 1, 8));
    assert_eq!((w.0, w.1), (d(2024, 1, 8), d(2024, 1, 14)));
    // before the anchor
    let w = derive_cycle_window(&ct, d(2023, 12, 31));
    assert_eq!((w.0, w.1), (d(2023, 12, 25), d(2023, 12, 31)));
}

#[test]
fn consecutive_windows_are_contiguous() {
    let specs = [
        CycleType::DAY(7, d(2024, 1, 1)),
        CycleType::DAY(30, d(2024, 2, 29)),
        CycleType::MONTH(1, d(2024, 1, 31)),
        CycleType::MONTH(3, d(2023, 11, 30)),
    ];
    for ct in specs.iter() {
        let mut today = d(2023, 6, 1);
        for _ in 0..20 {
            let w = derive_cycle_window(ct, today);
            assert!(w.0.is_on_or_before(&today) && today.is_on_or_before(&w.1));
            let next = w.1.next_day();
            let w2 = derive_cycle_window(ct, next);
            assert_eq!(w2.0, next);
            today = next;
        }
    }
}

#[test]
fn once_cycle_window_is_the_fixed_range() {
    let ct = CycleType::ONCE(d(2024, 1, 1), d(2024, 6, 30));
    let w = derive_cycle_window(&ct, d(2025, 3, 15));
    assert_eq!((w.0, w.1), (d(2024, 1, 1), d(2024, 6, 30)));
}
