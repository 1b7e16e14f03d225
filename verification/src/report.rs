//! The daily statistics report, as plain numbers.
//!
//! The report carries one day's aggregate and, when a cycle is configured
//! and still running, how the cycle stands: the usage counted so far over
//! the day aggregates, the remaining traffic and — for a cycle that did not
//! just reset — the remaining days, each as a rounded percentage. When the
//! cycle reset this very day, the closed previous window is reported
//! instead. Rendering the numbers as text is left to the caller.

use vstd::prelude::*;
use crate::cycle::CycleType;
use crate::date::{day_index, max_day_index, month_index, valid_date, Date, MIN_YEAR};
use crate::state::{combine_usage, CycleAppState};
use crate::store::{day_value, spec_sum_days, MonitorStore};
use crate::units::{rounded_percent, signed_percent};

verus! {

/// How the running (or just-closed) cycle stands.
#[derive(Clone, Copy, PartialEq, Eq, Structural, Debug)]
pub struct CycleReportPart {
    /// The reported day's usage combined through the statistic method.
    pub counted: u64,
    /// First day of the reported window.
    pub range_start: Date,
    /// Last day of the reported window.
    pub range_end: Date,
    /// Uplink sum of the window's day aggregates.
    pub range_uplink: u64,
    /// Downlink sum of the window's day aggregates.
    pub range_downlink: u64,
    /// The window's usage combined through the statistic method.
    pub range_counted: u64,
    pub traffic_limit: u64,
    /// The cycle reset today, so the window is the closed previous one.
    pub previous_cycle_ended: bool,
    /// Days until the next reset, inclusive; zero for a closed window.
    pub remain_days: u64,
    /// Length of the window in days; zero for a closed window.
    pub total_days: u64,
    /// Remaining traffic as a percentage of the limit, rounded half up;
    /// negative when the limit is already exceeded.
    pub remaining_traffic_percent: i128,
    /// Remaining days as a percentage of the window, rounded half up; zero
    /// for a closed window.
    pub remaining_cycle_percent: i128,
}

/// One day's statistics and, if available, the cycle's standing.
#[derive(Clone, Copy, PartialEq, Eq, Structural, Debug)]
pub struct DailyReport {
    pub day: Date,
    pub uplink: u64,
    pub downlink: u64,
    pub cycle: Option<CycleReportPart>,
}

/// Builds the daily report for `day`: nothing when the day has no
/// aggregate. The cycle part is left out when no cycle is configured, the
/// cycle's window has already ended, or a fixed-range cycle would need a
/// previous window, which it does not have.
pub fn daily_report(
    store: &MonitorStore,
    cycle: &Option<CycleAppState>,
    day: Date,
    today: Date,
) -> (r: Option<DailyReport>)
    requires
        store.wf(),
        valid_date(day),
        valid_date(today),
        day_index(today) >= 1,
        spec_sum_days(store.days@, 0, max_day_index()).0 + spec_sum_days(
            store.days@,
            0,
            max_day_index(),
        ).1 <= u64::MAX,
        *cycle matches Some(c) ==> {
            &&& c.wf()
            &&& c.traffic_limit >= 1
            &&& day_index(c.current_cycle_start_date) <= day_index(c.current_cycle_end_date)
            &&& (c.cycle_type matches CycleType::DAY(e, a) ==> 1 <= e <= day_index(
                c.current_cycle_start_date,
            ))
            &&& (c.cycle_type matches CycleType::MONTH(e, a) ==> 1 <= e && 12 * MIN_YEAR + e
                <= month_index(c.current_cycle_start_date))
        },
    ensures
        match r {
            None => day_value(store.days@, day_index(day)) is None,
            Some(rep) => {
                &&& rep.day == day
                &&& day_value(store.days@, day_index(day)) == Some(
                    (rep.uplink as int, rep.downlink as int),
                )
                &&& match *cycle {
                    None => rep.cycle is None,
                    Some(c) => {
                        if day_index(c.current_cycle_end_date) < day_index(today) {
                            rep.cycle is None
                        } else if day_index(c.current_cycle_start_date) == day_index(today) {
                            match c.cycle_type {
                                CycleType::ONCE(_, _) => rep.cycle is None,
                                _ => rep.cycle matches Some(cp) && {
                                    &&& cp.counted == combine_usage(
                                        c.statistic_method,
                                        rep.uplink as int,
                                        rep.downlink as int,
                                    )
                                    &&& cp.traffic_limit == c.traffic_limit
                                    &&& cp.previous_cycle_ended
                                    &&& valid_date(cp.range_start)
                                    &&& valid_date(cp.range_end)
                                    &&& day_index(cp.range_end) == day_index(
                                        c.current_cycle_start_date,
                                    ) - 1
                                    &&& (c.cycle_type matches CycleType::DAY(e, a)
                                        ==> day_index(cp.range_start) == day_index(
                                        c.current_cycle_start_date,
                                    ) - e)
                                    &&& (c.cycle_type matches CycleType::MONTH(e, a)
                                        ==> month_index(cp.range_start) == month_index(
                                        c.current_cycle_start_date,
                                    ) - e)
                                    &&& (cp.range_uplink as int, cp.range_downlink as int)
                                        == spec_sum_days(
                                        store.days@,
                                        day_index(cp.range_start),
                                        day_index(cp.range_end),
                                    )
                                    &&& cp.range_counted == combine_usage(
                                        c.statistic_method,
                                        cp.range_uplink as int,
                                        cp.range_downlink as int,
                                    )
                                    &&& cp.remain_days == 0
                                    &&& cp.total_days == 0
                                    &&& cp.remaining_traffic_percent == rounded_percent(
                                        c.traffic_limit - cp.range_counted,
                                        c.traffic_limit as int,
                                    )
                                    &&& cp.remaining_cycle_percent == 0
                                },
                            }
                        } else {
                            rep.cycle matches Some(cp) && {
                                &&& cp.counted == combine_usage(
                                    c.statistic_method,
                                    rep.uplink as int,
                                    rep.downlink as int,
                                )
                                &&& cp.traffic_limit == c.traffic_limit
                                &&& !cp.previous_cycle_ended
                                &&& cp.range_start == c.current_cycle_start_date
                                &&& valid_date(cp.range_end)
                                &&& day_index(cp.range_end) == day_index(today) - 1
                                &&& (cp.range_uplink as int, cp.range_downlink as int)
                                    == spec_sum_days(
                                    store.days@,
                                    day_index(cp.range_start),
                                    day_index(cp.range_end),
                                )
                                &&& cp.range_counted == combine_usage(
                                    c.statistic_method,
                                    cp.range_uplink as int,
                                    cp.range_downlink as int,
                                )
                                &&& cp.remain_days == day_index(c.current_cycle_end_date)
                                    - day_index(today) + 1
                                &&& cp.total_days == day_index(c.current_cycle_end_date)
                                    - day_index(c.current_cycle_start_date) + 1
                                &&& cp.remaining_traffic_percent == rounded_percent(
                                    c.traffic_limit - cp.range_counted,
                                    c.traffic_limit as int,
                                )
                                &&& cp.remaining_cycle_percent == rounded_percent(
                                    cp.remain_days as int,
                                    cp.total_days as int,
                                )
                            }
                        }
                    },
                }
            },
        },
{
    proof {
        crate::date::lemma_day_index_range(day);
        crate::date::lemma_day_index_range(today);
        crate::store::lemma_sum_days_subrange(store.days@, 0, max_day_index(), 0, max_day_index());
        crate::store::lemma_day_value_le_sum(store.days@, day_index(day), 0, max_day_index());
    }
    let entity = match store.get_day_data(day) {
        None => { return None },
        Some(e) => e,
    };
    let uplink = entity.uplink_traffic_usage;
    let downlink = entity.downlink_traffic_usage;
    let c = match cycle {
        None => {
            return Some(DailyReport { day, uplink, downlink, cycle: None });
        },
        Some(c) => c,
    };
    if c.current_cycle_end_date.is_before(&today) {
        return Some(DailyReport { day, uplink, downlink, cycle: None });
    }
    let counted = c.statistic_method.combine(uplink, downlink);
    if c.current_cycle_start_date.index() == today.index() {
        proof {
            crate::date::lemma_day_index_range(c.current_cycle_start_date);
            if c.cycle_type matches CycleType::MONTH(e, a) {
                let origin = Date { year: 1u64, month: 1u64, day: 1u64 };
                if month_index(origin) < month_index(c.current_cycle_start_date) {
                    crate::date::lemma_day_index_month_mono(
                        origin,
                        c.current_cycle_start_date,
                    );
                }
                assert(day_index(origin) == 0);
            }
        }
        let pre_start: Date = match &c.cycle_type {
            CycleType::DAY(e, _) => c.current_cycle_start_date.sub_days(*e as u64),
            CycleType::MONTH(e, _) => c.current_cycle_start_date.sub_months(*e as u64),
            CycleType::ONCE(_, _) => {
                return Some(DailyReport { day, uplink, downlink, cycle: None });
            },
        };
        let pre_end: Date = c.current_cycle_start_date.prev_day();
        proof {
            crate::date::lemma_day_index_range(pre_start);
            crate::date::lemma_day_index_range(pre_end);
            crate::store::lemma_sum_days_subrange(
                store.days@,
                day_index(pre_start),
                day_index(pre_end),
                0,
                max_day_index(),
            );
        }
        let sums: (u64, u64) = match store.sum_daterange_data(pre_start, pre_end) {
            Some(v) => v,
            None => {
                proof {
                    crate::store::lemma_sum_days_zero(
                        store.days@,
                        day_index(pre_start),
                        day_index(pre_end),
                    );
                }
                (0, 0)
            },
        };
        let range_counted = c.statistic_method.combine(sums.0, sums.1);
        let remaining_traffic_percent = signed_percent(
            (c.traffic_limit as i128) - (range_counted as i128),
            c.traffic_limit,
        );
        Some(
            DailyReport {
                day,
                uplink,
                downlink,
                cycle: Some(
                    CycleReportPart {
                        counted,
                        range_start: pre_start,
                        range_end: pre_end,
                        range_uplink: sums.0,
                        range_downlink: sums.1,
                        range_counted,
                        traffic_limit: c.traffic_limit,
                        previous_cycle_ended: true,
                        remain_days: 0,
                        total_days: 0,
                        remaining_traffic_percent,
                        remaining_cycle_percent: 0,
                    },
                ),
            },
        )
    } else {
        let range_end: Date = today.prev_day();
        proof {
            crate::date::lemma_day_index_range(c.current_cycle_start_date);
            crate::date::lemma_day_index_range(range_end);
            crate::store::lemma_sum_days_subrange(
                store.days@,
                day_index(c.current_cycle_start_date),
                day_index(range_end),
                0,
                max_day_index(),
            );
        }
        let sums: (u64, u64) = match store.sum_daterange_data(c.current_cycle_start_date, range_end) {
            Some(v) => v,
            None => {
                proof {
                    crate::store::lemma_sum_days_zero(
                        store.days@,
                        day_index(c.current_cycle_start_date),
                        day_index(range_end),
                    );
                }
                (0, 0)
            },
        };
        let range_counted = c.statistic_method.combine(sums.0, sums.1);
        proof {
            crate::date::lemma_day_index_range(c.current_cycle_end_date);
        }
        let remain_days: u64 = c.current_cycle_end_date.index() - today.index() + 1;
        let total_days: u64 = c.current_cycle_end_date.index()
            - c.current_cycle_start_date.index() + 1;
        let remaining_traffic_percent = signed_percent(
            (c.traffic_limit as i128) - (range_counted as i128),
            c.traffic_limit,
        );
        let remaining_cycle_percent = signed_percent(remain_days as i128, total_days);
        Some(
            DailyReport {
                day,
                uplink,
                downlink,
                cycle: Some(
                    CycleReportPart {
                        counted,
                        range_start: c.current_cycle_start_date,
                        range_end,
                        range_uplink: sums.0,
                        range_downlink: sums.1,
                        range_counted,
                        traffic_limit: c.traffic_limit,
                        previous_cycle_ended: false,
                        remain_days,
                        total_days,
                        remaining_traffic_percent,
                        remaining_cycle_percent,
                    },
                ),
            },
        )
    }
}

} // verus!
