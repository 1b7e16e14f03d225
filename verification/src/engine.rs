//! The collection engine: counter correction and hierarchical rollup.
//!
//! Each tick turns two consecutive raw counter readings into one sample,
//! then recomputes the hour and day aggregates that contain it. Aggregates
//! are always recomputed from the finer level and upserted, never
//! incremented, so a re-run over unchanged rows cannot double count.

use vstd::prelude::*;
use crate::config::{TrafficCycleConfig, TrafficNotifyConfig};
use crate::cycle::{cycle_window_fits, cycle_window_fits_check, derive_cycle_window, CycleType};
use crate::date::{day_index, max_day_index, valid_date, Date};
use crate::datetime::{second_index, valid_datetime, DateTime};
use crate::error::ConfigError;
use crate::parse::{parse_date, spec_parse_date};
use crate::state::{
    clone_opt_string, combine_usage, delta_applied, opt_str_view, rule_views, sort_notify_desc,
    CycleAppState, CycleNotifyAppState, CycleStatisticMethod, NotifyAction,
};
use crate::store::{
    hour_on_day, hour_value, day_value, second_in_range, seconds_kept, spec_sum_days,
    spec_sum_hours, spec_sum_seconds, MonitorSecond, MonitorStore,
};
use crate::units::{parse_traffic_limit, spec_parse_limit};

verus! {

/// The delta between two cumulative counter readings. A reading smaller
/// than its predecessor means the counter was reset, and the new reading
/// itself is the delta: a delta is never negative.
pub open spec fn spec_delta(pre: int, cur: int) -> int {
    if pre > cur {
        cur
    } else {
        cur - pre
    }
}

/// A counter delta is never negative.
///
/// Whatever raw readings a counter produces — including a reset, where the
/// new reading is below the old one — the delta booked for them is at least
/// zero, so resets can never subtract traffic.
pub proof fn lemma_delta_nonneg(pre: int, cur: int)
    requires
        cur >= 0,
    ensures
        spec_delta(pre, cur) >= 0,
        pre > cur ==> spec_delta(pre, cur) == cur,
{
}

/// Computes the usage between two cumulative readings, treating a shrunk
/// counter as reset.
pub fn corrected_delta(pre: u64, cur: u64) -> (r: u64)
    ensures
        r == spec_delta(pre as int, cur as int),
        pre > cur ==> r == cur,
        pre <= cur ==> r == cur - pre,
{
    if pre > cur {
        cur
    } else {
        cur - pre
    }
}

/// The sample one tick books: from the previous sample's closing readings
/// and the current readings, or a zero-length bootstrap sample when no
/// previous sample exists.
pub open spec fn spec_build_sample(
    pre: Option<MonitorSecond>,
    up_reading: u64,
    down_reading: u64,
    now: DateTime,
) -> MonitorSecond {
    match pre {
        None => MonitorSecond {
            start_time: now,
            end_time: now,
            uplink_traffic_readings: up_reading,
            downlink_traffic_readings: down_reading,
            uplink_traffic_usage: 0,
            downlink_traffic_usage: 0,
            time_interval: 0,
            is_corrected: false,
        },
        Some(p) => MonitorSecond {
            start_time: p.end_time,
            end_time: now,
            uplink_traffic_readings: up_reading,
            downlink_traffic_readings: down_reading,
            uplink_traffic_usage: spec_delta(
                p.uplink_traffic_readings as int,
                up_reading as int,
            ) as u64,
            downlink_traffic_usage: spec_delta(
                p.downlink_traffic_readings as int,
                down_reading as int,
            ) as u64,
            time_interval: (second_index(now) - second_index(p.end_time)) as u64,
            is_corrected: false,
        },
    }
}

/// Builds the sample for the current readings. With no previous sample the
/// result is a zero-usage, zero-length bootstrap sample at `now`.
pub fn build_monitor_second(
    pre: Option<MonitorSecond>,
    up_reading: u64,
    down_reading: u64,
    now: DateTime,
) -> (r: MonitorSecond)
    requires
        valid_datetime(now),
        pre matches Some(p) ==> valid_datetime(p.end_time) && second_index(p.end_time)
            <= second_index(now),
    ensures
        r == spec_build_sample(pre, up_reading, down_reading, now),
        valid_datetime(r.start_time),
        valid_datetime(r.end_time),
{
    match pre {
        None => MonitorSecond {
            start_time: now,
            end_time: now,
            uplink_traffic_readings: up_reading,
            downlink_traffic_readings: down_reading,
            uplink_traffic_usage: 0,
            downlink_traffic_usage: 0,
            time_interval: 0,
            is_corrected: false,
        },
        Some(p) => MonitorSecond {
            start_time: p.end_time,
            end_time: now,
            uplink_traffic_readings: up_reading,
            downlink_traffic_readings: down_reading,
            uplink_traffic_usage: corrected_delta(p.uplink_traffic_readings, up_reading),
            downlink_traffic_usage: corrected_delta(p.downlink_traffic_readings, down_reading),
            time_interval: p.end_time.seconds_until(&now),
            is_corrected: false,
        },
    }
}

/// Start (inclusive) of the hour window that contains `t`, as a second
/// index.
pub open spec fn hour_window_lo(t: DateTime) -> int {
    day_index(t.date) * 86400 + t.hour * 3600
}

/// End (exclusive) of the hour window that contains `t`.
pub open spec fn hour_window_hi(t: DateTime) -> int {
    hour_window_lo(t) + 3600
}

/// How one hour rollup changes the hour table: the hour aggregate of `t`'s
/// hour becomes the sum of the samples whose start time falls in that hour,
/// recomputed from scratch — unless the hour has no samples at all, in
/// which case the table stays as it was.
pub open spec fn hour_rollup_values(
    sec: Seq<MonitorSecond>,
    pre_hours: Seq<crate::store::MonitorHour>,
    post_hours: Seq<crate::store::MonitorHour>,
    t: DateTime,
) -> bool {
    let lo = hour_window_lo(t);
    let hi = hour_window_hi(t);
    let d = day_index(t.date);
    let h = t.hour as int;
    if exists|i: int| 0 <= i < sec.len() && second_in_range(#[trigger] sec[i], lo, hi) {
        &&& hour_value(post_hours, d, h) == Some(spec_sum_seconds(sec, lo, hi))
        &&& forall|d2: int, h2: int|
            !(d2 == d && h2 == h) ==> #[trigger] hour_value(post_hours, d2, h2) == hour_value(
                pre_hours,
                d2,
                h2,
            )
    } else {
        post_hours == pre_hours
    }
}

/// How one hour rollup changes the store: samples and day aggregates stay,
/// the hour table changes as [`hour_rollup_values`] says.
pub open spec fn hour_rollup_relation(pre: MonitorStore, post: MonitorStore, t: DateTime) -> bool {
    &&& post.seconds@ == pre.seconds@
    &&& post.days@ == pre.days@
    &&& hour_rollup_values(pre.seconds@, pre.hours@, post.hours@, t)
}

/// Recomputes the hour aggregate for the hour that contains
/// `statistic_hour_time` from the samples of that hour and upserts it.
pub fn collect_hour_data(store: &mut MonitorStore, statistic_hour_time: DateTime)
    requires
        old(store).wf(),
        valid_datetime(statistic_hour_time),
        day_index(statistic_hour_time.date) < crate::date::max_day_index()
            || statistic_hour_time.hour < 23,
        spec_sum_seconds(
            old(store).seconds@,
            hour_window_lo(statistic_hour_time),
            hour_window_hi(statistic_hour_time),
        ).0 <= u64::MAX,
        spec_sum_seconds(
            old(store).seconds@,
            hour_window_lo(statistic_hour_time),
            hour_window_hi(statistic_hour_time),
        ).1 <= u64::MAX,
    ensures
        final(store).wf(),
        hour_rollup_relation(*old(store), *final(store), statistic_hour_time),
        crate::store::spec_sum_hours_all(final(store).hours@).0 <= crate::store::spec_sum_hours_all(
            old(store).hours@,
        ).0 + spec_sum_seconds(
            old(store).seconds@,
            hour_window_lo(statistic_hour_time),
            hour_window_hi(statistic_hour_time),
        ).0,
        crate::store::spec_sum_hours_all(final(store).hours@).1 <= crate::store::spec_sum_hours_all(
            old(store).hours@,
        ).1 + spec_sum_seconds(
            old(store).seconds@,
            hour_window_lo(statistic_hour_time),
            hour_window_hi(statistic_hour_time),
        ).1,
{
    proof {
        crate::store::lemma_sum_seconds_subrange(
            old(store).seconds@,
            hour_window_lo(statistic_hour_time),
            hour_window_hi(statistic_hour_time),
            hour_window_lo(statistic_hour_time),
            hour_window_hi(statistic_hour_time),
        );
    }
    let start_time = statistic_hour_time.floor_to_hour();
    proof {
        crate::date::lemma_day_index_range(statistic_hour_time.date);
        assert(second_index(start_time) == hour_window_lo(statistic_hour_time));
    }
    let end_time = start_time.plus_one_hour();
    let res = store.sum_timerange_data(start_time, end_time);
    match res {
        None => {},
        Some(v) => {
            store.upsert_hour(start_time.date, start_time.hour, v.0, v.1);
        },
    }
}

/// How one day rollup changes the day and sample tables: the day aggregate
/// of `day` becomes the sum of its hour aggregates, and samples that ended
/// before the start of the previous day are deleted — unless the day has no
/// hour aggregates at all, in which case nothing changes.
pub open spec fn day_rollup_values(
    hours: Seq<crate::store::MonitorHour>,
    pre_days: Seq<crate::store::MonitorDay>,
    post_days: Seq<crate::store::MonitorDay>,
    pre_sec: Seq<MonitorSecond>,
    post_sec: Seq<MonitorSecond>,
    day: Date,
) -> bool {
    let d = day_index(day);
    if exists|i: int| 0 <= i < hours.len() && hour_on_day(#[trigger] hours[i], d) {
        &&& day_value(post_days, d) == Some(spec_sum_hours(hours, d))
        &&& forall|d2: int| d2 != d ==> #[trigger] day_value(post_days, d2) == day_value(pre_days, d2)
        &&& post_sec == seconds_kept(pre_sec, (d - 1) * 86400)
    } else {
        &&& post_days == pre_days
        &&& post_sec == pre_sec
    }
}

/// How one day rollup changes the store: hour aggregates stay, the day and
/// sample tables change as [`day_rollup_values`] says.
pub open spec fn day_rollup_relation(pre: MonitorStore, post: MonitorStore, day: Date) -> bool {
    &&& post.hours@ == pre.hours@
    &&& day_rollup_values(pre.hours@, pre.days@, post.days@, pre.seconds@, post.seconds@, day)
}

/// Recomputes the day aggregate for `statistic_date` from its hour
/// aggregates, upserts it, and prunes samples that ended before the start
/// of the previous day.
pub fn collect_day_data(store: &mut MonitorStore, statistic_date: Date)
    requires
        old(store).wf(),
        valid_date(statistic_date),
        day_index(statistic_date) >= 1,
        spec_sum_hours(old(store).hours@, day_index(statistic_date)).0 <= u64::MAX,
        spec_sum_hours(old(store).hours@, day_index(statistic_date)).1 <= u64::MAX,
    ensures
        final(store).wf(),
        day_rollup_relation(*old(store), *final(store), statistic_date),
        spec_sum_days(final(store).days@, 0, max_day_index()).0 <= spec_sum_days(
            old(store).days@,
            0,
            max_day_index(),
        ).0 + spec_sum_hours(old(store).hours@, day_index(statistic_date)).0,
        spec_sum_days(final(store).days@, 0, max_day_index()).1 <= spec_sum_days(
            old(store).days@,
            0,
            max_day_index(),
        ).1 + spec_sum_hours(old(store).hours@, day_index(statistic_date)).1,
{
    proof {
        crate::store::lemma_sum_days_subrange(old(store).days@, 0, max_day_index(), 0, max_day_index());
        crate::store::lemma_sum_hours_le_all(old(store).hours@, day_index(statistic_date));
    }
    let res = store.sum_day_data(statistic_date);
    match res {
        None => {},
        Some(v) => {
            store.upsert_day(statistic_date, v.0, v.1);
            let cutoff = DateTime::day_start(statistic_date.prev_day());
            proof {
                assert(second_index(cutoff) == (day_index(statistic_date) - 1) * 86400);
            }
            store.delete_by_date(cutoff);
        },
    }
}

/// Pruning what is already pruned removes nothing.
proof fn lemma_seconds_kept_idempotent(s: Seq<MonitorSecond>, c: int)
    ensures
        seconds_kept(seconds_kept(s, c), c) == seconds_kept(s, c),
    decreases s.len(),
{
    if s.len() > 0 {
        lemma_seconds_kept_idempotent(s.drop_last(), c);
        let kept = seconds_kept(s, c);
        if second_index(s.last().end_time) >= c {
            assert(kept == seconds_kept(s.drop_last(), c).push(s.last()));
            assert(kept.drop_last() =~= seconds_kept(s.drop_last(), c));
            assert(kept.last() == s.last());
        }
    }
}

/// One past the largest supported second index.
pub open spec fn second_limit() -> int {
    (max_day_index() + 1) * 86400
}

/// The store has room to book one more sample of at most `up`/`down` bytes:
/// every aggregate the tick recomputes, and the usage the next cycle would
/// be seeded with, still fit in 64 bits.
pub open spec fn ingest_fits(store: MonitorStore, up: int, down: int) -> bool {
    let sec = spec_sum_seconds(store.seconds@, 0, second_limit());
    let hrs = crate::store::spec_sum_hours_all(store.hours@);
    let dys = spec_sum_days(store.days@, 0, max_day_index());
    dys.0 + dys.1 + hrs.0 + hrs.1 + 2 * (sec.0 + sec.1) + 3 * (up + down) <= u64::MAX
}

/// How booking the sample `row` changes the store and the cycle: the sample
/// is appended, its hour and day are rolled up, samples past retention are
/// pruned, and the sample's usage is accounted against the cycle.
pub open spec fn ingest_outcome(
    tc: Option<TrafficCycleConfig>,
    cycle0: Option<CycleAppState>,
    store0: MonitorStore,
    store1: MonitorStore,
    cycle1: Option<CycleAppState>,
    res: Result<Option<NotifyAction>, ConfigError>,
    row: MonitorSecond,
    now: DateTime,
) -> bool {
    let sec1 = store0.seconds@.push(row);
    &&& hour_rollup_values(sec1, store0.hours@, store1.hours@, row.start_time)
    &&& day_rollup_values(
        store1.hours@,
        store0.days@,
        store1.days@,
        sec1,
        store1.seconds@,
        row.start_time.date,
    )
    &&& accumulate_outcome(
        tc,
        cycle0,
        store1,
        cycle1,
        res,
        row.uplink_traffic_usage,
        row.downlink_traffic_usage,
        now.date,
    )
}

/// Books one sample: appends it, rolls up its hour and day, prunes samples
/// past retention, and accounts its usage against the cycle.
fn ingest_sample(
    tc: &Option<TrafficCycleConfig>,
    cycle: Option<CycleAppState>,
    store: &mut MonitorStore,
    row: MonitorSecond,
    now: DateTime,
) -> (r: (Option<CycleAppState>, Result<Option<NotifyAction>, ConfigError>))
    requires
        old(store).wf(),
        valid_datetime(now),
        valid_datetime(row.start_time),
        valid_datetime(row.end_time),
        1 <= day_index(row.start_time.date),
        day_index(row.start_time.date) < max_day_index(),
        1 <= day_index(now.date) < max_day_index(),
        ingest_fits(*old(store), row.uplink_traffic_usage as int, row.downlink_traffic_usage as int),
        tc is Some ==> cycle is Some,
        cycle matches Some(c) ==> c.wf() && (day_index(now.date) <= day_index(
            c.current_cycle_end_date,
        ) ==> (c.uplink_traffic_usage + row.uplink_traffic_usage <= u64::MAX
            && c.downlink_traffic_usage + row.downlink_traffic_usage <= u64::MAX && combine_usage(
            c.statistic_method,
            c.uplink_traffic_usage + row.uplink_traffic_usage,
            c.downlink_traffic_usage + row.downlink_traffic_usage,
        ) <= u64::MAX)),
    ensures
        final(store).wf(),
        ingest_outcome(*tc, cycle, *old(store), *final(store), r.0, r.1, row, now),
        r.0 matches Some(c2) ==> c2.wf(),
{
    let ghost store0 = *store;
    let ghost lo = hour_window_lo(row.start_time);
    let ghost hi = hour_window_hi(row.start_time);
    let ghost dd = day_index(row.start_time.date);
    proof {
        crate::date::lemma_day_index_range(row.start_time.date);
        crate::date::lemma_day_index_range(now.date);
        crate::store::lemma_sum_days_subrange(store0.days@, 0, max_day_index(), 0, max_day_index());
        crate::store::lemma_sum_seconds_subrange(
            store0.seconds@,
            0,
            second_limit(),
            0,
            second_limit(),
        );
        crate::store::lemma_sum_hours_le_all(store0.hours@, 0);
    }
    store.create_second(row);
    let ghost sec1 = store.seconds@;
    proof {
        assert(sec1.drop_last() =~= store0.seconds@);
        assert(sec1.last() == row);
        assert(second_in_range(row, lo, hi));
        assert(spec_sum_seconds(sec1, lo, hi).0 == spec_sum_seconds(store0.seconds@, lo, hi).0
            + row.uplink_traffic_usage);
        assert(spec_sum_seconds(sec1, lo, hi).1 == spec_sum_seconds(store0.seconds@, lo, hi).1
            + row.downlink_traffic_usage);
        crate::store::lemma_sum_seconds_subrange(store0.seconds@, lo, hi, 0, second_limit());
        assert((dd + 1) * 86400 <= (max_day_index() + 1) * 86400) by (nonlinear_arith)
            requires
                dd + 1 <= max_day_index() + 1,
        ;
        assert(spec_sum_seconds(sec1, 0, second_limit()).0 == spec_sum_seconds(
            store0.seconds@,
            0,
            second_limit(),
        ).0 + row.uplink_traffic_usage && spec_sum_seconds(sec1, 0, second_limit()).1
            == spec_sum_seconds(store0.seconds@, 0, second_limit()).1
            + row.downlink_traffic_usage) by {
            crate::datetime::lemma_second_index_in_day(row.start_time);
            assert(second_in_range(row, 0, second_limit()));
        }
    }
    collect_hour_data(store, row.start_time);
    proof {
        crate::store::lemma_sum_hours_le_all(store.hours@, dd);
        crate::store::lemma_sum_hours_le_all(store0.hours@, dd);
    }
    let rollup_day: Date = row.start_time.date;
    collect_day_data(store, rollup_day);
    proof {
        crate::store::lemma_sum_days_subrange(store.days@, 0, max_day_index(), 0, max_day_index());
        crate::store::lemma_sum_seconds_kept_le(sec1, (dd - 1) * 86400, 0, second_limit());
        crate::store::lemma_sum_seconds_subrange(store.seconds@, 0, second_limit(), 0, second_limit());
    }
    let v = verify_exceeds_limit(
        tc,
        cycle,
        store,
        now.date,
        row.uplink_traffic_usage,
        row.downlink_traffic_usage,
    );
    v
}

/// What one collection tick does: the newest sampled row is the baseline,
/// the raw readings become a sample through the counter corrector, and the
/// sample is booked. The first-ever tick books a zero-usage, zero-length
/// bootstrap sample.
pub open spec fn tick_outcome(
    tc: Option<TrafficCycleConfig>,
    cycle0: Option<CycleAppState>,
    store0: MonitorStore,
    store1: MonitorStore,
    cycle1: Option<CycleAppState>,
    res: Result<(MonitorSecond, Option<NotifyAction>), ConfigError>,
    up_reading: u64,
    down_reading: u64,
    now: DateTime,
) -> bool {
    exists|pre: Option<MonitorSecond>|
        {
            &&& #[trigger] crate::store::baseline_ok(store0.seconds@, pre)
            &&& ({
                let row = spec_build_sample(pre, up_reading, down_reading, now);
                let mapped: Result<Option<NotifyAction>, ConfigError> = match res {
                    Ok(v) => Ok(v.1),
                    Err(e) => Err(e),
                };
                &&& ingest_outcome(tc, cycle0, store0, store1, cycle1, mapped, row, now)
                &&& (res matches Ok(v) ==> v.0 == row)
            })
        }
}

/// Every sample's end time lies between the second day's start and `now`:
/// what a monotone clock guarantees of a store that the engine itself has
/// filled.
pub open spec fn samples_before(seconds: Seq<MonitorSecond>, now: DateTime) -> bool {
    forall|i: int|
        0 <= i < seconds.len() ==> 86400 <= second_index((#[trigger] seconds[i]).end_time)
            <= second_index(now)
}

/// Runs one collection tick: reads the baseline, builds the corrected
/// sample, books it, and accounts it against the cycle.
pub fn collect_second_data(
    tc: &Option<TrafficCycleConfig>,
    cycle: Option<CycleAppState>,
    store: &mut MonitorStore,
    up_reading: u64,
    down_reading: u64,
    now: DateTime,
) -> (r: (Option<CycleAppState>, Result<(MonitorSecond, Option<NotifyAction>), ConfigError>))
    requires
        old(store).wf(),
        valid_datetime(now),
        1 <= day_index(now.date) < max_day_index(),
        samples_before(old(store).seconds@, now),
        ingest_fits(*old(store), up_reading as int, down_reading as int),
        tc is Some ==> cycle is Some,
        cycle matches Some(c) ==> c.wf() && (day_index(now.date) <= day_index(
            c.current_cycle_end_date,
        ) ==> (c.uplink_traffic_usage + up_reading <= u64::MAX && c.downlink_traffic_usage
            + down_reading <= u64::MAX && combine_usage(
            c.statistic_method,
            c.uplink_traffic_usage + up_reading,
            c.downlink_traffic_usage + down_reading,
        ) <= u64::MAX)),
    ensures
        final(store).wf(),
        tick_outcome(*tc, cycle, *old(store), *final(store), r.0, r.1, up_reading, down_reading, now),
        r.0 matches Some(c2) ==> c2.wf(),
{
    let pre = store.get_pre_data();
    proof {
        crate::date::lemma_day_index_range(now.date);
        crate::datetime::lemma_second_index_in_day(now);
        match pre {
            Some(p) => {
                let w = choose|w: int| 0 <= w < store.seconds@.len() && store.seconds@[w] == p;
                assert(valid_datetime(store.seconds@[w].start_time));
                assert(86400 <= second_index(store.seconds@[w].end_time) <= second_index(now));
            },
            None => {},
        }
    }
    let row = build_monitor_second(pre, up_reading, down_reading, now);
    proof {
        // the sample's day lies in the supported middle of the time line
        crate::datetime::lemma_second_index_in_day(row.start_time);
        assert(day_index(row.start_time.date) >= 1) by {
            if day_index(row.start_time.date) < 1 {
                assert((day_index(row.start_time.date) + 1) * 86400 <= 86400) by (nonlinear_arith)
                    requires
                        day_index(row.start_time.date) + 1 <= 1,
                ;
            }
        }
        assert(day_index(row.start_time.date) <= day_index(now.date)) by {
            if day_index(now.date) < day_index(row.start_time.date) {
                crate::datetime::lemma_second_index_day_mono(now, row.start_time);
            }
        }
        // the booked deltas never exceed the raw readings
        assert(row.uplink_traffic_usage <= up_reading);
        assert(row.downlink_traffic_usage <= down_reading);
        match &cycle {
            Some(c) => {
                if day_index(now.date) <= day_index(c.current_cycle_end_date) {
                    assert(combine_usage(
                        c.statistic_method,
                        c.uplink_traffic_usage + row.uplink_traffic_usage,
                        c.downlink_traffic_usage + row.downlink_traffic_usage,
                    ) <= combine_usage(
                        c.statistic_method,
                        c.uplink_traffic_usage + up_reading,
                        c.downlink_traffic_usage + down_reading,
                    ));
                }
            },
            None => {},
        }
    }
    let ghost store0 = *store;
    let v = ingest_sample(tc, cycle, store, row, now);
    let out: Result<(MonitorSecond, Option<NotifyAction>), ConfigError> = match v.1 {
        Ok(a) => Ok((row, a)),
        Err(e) => Err(e),
    };
    proof {
        assert(crate::store::baseline_ok(store0.seconds@, pre));
        assert(tick_outcome(
            *tc,
            cycle,
            store0,
            *store,
            v.0,
            out,
            up_reading,
            down_reading,
            now,
        ));
    }
    (v.0, out)
}

/// The manual-correction sample: a zero-length, zero-reading row at `now`
/// carrying the given usage, marked as entered by hand.
pub open spec fn spec_manual_sample(up: u64, down: u64, now: DateTime) -> MonitorSecond {
    MonitorSecond {
        start_time: now,
        end_time: now,
        uplink_traffic_readings: 0,
        downlink_traffic_readings: 0,
        uplink_traffic_usage: up,
        downlink_traffic_usage: down,
        time_interval: 0,
        is_corrected: true,
    }
}

/// Books a manual traffic correction: a hand-entered sample at `now` with
/// the given usage, rolled up and accounted like any tick. The corrected
/// mark keeps the row out of future baseline lookups.
pub fn modify_data(
    tc: &Option<TrafficCycleConfig>,
    cycle: Option<CycleAppState>,
    store: &mut MonitorStore,
    up: u64,
    down: u64,
    now: DateTime,
) -> (r: (Option<CycleAppState>, Result<Option<NotifyAction>, ConfigError>))
    requires
        old(store).wf(),
        valid_datetime(now),
        1 <= day_index(now.date) < max_day_index(),
        ingest_fits(*old(store), up as int, down as int),
        tc is Some ==> cycle is Some,
        cycle matches Some(c) ==> c.wf() && (day_index(now.date) <= day_index(
            c.current_cycle_end_date,
        ) ==> (c.uplink_traffic_usage + up <= u64::MAX && c.downlink_traffic_usage + down
            <= u64::MAX && combine_usage(
            c.statistic_method,
            c.uplink_traffic_usage + up,
            c.downlink_traffic_usage + down,
        ) <= u64::MAX)),
    ensures
        final(store).wf(),
        ingest_outcome(
            *tc,
            cycle,
            *old(store),
            *final(store),
            r.0,
            r.1,
            spec_manual_sample(up, down, now),
            now,
        ),
        r.0 matches Some(c2) ==> c2.wf(),
{
    let row = MonitorSecond {
        start_time: now,
        end_time: now,
        uplink_traffic_readings: 0,
        downlink_traffic_readings: 0,
        uplink_traffic_usage: up,
        downlink_traffic_usage: down,
        time_interval: 0,
        is_corrected: true,
    };
    ingest_sample(tc, cycle, store, row, now)
}

/// The baseline is too fresh to sample again: taken less than fifteen
/// seconds ago and within the same minute.
pub open spec fn sample_is_fresh(pre_end: DateTime, now: DateTime) -> bool {
    second_index(now) - second_index(pre_end) < 15 && now.minute == pre_end.minute
}

/// What the startup pass does after the cycle is in place: with no baseline
/// or a fresh one it leaves everything alone; with a stale baseline it runs
/// one tick at once, so a restart does not lose a collection period.
pub open spec fn startup_sampling(
    tc: Option<TrafficCycleConfig>,
    cycle_mid: Option<CycleAppState>,
    store0: MonitorStore,
    store1: MonitorStore,
    cycle1: Option<CycleAppState>,
    res: Result<Option<NotifyAction>, ConfigError>,
    up_reading: u64,
    down_reading: u64,
    now: DateTime,
) -> bool {
    exists|pre: Option<MonitorSecond>|
        {
            &&& #[trigger] crate::store::baseline_ok(store0.seconds@, pre)
            &&& match pre {
                None => {
                    &&& store1.seconds@ == store0.seconds@
                    &&& store1.hours@ == store0.hours@
                    &&& store1.days@ == store0.days@
                    &&& cycle1 == cycle_mid
                    &&& res matches Ok(a) && a is None
                },
                Some(p) => {
                    if sample_is_fresh(p.end_time, now) {
                        &&& store1.seconds@ == store0.seconds@
                        &&& store1.hours@ == store0.hours@
                        &&& store1.days@ == store0.days@
                        &&& cycle1 == cycle_mid
                        &&& res matches Ok(a) && a is None
                    } else {
                        exists|tres: Result<(MonitorSecond, Option<NotifyAction>), ConfigError>|
                            #[trigger] tick_outcome(
                                tc,
                                cycle_mid,
                                store0,
                                store1,
                                cycle1,
                                tres,
                                up_reading,
                                down_reading,
                                now,
                            ) && res == (match tres {
                                Ok(v) => Ok::<Option<NotifyAction>, ConfigError>(v.1),
                                Err(e) => Err(e),
                            })
                    }
                },
            }
        }
}

/// What the whole startup pass does: the cycle is generated anew from the
/// configuration (a fault is fatal and changes nothing), then a catch-up
/// tick runs unless the newest sample is fresh.
pub open spec fn startup_outcome(
    tc: Option<TrafficCycleConfig>,
    cycle0: Option<CycleAppState>,
    store0: MonitorStore,
    store1: MonitorStore,
    cycle1: Option<CycleAppState>,
    res: Result<Option<NotifyAction>, ConfigError>,
    up_reading: u64,
    down_reading: u64,
    now: DateTime,
) -> bool {
    match tc {
        None => startup_sampling(
            tc,
            cycle0,
            store0,
            store1,
            cycle1,
            res,
            up_reading,
            down_reading,
            now,
        ),
        Some(cfg) => match spec_cycle_config_check(cfg, now.date) {
            Err(e) => {
                &&& store1.seconds@ == store0.seconds@
                &&& store1.hours@ == store0.hours@
                &&& store1.days@ == store0.days@
                &&& cycle1 == cycle0
                &&& res matches Err(e2) && e2 == e
            },
            Ok(_) => exists|c1: CycleAppState|
                #[trigger] generated_cycle_ok(c1, cfg, now.date, store0) && startup_sampling(
                    tc,
                    Some(c1),
                    store0,
                    store1,
                    cycle1,
                    res,
                    up_reading,
                    down_reading,
                    now,
                ),
        },
    }
}

/// A freshly generated cycle's usage is seeded from the store's own sums,
/// so the store's headroom bound also leaves room to book one more sample
/// against it.
proof fn lemma_seeded_cycle_headroom(
    tc: Option<TrafficCycleConfig>,
    cm: CycleAppState,
    store: MonitorStore,
    today: Date,
    up_reading: u64,
    down_reading: u64,
)
    requires
        tc matches Some(cfg) && generated_cycle_ok(cm, cfg, today, store),
        valid_date(today),
        day_index(today) <= max_day_index(),
        ingest_fits(store, up_reading as int, down_reading as int),
    ensures
        cm.uplink_traffic_usage + up_reading <= u64::MAX,
        cm.downlink_traffic_usage + down_reading <= u64::MAX,
        combine_usage(
            cm.statistic_method,
            cm.uplink_traffic_usage + up_reading,
            cm.downlink_traffic_usage + down_reading,
        ) <= u64::MAX,
{
    crate::date::lemma_day_index_range(cm.current_cycle_start_date);
    crate::date::lemma_day_index_range(today);
    crate::store::lemma_sum_days_subrange(store.days@, 0, max_day_index(), 0, max_day_index());
    crate::store::lemma_sum_seconds_subrange(store.seconds@, 0, second_limit(), 0, second_limit());
    crate::store::lemma_sum_hours_le_all(store.hours@, 0);
    crate::store::lemma_sum_days_subrange(
        store.days@,
        day_index(cm.current_cycle_start_date),
        day_index(today) - 1,
        0,
        max_day_index(),
    );
    assert((day_index(today) + 1) * 86400 <= second_limit()) by (nonlinear_arith)
        requires
            day_index(today) + 1 <= max_day_index() + 1,
    ;
    assert(day_index(today) * 86400 >= 0) by (nonlinear_arith)
        requires
            day_index(today) >= 0,
    ;
    crate::store::lemma_sum_seconds_subrange(
        store.seconds@,
        day_index(today) * 86400,
        (day_index(today) + 1) * 86400,
        0,
        second_limit(),
    );
}

/// The startup pass: regenerates the cycle from the configuration, then
/// runs one catch-up tick unless the newest sample was taken less than a
/// collection period ago.
pub fn frist_collect(
    tc: &Option<TrafficCycleConfig>,
    cycle: Option<CycleAppState>,
    store: &mut MonitorStore,
    up_reading: u64,
    down_reading: u64,
    now: DateTime,
) -> (r: (Option<CycleAppState>, Result<Option<NotifyAction>, ConfigError>))
    requires
        old(store).wf(),
        valid_datetime(now),
        1 <= day_index(now.date) < max_day_index(),
        samples_before(old(store).seconds@, now),
        ingest_fits(*old(store), up_reading as int, down_reading as int),
        cycle matches Some(c) ==> c.wf() && (day_index(now.date) <= day_index(
            c.current_cycle_end_date,
        ) ==> (c.uplink_traffic_usage + up_reading <= u64::MAX && c.downlink_traffic_usage
            + down_reading <= u64::MAX && combine_usage(
            c.statistic_method,
            c.uplink_traffic_usage + up_reading,
            c.downlink_traffic_usage + down_reading,
        ) <= u64::MAX)),
    ensures
        final(store).wf(),
        startup_outcome(
            *tc,
            cycle,
            *old(store),
            *final(store),
            r.0,
            r.1,
            up_reading,
            down_reading,
            now,
        ),
        r.0 matches Some(c2) ==> c2.wf(),
{
    let ghost store0 = *store;
    let cycle_mid: Option<CycleAppState> = match tc {
        None => cycle,
        Some(cfg) => {
            proof {
                crate::store::lemma_sum_days_subrange(
                    store.days@,
                    0,
                    max_day_index(),
                    0,
                    max_day_index(),
                );
                crate::store::lemma_sum_seconds_subrange(
                    store.seconds@,
                    0,
                    second_limit(),
                    0,
                    second_limit(),
                );
                crate::store::lemma_sum_hours_le_all(store.hours@, 0);
            }
            match generate_cycle(cfg, now.date, store) {
                Err(e) => { return (cycle, Err(e)) },
                Ok(c1) => Some(c1),
            }
        },
    };
    let ghost c1_snapshot = cycle_mid;
    let pre = store.get_pre_data();
    match pre {
        None => {
            proof {
                let res: Result<Option<NotifyAction>, ConfigError> = Ok(None);
                assert(crate::store::baseline_ok(store0.seconds@, pre));
                assert(startup_sampling(
                    *tc,
                    cycle_mid,
                    store0,
                    *store,
                    cycle_mid,
                    res,
                    up_reading,
                    down_reading,
                    now,
                ));
                match tc {
                    Some(cfg2) => {
                        let c1 = cycle_mid->Some_0;
                        assert(generated_cycle_ok(c1, *cfg2, now.date, store0));
                    },
                    None => {},
                }
            }
            (cycle_mid, Ok(None))
        },
        Some(p) => {
            proof {
                let w = choose|w: int|
                    0 <= w < store.seconds@.len() && store.seconds@[w] == p;
                assert(valid_datetime(store.seconds@[w].start_time));
                assert(86400 <= second_index(store.seconds@[w].end_time) <= second_index(now));
                crate::date::lemma_day_index_range(now.date);
                crate::datetime::lemma_second_index_in_day(now);
                crate::datetime::lemma_second_index_in_day(p.end_time);
            }
            let fresh: bool = now.seconds() < p.end_time.seconds() + 15 && now.minute
                == p.end_time.minute;
            if fresh {
                proof {
                    let res: Result<Option<NotifyAction>, ConfigError> = Ok(None);
                    assert(crate::store::baseline_ok(store0.seconds@, pre));
                    assert(startup_sampling(
                        *tc,
                        cycle_mid,
                        store0,
                        *store,
                        cycle_mid,
                        res,
                        up_reading,
                        down_reading,
                        now,
                    ));
                    match tc {
                        Some(cfg2) => {
                            let c1 = cycle_mid->Some_0;
                            assert(generated_cycle_ok(c1, *cfg2, now.date, store0));
                        },
                        None => {},
                    }
                }
                (cycle_mid, Ok(None))
            } else {
                proof {
                    match &cycle_mid {
                        Some(cm) => {
                            if tc is Some {
                                // a freshly generated cycle's usage is seeded
                                // from the store, which the headroom bound covers
                                lemma_seeded_cycle_headroom(
                                    *tc,
                                    *cm,
                                    *store,
                                    now.date,
                                    up_reading,
                                    down_reading,
                                );
                            }
                        },
                        None => {},
                    }
                }
                let v = collect_second_data(tc, cycle_mid, store, up_reading, down_reading, now);
                let out: Result<Option<NotifyAction>, ConfigError> = match v.1 {
                    Ok(t) => Ok(t.1),
                    Err(e) => Err(e),
                };
                proof {
                    assert(crate::store::baseline_ok(store0.seconds@, pre));
                    assert(tick_outcome(
                        *tc,
                        cycle_mid,
                        store0,
                        *store,
                        v.0,
                        v.1,
                        up_reading,
                        down_reading,
                        now,
                    ));
                    assert(startup_sampling(
                        *tc,
                        cycle_mid,
                        store0,
                        *store,
                        v.0,
                        out,
                        up_reading,
                        down_reading,
                        now,
                    ));
                    match tc {
                        Some(cfg2) => {
                            let c1 = cycle_mid->Some_0;
                            assert(generated_cycle_ok(c1, *cfg2, now.date, store0));
                        },
                        None => {},
                    }
                }
                (v.0, out)
            }
        },
    }
}

/// Rolling up an hour twice over unchanged samples yields the same
/// aggregate values as rolling it up once: the recompute-and-upsert rollup
/// cannot double count on a re-run.
pub proof fn lemma_hour_rollup_idempotent(
    s0: MonitorStore,
    s1: MonitorStore,
    s2: MonitorStore,
    t: DateTime,
)
    requires
        hour_rollup_relation(s0, s1, t),
        hour_rollup_relation(s1, s2, t),
    ensures
        s2.seconds@ == s1.seconds@,
        s2.days@ == s1.days@,
        forall|d: int, h: int|
            #[trigger] hour_value(s2.hours@, d, h) == hour_value(s1.hours@, d, h),
{
    let lo = hour_window_lo(t);
    let hi = hour_window_hi(t);
    let d = day_index(t.date);
    let h = t.hour as int;
    if exists|i: int| 0 <= i < s0.seconds@.len() && second_in_range(#[trigger] s0.seconds@[i], lo, hi) {
        assert(hour_value(s2.hours@, d, h) == Some(spec_sum_seconds(s1.seconds@, lo, hi)));
        assert(hour_value(s1.hours@, d, h) == Some(spec_sum_seconds(s0.seconds@, lo, hi)));
    }
}

/// What the cycle-type section of the configuration means: a cycle
/// specification, or the first configuration fault found.
pub open spec fn spec_cycle_type_of(tc: TrafficCycleConfig) -> Result<CycleType, ConfigError> {
    if tc.cycle_type@ == "day"@ || tc.cycle_type@ == "month"@ {
        match tc.each {
            None => Err(ConfigError::MissingField),
            Some(e) => if e <= 0 {
                Err(ConfigError::NonPositivePeriod)
            } else {
                match tc.traffic_reset_date {
                    None => Err(ConfigError::MissingField),
                    Some(d) => match spec_parse_date(d@) {
                        None => Err(ConfigError::BadDate),
                        Some(anchor) => if tc.cycle_type@ == "day"@ {
                            Ok(CycleType::DAY(e, anchor))
                        } else {
                            Ok(CycleType::MONTH(e, anchor))
                        },
                    },
                }
            },
        }
    } else if tc.cycle_type@ == "once"@ {
        match (tc.start_date, tc.end_date) {
            (Some(s), Some(e)) => match (spec_parse_date(s@), spec_parse_date(e@)) {
                (Some(start), Some(end)) => Ok(CycleType::ONCE(start, end)),
                _ => Err(ConfigError::BadDate),
            },
            _ => Err(ConfigError::MissingField),
        }
    } else {
        Err(ConfigError::BadCycleType)
    }
}

/// What the statistic-method tag means.
pub open spec fn spec_method_of(s: Seq<char>) -> Option<CycleStatisticMethod> {
    if s == "sum(in,out)"@ {
        Some(CycleStatisticMethod::SumInOut)
    } else if s == "max(in,out)"@ {
        Some(CycleStatisticMethod::MaxInOut)
    } else if s == "out"@ {
        Some(CycleStatisticMethod::OnlyOut)
    } else {
        None
    }
}

/// Checks a traffic-cycle configuration against `today`: the cycle type,
/// the reachability of `today`'s window, the statistic method and the
/// traffic limit, in that order; the first fault wins.
pub open spec fn spec_cycle_config_check(tc: TrafficCycleConfig, today: Date) -> Result<
    (CycleType, CycleStatisticMethod, u64),
    ConfigError,
> {
    match spec_cycle_type_of(tc) {
        Err(e) => Err(e),
        Ok(ct) => if !cycle_window_fits(ct, today) {
            Err(ConfigError::DateOutOfRange)
        } else {
            match spec_method_of(tc.statistic_method@) {
                None => Err(ConfigError::BadStatisticMethod),
                Some(m) => match spec_parse_limit(tc.traffic_limit@) {
                    None => Err(ConfigError::BadTrafficLimit),
                    Some(l) => Ok((ct, m, l)),
                },
            }
        },
    }
}

/// The configured notification rules as plain values, unfired.
pub open spec fn spec_config_rule_views(o: Option<Vec<TrafficNotifyConfig>>) -> Seq<
    (u8, bool, Option<Seq<char>>),
> {
    match o {
        None => Seq::empty(),
        Some(v) => Seq::new(v@.len(), |i: int| (v@[i].percent, false, opt_str_view(v@[i].command))),
    }
}

/// All usage the store has recorded, both directions and both the day table
/// and the sample table together.
pub open spec fn store_totals(store: MonitorStore) -> int {
    spec_sum_days(store.days@, 0, max_day_index()).0 + spec_sum_days(
        store.days@,
        0,
        max_day_index(),
    ).1 + spec_sum_seconds(store.seconds@, 0, (max_day_index() + 1) * 86400).0 + spec_sum_seconds(
        store.seconds@,
        0,
        (max_day_index() + 1) * 86400,
    ).1
}

/// `c` is the cycle state generated from `tc` for `today` over `store`: the
/// checked specification, the window that contains `today`, usage seeded
/// from the whole days of the window so far plus today's samples, and the
/// configured rules sorted by falling percentage, none fired.
pub open spec fn generated_cycle_ok(
    c: CycleAppState,
    tc: TrafficCycleConfig,
    today: Date,
    store: MonitorStore,
) -> bool {
    &&& spec_cycle_config_check(tc, today) == Ok::<
        (CycleType, CycleStatisticMethod, u64),
        ConfigError,
    >((c.cycle_type, c.statistic_method, c.traffic_limit))
    &&& c.wf()
    &&& !(c.cycle_type is ONCE) ==> day_index(c.current_cycle_start_date) <= day_index(today)
        <= day_index(c.current_cycle_end_date)
    &&& (c.cycle_type matches CycleType::ONCE(s, e) ==> c.current_cycle_start_date == s
        && c.current_cycle_end_date == e)
    &&& ({
        let dsum = spec_sum_days(
            store.days@,
            day_index(c.current_cycle_start_date),
            day_index(today) - 1,
        );
        let ssum = spec_sum_seconds(
            store.seconds@,
            day_index(today) * 86400,
            (day_index(today) + 1) * 86400,
        );
        c.uplink_traffic_usage == dsum.0 + ssum.0 && c.downlink_traffic_usage == dsum.1 + ssum.1
    })
    &&& rule_views(c.notify@).to_multiset() == spec_config_rule_views(tc.notify).to_multiset()
    &&& c.notify@.len() == spec_config_rule_views(tc.notify).len()
    &&& forall|j: int| 0 <= j < c.notify@.len() ==> !(#[trigger] c.notify@[j]).finished
}

/// The cycle rolled over and one delta was booked against the fresh state.
pub open spec fn rolled_applied(
    tc: TrafficCycleConfig,
    today: Date,
    store: MonitorStore,
    post: CycleAppState,
    action: Option<NotifyAction>,
    up: u64,
    down: u64,
) -> bool {
    exists|c1: CycleAppState|
        #[trigger] generated_cycle_ok(c1, tc, today, store) && delta_applied(
            c1,
            post,
            action,
            up,
            down,
        )
}

/// What one accounting step does to the cycle state. Without a configured
/// cycle nothing happens. Inside the window the delta is booked. Past the
/// window's end, a `ONCE` cycle is silently over; a repeating cycle is
/// derived anew and the delta booked against it — unless regeneration
/// fails, in which case the old state is kept untouched and the fault is
/// reported.
pub open spec fn accumulate_outcome(
    tc: Option<TrafficCycleConfig>,
    cycle0: Option<CycleAppState>,
    store: MonitorStore,
    cycle1: Option<CycleAppState>,
    res: Result<Option<NotifyAction>, ConfigError>,
    up: u64,
    down: u64,
    today: Date,
) -> bool {
    match tc {
        None => {
            &&& cycle1 == cycle0
            &&& res matches Ok(a) && a is None
        },
        Some(cfg) => match cycle0 {
            None => true,
            Some(c) => {
                if day_index(today) <= day_index(c.current_cycle_end_date) {
                    &&& res matches Ok(a)
                    &&& cycle1 matches Some(c2)
                    &&& res matches Ok(a) && cycle1 matches Some(c2) ==> delta_applied(
                        c,
                        c2,
                        a,
                        up,
                        down,
                    ) && c2.wf()
                } else if c.cycle_type is ONCE {
                    &&& cycle1 == cycle0
                    &&& res matches Ok(a) && a is None
                } else {
                    match spec_cycle_config_check(cfg, today) {
                        Err(e) => {
                            &&& cycle1 == cycle0
                            &&& res matches Err(e2) && e2 == e
                        },
                        Ok(_) => {
                            &&& res matches Ok(a)
                            &&& cycle1 matches Some(c2)
                            &&& res matches Ok(a) && cycle1 matches Some(c2) ==> rolled_applied(
                                cfg,
                                today,
                                store,
                                c2,
                                a,
                                up,
                                down,
                            ) && c2.wf()
                        },
                    }
                }
            },
        },
    }
}

/// Parses the statistic-method tag.
fn parse_statistic_method(s: &String) -> (r: Option<CycleStatisticMethod>)
    ensures
        r == spec_method_of(s@),
{
    let sum_tag: String = "sum(in,out)".to_owned();
    let max_tag: String = "max(in,out)".to_owned();
    let out_tag: String = "out".to_owned();
    if *s == sum_tag {
        Some(CycleStatisticMethod::SumInOut)
    } else if *s == max_tag {
        Some(CycleStatisticMethod::MaxInOut)
    } else if *s == out_tag {
        Some(CycleStatisticMethod::OnlyOut)
    } else {
        None
    }
}

/// Parses the cycle-type section into a cycle specification.
fn parse_cycle_type(tc: &TrafficCycleConfig) -> (r: Result<CycleType, ConfigError>)
    ensures
        r == spec_cycle_type_of(*tc),
{
    let day_tag: String = "day".to_owned();
    let month_tag: String = "month".to_owned();
    let once_tag: String = "once".to_owned();
    let is_day = tc.cycle_type == day_tag;
    let is_month = tc.cycle_type == month_tag;
    if is_day || is_month {
        let each = match tc.each {
            None => { return Err(ConfigError::MissingField) },
            Some(e) => e,
        };
        if each <= 0 {
            return Err(ConfigError::NonPositivePeriod);
        }
        let reset = match &tc.traffic_reset_date {
            None => { return Err(ConfigError::MissingField) },
            Some(d) => d,
        };
        match parse_date(reset.as_str()) {
            None => Err(ConfigError::BadDate),
            Some(anchor) => if is_day {
                Ok(CycleType::DAY(each, anchor))
            } else {
                Ok(CycleType::MONTH(each, anchor))
            },
        }
    } else if tc.cycle_type == once_tag {
        let start = match &tc.start_date {
            None => { return Err(ConfigError::MissingField) },
            Some(d) => d,
        };
        let end = match &tc.end_date {
            None => { return Err(ConfigError::MissingField) },
            Some(d) => d,
        };
        match (parse_date(start.as_str()), parse_date(end.as_str())) {
            (Some(s), Some(e)) => Ok(CycleType::ONCE(s, e)),
            _ => Err(ConfigError::BadDate),
        }
    } else {
        Err(ConfigError::BadCycleType)
    }
}

/// Derives a fresh cycle state from the configuration: checks the
/// specification, finds the window that contains `today`, seeds the usage
/// from the day aggregates strictly before `today` inside the window plus
/// today's samples, and installs the notification rules sorted by falling
/// percentage with none fired.
pub fn generate_cycle(tc: &TrafficCycleConfig, today: Date, store: &MonitorStore) -> (r: Result<
    CycleAppState,
    ConfigError,
>)
    requires
        store.wf(),
        valid_date(today),
        1 <= day_index(today) < max_day_index(),
        store_totals(*store) <= u64::MAX,
    ensures
        match r {
            Ok(c) => generated_cycle_ok(c, *tc, today, *store),
            Err(e) => spec_cycle_config_check(*tc, today) == Err::<
                (CycleType, CycleStatisticMethod, u64),
                ConfigError,
            >(e),
        },
{
    proof {
        crate::date::lemma_day_index_range(today);
    }
    let ct = match parse_cycle_type(tc) {
        Err(e) => { return Err(e) },
        Ok(ct) => ct,
    };
    if !cycle_window_fits_check(&ct, today) {
        return Err(ConfigError::DateOutOfRange);
    }
    let method = match parse_statistic_method(&tc.statistic_method) {
        None => { return Err(ConfigError::BadStatisticMethod) },
        Some(m) => m,
    };
    let limit = match parse_traffic_limit(tc.traffic_limit.as_str()) {
        Err(_) => { return Err(ConfigError::BadTrafficLimit) },
        Ok(l) => l,
    };
    let w = derive_cycle_window(&ct, today);
    proof {
        crate::date::lemma_day_index_range(w.0);
        crate::store::lemma_sum_days_subrange(
            store.days@,
            day_index(w.0),
            day_index(today) - 1,
            0,
            max_day_index(),
        );
        crate::store::lemma_sum_seconds_subrange(
            store.seconds@,
            day_index(today) * 86400,
            (day_index(today) + 1) * 86400,
            0,
            (max_day_index() + 1) * 86400,
        );
    }
    let dsum: (u64, u64) = match store.sum_daterange_data(w.0, today.prev_day()) {
        Some(v) => v,
        None => {
            proof {
                crate::store::lemma_sum_days_zero(
                    store.days@,
                    day_index(w.0),
                    day_index(today) - 1,
                );
            }
            (0, 0)
        },
    };
    let today_start = DateTime::day_start(today);
    let tomorrow_start = DateTime::day_start(today.next_day());
    let ssum: (u64, u64) = match store.sum_timerange_data(today_start, tomorrow_start) {
        Some(v) => v,
        None => {
            proof {
                crate::store::lemma_sum_seconds_zero(
                    store.seconds@,
                    day_index(today) * 86400,
                    (day_index(today) + 1) * 86400,
                );
            }
            (0, 0)
        },
    };
    let up_seed: u64 = dsum.0 + ssum.0;
    let down_seed: u64 = dsum.1 + ssum.1;
    let traffic_usage: u64 = method.combine(up_seed, down_seed);
    let ghost svs = spec_config_rule_views(tc.notify);
    let mut built: Vec<CycleNotifyAppState> = Vec::new();
    match &tc.notify {
        None => {
            proof {
                assert(rule_views(built@) =~= svs);
            }
        },
        Some(list) => {
            let mut i: usize = 0;
            proof {
                assert(rule_views(built@) =~= svs.take(0int));
            }
            while i < list.len()
                invariant
                    i <= list@.len(),
                    svs == spec_config_rule_views(tc.notify),
                    tc.notify matches Some(l) && l@ == list@,
                    svs.len() == list@.len(),
                    rule_views(built@) == svs.take(i as int),
                decreases list@.len() - i,
            {
                let ghost before = built@;
                built.push(
                    CycleNotifyAppState {
                        percent: list[i].percent,
                        finished: false,
                        command: clone_opt_string(&list[i].command),
                    },
                );
                proof {
                    assert(rule_views(built@) =~= rule_views(before).push(
                        rule_views(built@)[built@.len() - 1],
                    ));
                    assert(rule_views(built@) =~= svs.take(i + 1));
                }
                i = i + 1;
            }
            proof {
                assert(svs.take(list@.len() as int) =~= svs);
            }
        },
    }
    let ghost built_snapshot = built@;
    let notify = sort_notify_desc(built);
    proof {
        rule_views(notify@).to_multiset_ensures();
        rule_views(built_snapshot).to_multiset_ensures();
        assert forall|j: int| 0 <= j < notify@.len() implies !(#[trigger] notify@[j]).finished by {
            let v = crate::state::rule_view(notify@[j]);
            assert(rule_views(notify@)[j] == v);
            assert(rule_views(notify@).contains(v));
            assert(rule_views(notify@).to_multiset().count(v) > 0);
            assert(rule_views(built_snapshot).to_multiset().count(v) > 0);
            assert(rule_views(built_snapshot).contains(v));
            let k = choose|k: int|
                0 <= k < rule_views(built_snapshot).len() && rule_views(built_snapshot)[k] == v;
            assert(rule_views(built_snapshot)[k] == crate::state::rule_view(built_snapshot[k]));
        }
    }
    let c = CycleAppState {
        cycle_type: ct,
        current_cycle_start_date: w.0,
        current_cycle_end_date: w.1,
        uplink_traffic_usage: up_seed,
        downlink_traffic_usage: down_seed,
        traffic_usage,
        traffic_limit: limit,
        notify,
        statistic_method: method,
    };
    Ok(c)
}

/// Books one usage delta against the configured cycle, rolling the window
/// over first when `today` has left it: the heart of threshold alerting.
/// Returns the new cycle state and either the notification to deliver, or
/// the configuration fault that stopped a rollover (the old state is then
/// kept unchanged, and accounting is skipped for this tick).
pub fn verify_exceeds_limit(
    tc: &Option<TrafficCycleConfig>,
    cycle: Option<CycleAppState>,
    store: &MonitorStore,
    today: Date,
    up: u64,
    down: u64,
) -> (r: (Option<CycleAppState>, Result<Option<NotifyAction>, ConfigError>))
    requires
        store.wf(),
        valid_date(today),
        1 <= day_index(today) < max_day_index(),
        tc is Some ==> cycle is Some,
        cycle matches Some(c) ==> c.wf(),
        cycle matches Some(c) ==> (day_index(today) <= day_index(c.current_cycle_end_date) ==> (
        c.uplink_traffic_usage + up <= u64::MAX && c.downlink_traffic_usage + down <= u64::MAX
            && combine_usage(
            c.statistic_method,
            c.uplink_traffic_usage + up,
            c.downlink_traffic_usage + down,
        ) <= u64::MAX)),
        store_totals(*store) + up + down <= u64::MAX,
    ensures
        accumulate_outcome(*tc, cycle, *store, r.0, r.1, up, down, today),
        r.0 matches Some(c2) ==> c2.wf(),
        tc is None ==> r.0 == cycle,
    {
    let cfg = match tc {
        None => { return (cycle, Ok(None)) },
        Some(cfg) => cfg,
    };
    let mut c = match cycle {
        None => { return (None, Ok(None)) },
        Some(c) => c,
    };
    let ghost c0 = c;
    if !c.needs_rollover(today) {
        let a = c.apply_delta(up, down);
        return (Some(c), Ok(a));
    }
    let is_once = match &c.cycle_type {
        CycleType::ONCE(_, _) => true,
        _ => false,
    };
    if is_once {
        return (Some(c), Ok(None));
    }
    let mut fresh = match generate_cycle(cfg, today, store) {
        Err(e) => { return (Some(c), Err(e)) },
        Ok(fresh) => fresh,
    };
    let ghost fresh0 = fresh;
    proof {
        crate::date::lemma_day_index_range(fresh.current_cycle_start_date);
        crate::store::lemma_sum_days_subrange(
            store.days@,
            day_index(fresh.current_cycle_start_date),
            day_index(today) - 1,
            0,
            max_day_index(),
        );
        crate::store::lemma_sum_seconds_subrange(
            store.seconds@,
            day_index(today) * 86400,
            (day_index(today) + 1) * 86400,
            0,
            (max_day_index() + 1) * 86400,
        );
    }
    let a = fresh.apply_delta(up, down);
    proof {
        assert(generated_cycle_ok(fresh0, *cfg, today, *store));
        assert(delta_applied(fresh0, fresh, a, up, down));
        assert(rolled_applied(*cfg, today, *store, fresh, a, up, down));
    }
    (Some(fresh), Ok(a))
}

/// Rolling up a day twice over unchanged hour aggregates yields the same
/// aggregate values, and the second retention pass deletes nothing more.
pub proof fn lemma_day_rollup_idempotent(
    s0: MonitorStore,
    s1: MonitorStore,
    s2: MonitorStore,
    day: Date,
)
    requires
        day_rollup_relation(s0, s1, day),
        day_rollup_relation(s1, s2, day),
    ensures
        s2.seconds@ == s1.seconds@,
        s2.hours@ == s1.hours@,
        forall|d: int| #[trigger] day_value(s2.days@, d) == day_value(s1.days@, d),
{
    let d = day_index(day);
    if exists|i: int| 0 <= i < s0.hours@.len() && hour_on_day(#[trigger] s0.hours@[i], d) {
        assert(day_value(s2.days@, d) == Some(spec_sum_hours(s1.hours@, d)));
        assert(day_value(s1.days@, d) == Some(spec_sum_hours(s0.hours@, d)));
        lemma_seconds_kept_idempotent(s0.seconds@, (d - 1) * 86400);
    }
}

} // verus!
