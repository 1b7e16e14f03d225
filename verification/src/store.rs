//! The monitor store: samples and their hour and day aggregates.
//!
//! Rows live in three tables. `seconds` holds one sample per collection
//! interval; `hours` and `days` hold at most one aggregate row per hour and
//! per day. Aggregates are upserted by key, never incremented, so a rollup
//! re-run over unchanged samples writes the same values again.

use vstd::prelude::*;
use vstd::pervasive::VecAdditionalExecFns;
use crate::date::{day_index, valid_date, Date};
use crate::datetime::{second_index, valid_datetime, DateTime};

verus! {

/// One sample: the traffic between two consecutive counter readings.
#[derive(Clone, Copy, PartialEq, Eq, Structural, Debug)]
pub struct MonitorSecond {
    pub start_time: DateTime,
    pub end_time: DateTime,
    /// Raw cumulative counter at `end_time`, uplink.
    pub uplink_traffic_readings: u64,
    /// Raw cumulative counter at `end_time`, downlink.
    pub downlink_traffic_readings: u64,
    pub uplink_traffic_usage: u64,
    pub downlink_traffic_usage: u64,
    /// Seconds from `start_time` to `end_time`.
    pub time_interval: u64,
    /// Whether the row was entered by hand rather than sampled.
    pub is_corrected: bool,
}

/// One hour aggregate: the sum of the samples of one hour.
#[derive(Clone, Copy, PartialEq, Eq, Structural, Debug)]
pub struct MonitorHour {
    pub day: Date,
    pub hour: u64,
    pub uplink_traffic_usage: u64,
    pub downlink_traffic_usage: u64,
}

/// One day aggregate: the sum of the hour aggregates of one day.
#[derive(Clone, Copy, PartialEq, Eq, Structural, Debug)]
pub struct MonitorDay {
    pub day: Date,
    pub uplink_traffic_usage: u64,
    pub downlink_traffic_usage: u64,
}

/// The sample's start time lies in the half-open range `lo ..< hi` of
/// second indexes.
pub open spec fn second_in_range(e: MonitorSecond, lo: int, hi: int) -> bool {
    lo <= second_index(e.start_time) < hi
}

/// The hour row belongs to the day with index `d`.
pub open spec fn hour_on_day(h: MonitorHour, d: int) -> bool {
    day_index(h.day) == d
}

/// The hour row's key is day index `d` and hour `h`.
pub open spec fn hour_has_key(row: MonitorHour, d: int, h: int) -> bool {
    day_index(row.day) == d && row.hour == h
}

/// The day row's day index lies in the inclusive range `lo ..= hi`.
pub open spec fn day_in_range(e: MonitorDay, lo: int, hi: int) -> bool {
    lo <= day_index(e.day) <= hi
}

/// Uplink and downlink sums of the samples whose start time lies in
/// `lo ..< hi`.
pub open spec fn spec_sum_seconds(s: Seq<MonitorSecond>, lo: int, hi: int) -> (int, int)
    decreases s.len(),
{
    if s.len() == 0 {
        (0, 0)
    } else {
        let p = spec_sum_seconds(s.drop_last(), lo, hi);
        if second_in_range(s.last(), lo, hi) {
            (p.0 + s.last().uplink_traffic_usage, p.1 + s.last().downlink_traffic_usage)
        } else {
            p
        }
    }
}

/// Uplink and downlink sums of the hour rows of the day with index `d`.
pub open spec fn spec_sum_hours(s: Seq<MonitorHour>, d: int) -> (int, int)
    decreases s.len(),
{
    if s.len() == 0 {
        (0, 0)
    } else {
        let p = spec_sum_hours(s.drop_last(), d);
        if hour_on_day(s.last(), d) {
            (p.0 + s.last().uplink_traffic_usage, p.1 + s.last().downlink_traffic_usage)
        } else {
            p
        }
    }
}

/// Uplink and downlink sums of the day rows with day index in `lo ..= hi`.
pub open spec fn spec_sum_days(s: Seq<MonitorDay>, lo: int, hi: int) -> (int, int)
    decreases s.len(),
{
    if s.len() == 0 {
        (0, 0)
    } else {
        let p = spec_sum_days(s.drop_last(), lo, hi);
        if day_in_range(s.last(), lo, hi) {
            (p.0 + s.last().uplink_traffic_usage, p.1 + s.last().downlink_traffic_usage)
        } else {
            p
        }
    }
}

/// Uplink and downlink sums over the whole hour table.
pub open spec fn spec_sum_hours_all(s: Seq<MonitorHour>) -> (int, int)
    decreases s.len(),
{
    if s.len() == 0 {
        (0, 0)
    } else {
        let p = spec_sum_hours_all(s.drop_last());
        (p.0 + s.last().uplink_traffic_usage, p.1 + s.last().downlink_traffic_usage)
    }
}

/// One day's hour sums never exceed the whole table's sums.
pub proof fn lemma_sum_hours_le_all(s: Seq<MonitorHour>, d: int)
    ensures
        0 <= spec_sum_hours(s, d).0 <= spec_sum_hours_all(s).0,
        0 <= spec_sum_hours(s, d).1 <= spec_sum_hours_all(s).1,
    decreases s.len(),
{
    if s.len() > 0 {
        lemma_sum_hours_le_all(s.drop_last(), d);
    }
}

/// Replacing one hour row changes the whole table's sums by exactly the
/// difference of the rows.
pub proof fn lemma_sum_hours_all_update(s: Seq<MonitorHour>, j: int, row: MonitorHour)
    requires
        0 <= j < s.len(),
    ensures
        spec_sum_hours_all(s.update(j, row)).0 == spec_sum_hours_all(s).0
            - s[j].uplink_traffic_usage + row.uplink_traffic_usage,
        spec_sum_hours_all(s.update(j, row)).1 == spec_sum_hours_all(s).1
            - s[j].downlink_traffic_usage + row.downlink_traffic_usage,
    decreases s.len(),
{
    let t = s.update(j, row);
    if j == s.len() - 1 {
        assert(t.drop_last() =~= s.drop_last());
    } else {
        assert(t.drop_last() =~= s.drop_last().update(j, row));
        lemma_sum_hours_all_update(s.drop_last(), j, row);
    }
}

/// Replacing one day row inside the range changes the range sums by exactly
/// the difference of the rows.
pub proof fn lemma_sum_days_update(s: Seq<MonitorDay>, j: int, row: MonitorDay, lo: int, hi: int)
    requires
        0 <= j < s.len(),
        day_in_range(s[j], lo, hi),
        day_in_range(row, lo, hi),
    ensures
        spec_sum_days(s.update(j, row), lo, hi).0 == spec_sum_days(s, lo, hi).0
            - s[j].uplink_traffic_usage + row.uplink_traffic_usage,
        spec_sum_days(s.update(j, row), lo, hi).1 == spec_sum_days(s, lo, hi).1
            - s[j].downlink_traffic_usage + row.downlink_traffic_usage,
    decreases s.len(),
{
    let t = s.update(j, row);
    if j == s.len() - 1 {
        assert(t.drop_last() =~= s.drop_last());
    } else {
        assert(t.drop_last() =~= s.drop_last().update(j, row));
        lemma_sum_days_update(s.drop_last(), j, row, lo, hi);
    }
}

/// A retention pass can only shrink the range sums.
pub proof fn lemma_sum_seconds_kept_le(s: Seq<MonitorSecond>, c: int, lo: int, hi: int)
    ensures
        spec_sum_seconds(seconds_kept(s, c), lo, hi).0 <= spec_sum_seconds(s, lo, hi).0,
        spec_sum_seconds(seconds_kept(s, c), lo, hi).1 <= spec_sum_seconds(s, lo, hi).1,
    decreases s.len(),
{
    lemma_sum_seconds_subrange(s, lo, hi, lo, hi);
    if s.len() > 0 {
        lemma_sum_seconds_kept_le(s.drop_last(), c, lo, hi);
        let kept = seconds_kept(s, c);
        if second_index(s.last().end_time) >= c {
            assert(kept.drop_last() =~= seconds_kept(s.drop_last(), c));
            assert(kept.last() == s.last());
        } else {
            lemma_sum_seconds_subrange(seconds_kept(s.drop_last(), c), lo, hi, lo, hi);
        }
    }
}

/// The value of the hour aggregate with the given key, if the row exists.
pub open spec fn hour_value(s: Seq<MonitorHour>, d: int, h: int) -> Option<(int, int)>
    decreases s.len(),
{
    if s.len() == 0 {
        None
    } else if hour_has_key(s.last(), d, h) {
        Some((s.last().uplink_traffic_usage as int, s.last().downlink_traffic_usage as int))
    } else {
        hour_value(s.drop_last(), d, h)
    }
}

/// The value of the day aggregate of the day with index `d`, if the row
/// exists.
pub open spec fn day_value(s: Seq<MonitorDay>, d: int) -> Option<(int, int)>
    decreases s.len(),
{
    if s.len() == 0 {
        None
    } else if day_index(s.last().day) == d {
        Some((s.last().uplink_traffic_usage as int, s.last().downlink_traffic_usage as int))
    } else {
        day_value(s.drop_last(), d)
    }
}

/// Sums over a prefix never exceed the sums over the whole table.
pub proof fn lemma_sum_seconds_prefix(s: Seq<MonitorSecond>, lo: int, hi: int, i: int)
    requires
        0 <= i <= s.len(),
    ensures
        spec_sum_seconds(s.take(i), lo, hi).0 <= spec_sum_seconds(s, lo, hi).0,
        spec_sum_seconds(s.take(i), lo, hi).1 <= spec_sum_seconds(s, lo, hi).1,
        spec_sum_seconds(s, lo, hi).0 >= 0,
        spec_sum_seconds(s, lo, hi).1 >= 0,
    decreases s.len(),
{
    if s.len() > 0 {
        lemma_sum_seconds_prefix(s.drop_last(), lo, hi, if i <= s.len() - 1 {
            i
        } else {
            i - 1
        });
        if i <= s.len() - 1 {
            assert(s.take(i) =~= s.drop_last().take(i));
        } else {
            assert(s.take(i) =~= s);
        }
    } else {
        assert(s.take(i) =~= s);
    }
}

/// Sums over a prefix never exceed the sums over the whole table.
pub proof fn lemma_sum_hours_prefix(s: Seq<MonitorHour>, d: int, i: int)
    requires
        0 <= i <= s.len(),
    ensures
        spec_sum_hours(s.take(i), d).0 <= spec_sum_hours(s, d).0,
        spec_sum_hours(s.take(i), d).1 <= spec_sum_hours(s, d).1,
        spec_sum_hours(s, d).0 >= 0,
        spec_sum_hours(s, d).1 >= 0,
    decreases s.len(),
{
    if s.len() > 0 {
        lemma_sum_hours_prefix(s.drop_last(), d, if i <= s.len() - 1 {
            i
        } else {
            i - 1
        });
        if i <= s.len() - 1 {
            assert(s.take(i) =~= s.drop_last().take(i));
        } else {
            assert(s.take(i) =~= s);
        }
    } else {
        assert(s.take(i) =~= s);
    }
}

/// Sums over a prefix never exceed the sums over the whole table.
pub proof fn lemma_sum_days_prefix(s: Seq<MonitorDay>, lo: int, hi: int, i: int)
    requires
        0 <= i <= s.len(),
    ensures
        spec_sum_days(s.take(i), lo, hi).0 <= spec_sum_days(s, lo, hi).0,
        spec_sum_days(s.take(i), lo, hi).1 <= spec_sum_days(s, lo, hi).1,
        spec_sum_days(s, lo, hi).0 >= 0,
        spec_sum_days(s, lo, hi).1 >= 0,
    decreases s.len(),
{
    if s.len() > 0 {
        lemma_sum_days_prefix(s.drop_last(), lo, hi, if i <= s.len() - 1 {
            i
        } else {
            i - 1
        });
        if i <= s.len() - 1 {
            assert(s.take(i) =~= s.drop_last().take(i));
        } else {
            assert(s.take(i) =~= s);
        }
    } else {
        assert(s.take(i) =~= s);
    }
}

/// The samples whose end time is at or after second index `c`: what a
/// retention pass keeps.
pub open spec fn seconds_kept(s: Seq<MonitorSecond>, c: int) -> Seq<MonitorSecond>
    decreases s.len(),
{
    if s.len() == 0 {
        Seq::empty()
    } else {
        let rest = seconds_kept(s.drop_last(), c);
        if second_index(s.last().end_time) >= c {
            rest.push(s.last())
        } else {
            rest
        }
    }
}

/// The samples whose start time lies in `lo ..< hi`, in order.
pub open spec fn seconds_listed(s: Seq<MonitorSecond>, lo: int, hi: int) -> Seq<MonitorSecond>
    decreases s.len(),
{
    if s.len() == 0 {
        Seq::empty()
    } else {
        let rest = seconds_listed(s.drop_last(), lo, hi);
        if second_in_range(s.last(), lo, hi) {
            rest.push(s.last())
        } else {
            rest
        }
    }
}

/// The start timestamp of an hour row's hour.
pub open spec fn hour_row_start(e: MonitorHour) -> int {
    second_index(DateTime { date: e.day, hour: e.hour, minute: 0, second: 0 })
}

/// The hour rows whose hour starts in `lo ..< hi`, in order.
pub open spec fn hours_listed(s: Seq<MonitorHour>, lo: int, hi: int) -> Seq<MonitorHour>
    decreases s.len(),
{
    if s.len() == 0 {
        Seq::empty()
    } else {
        let rest = hours_listed(s.drop_last(), lo, hi);
        if lo <= hour_row_start(s.last()) < hi {
            rest.push(s.last())
        } else {
            rest
        }
    }
}

/// The day rows with day index in `lo ..= hi`, in order.
pub open spec fn days_listed(s: Seq<MonitorDay>, lo: int, hi: int) -> Seq<MonitorDay>
    decreases s.len(),
{
    if s.len() == 0 {
        Seq::empty()
    } else {
        let rest = days_listed(s.drop_last(), lo, hi);
        if day_in_range(s.last(), lo, hi) {
            rest.push(s.last())
        } else {
            rest
        }
    }
}

/// Sums over a narrower time range never exceed sums over a wider one.
pub proof fn lemma_sum_seconds_subrange(s: Seq<MonitorSecond>, lo: int, hi: int, lo2: int, hi2: int)
    requires
        lo2 <= lo,
        hi <= hi2,
    ensures
        spec_sum_seconds(s, lo, hi).0 <= spec_sum_seconds(s, lo2, hi2).0,
        spec_sum_seconds(s, lo, hi).1 <= spec_sum_seconds(s, lo2, hi2).1,
        spec_sum_seconds(s, lo, hi).0 >= 0,
        spec_sum_seconds(s, lo, hi).1 >= 0,
    decreases s.len(),
{
    if s.len() > 0 {
        lemma_sum_seconds_subrange(s.drop_last(), lo, hi, lo2, hi2);
    }
}

/// Sums over a narrower day range never exceed sums over a wider one.
pub proof fn lemma_sum_days_subrange(s: Seq<MonitorDay>, lo: int, hi: int, lo2: int, hi2: int)
    requires
        lo2 <= lo,
        hi <= hi2,
    ensures
        spec_sum_days(s, lo, hi).0 <= spec_sum_days(s, lo2, hi2).0,
        spec_sum_days(s, lo, hi).1 <= spec_sum_days(s, lo2, hi2).1,
        spec_sum_days(s, lo, hi).0 >= 0,
        spec_sum_days(s, lo, hi).1 >= 0,
    decreases s.len(),
{
    if s.len() > 0 {
        lemma_sum_days_subrange(s.drop_last(), lo, hi, lo2, hi2);
    }
}

/// With no sample in the range, the range sums are zero.
pub proof fn lemma_sum_seconds_zero(s: Seq<MonitorSecond>, lo: int, hi: int)
    requires
        forall|i: int| 0 <= i < s.len() ==> !second_in_range(#[trigger] s[i], lo, hi),
    ensures
        spec_sum_seconds(s, lo, hi) == (0int, 0int),
    decreases s.len(),
{
    if s.len() > 0 {
        assert(forall|i: int|
            0 <= i < s.drop_last().len() ==> #[trigger] s.drop_last()[i] == s[i]);
        lemma_sum_seconds_zero(s.drop_last(), lo, hi);
        assert(!second_in_range(s[s.len() - 1], lo, hi));
    }
}

/// With no day row in the range, the range sums are zero.
pub proof fn lemma_sum_days_zero(s: Seq<MonitorDay>, lo: int, hi: int)
    requires
        forall|i: int| 0 <= i < s.len() ==> !day_in_range(#[trigger] s[i], lo, hi),
    ensures
        spec_sum_days(s, lo, hi) == (0int, 0int),
    decreases s.len(),
{
    if s.len() > 0 {
        assert(forall|i: int|
            0 <= i < s.drop_last().len() ==> #[trigger] s.drop_last()[i] == s[i]);
        lemma_sum_days_zero(s.drop_last(), lo, hi);
        assert(!day_in_range(s[s.len() - 1], lo, hi));
    }
}

/// Replacing an aggregate row by another row with the same key changes only
/// that key's value.
proof fn lemma_hour_value_update(s: Seq<MonitorHour>, j: int, row: MonitorHour)
    requires
        0 <= j < s.len(),
        forall|i1: int, i2: int|
            0 <= i1 < i2 < s.len() ==> !(day_index(#[trigger] s[i1].day) == day_index(
                #[trigger] s[i2].day,
            ) && s[i1].hour == s[i2].hour),
        hour_has_key(s[j], day_index(row.day), row.hour as int),
    ensures
        hour_value(s.update(j, row), day_index(row.day), row.hour as int) == Some(
            (row.uplink_traffic_usage as int, row.downlink_traffic_usage as int),
        ),
        forall|d: int, h: int|
            !(d == day_index(row.day) && h == row.hour) ==> #[trigger] hour_value(
                s.update(j, row),
                d,
                h,
            ) == hour_value(s, d, h),
    decreases s.len(),
{
    let t = s.update(j, row);
    let d0 = day_index(row.day);
    let h0 = row.hour as int;
    if j == s.len() - 1 {
        assert(t.drop_last() =~= s.drop_last());
        assert(t.last() == row);
        assert forall|d: int, h: int| !(d == d0 && h == h0) implies #[trigger] hour_value(t, d, h)
            == hour_value(s, d, h) by {
            assert(hour_value(t, d, h) == hour_value(t.drop_last(), d, h));
            assert(hour_value(s, d, h) == hour_value(s.drop_last(), d, h));
        }
    } else {
        assert(t.drop_last() =~= s.drop_last().update(j, row));
        assert(t.last() == s.last());
        lemma_hour_value_update(s.drop_last(), j, row);
        assert(!(day_index(s[s.len() - 1].day) == d0 && s[s.len() - 1].hour == h0));
        assert forall|d: int, h: int| !(d == d0 && h == h0) implies #[trigger] hour_value(t, d, h)
            == hour_value(s, d, h) by {
            if hour_has_key(s.last(), d, h) {
                assert(hour_value(t, d, h) == Some(
                    (
                        s.last().uplink_traffic_usage as int,
                        s.last().downlink_traffic_usage as int,
                    ),
                ));
            } else {
                assert(hour_value(t, d, h) == hour_value(t.drop_last(), d, h));
                assert(hour_value(t.drop_last(), d, h) == hour_value(
                    s.drop_last().update(j, row),
                    d,
                    h,
                ));
                assert(hour_value(s.drop_last().update(j, row), d, h) == hour_value(
                    s.drop_last(),
                    d,
                    h,
                ));
            }
        }
    }
}

/// Replacing a day row by another row for the same day changes only that
/// day's value.
proof fn lemma_day_value_update(s: Seq<MonitorDay>, j: int, row: MonitorDay)
    requires
        0 <= j < s.len(),
        forall|i1: int, i2: int|
            0 <= i1 < i2 < s.len() ==> day_index(#[trigger] s[i1].day) != day_index(
                #[trigger] s[i2].day,
            ),
        day_index(s[j].day) == day_index(row.day),
    ensures
        day_value(s.update(j, row), day_index(row.day)) == Some(
            (row.uplink_traffic_usage as int, row.downlink_traffic_usage as int),
        ),
        forall|d: int|
            d != day_index(row.day) ==> #[trigger] day_value(s.update(j, row), d) == day_value(
                s,
                d,
            ),
    decreases s.len(),
{
    let t = s.update(j, row);
    let d0 = day_index(row.day);
    if j == s.len() - 1 {
        assert(t.drop_last() =~= s.drop_last());
        assert(t.last() == row);
        assert forall|d: int| d != d0 implies #[trigger] day_value(t, d) == day_value(s, d) by {
            assert(day_value(t, d) == day_value(t.drop_last(), d));
            assert(day_value(s, d) == day_value(s.drop_last(), d));
        }
    } else {
        assert(t.drop_last() =~= s.drop_last().update(j, row));
        assert(t.last() == s.last());
        lemma_day_value_update(s.drop_last(), j, row);
        assert(day_index(s[s.len() - 1].day) != d0);
        assert forall|d: int| d != d0 implies #[trigger] day_value(t, d) == day_value(s, d) by {
            if day_index(s.last().day) == d {
                assert(day_value(t, d) == Some(
                    (
                        s.last().uplink_traffic_usage as int,
                        s.last().downlink_traffic_usage as int,
                    ),
                ));
            } else {
                assert(day_value(t, d) == day_value(t.drop_last(), d));
                assert(day_value(t.drop_last(), d) == day_value(s.drop_last().update(j, row), d));
                assert(day_value(s.drop_last().update(j, row), d) == day_value(s.drop_last(), d));
            }
        }
    }
}

/// The day aggregate at a matching, unique row is that row's value.
proof fn lemma_day_value_at(s: Seq<MonitorDay>, i: int, d: int)
    requires
        0 <= i < s.len(),
        day_index(s[i].day) == d,
        forall|i1: int, i2: int|
            0 <= i1 < i2 < s.len() ==> day_index(#[trigger] s[i1].day) != day_index(
                #[trigger] s[i2].day,
            ),
    ensures
        day_value(s, d) == Some(
            (s[i].uplink_traffic_usage as int, s[i].downlink_traffic_usage as int),
        ),
    decreases s.len(),
{
    if i == s.len() - 1 {
    } else {
        assert(day_index(s[s.len() - 1].day) != d);
        lemma_day_value_at(s.drop_last(), i, d);
    }
}

/// With no matching row there is no day aggregate.
proof fn lemma_day_value_none(s: Seq<MonitorDay>, d: int)
    requires
        forall|i: int| 0 <= i < s.len() ==> day_index(#[trigger] s[i].day) != d,
    ensures
        day_value(s, d) is None,
    decreases s.len(),
{
    if s.len() > 0 {
        assert(forall|i: int|
            0 <= i < s.drop_last().len() ==> #[trigger] s.drop_last()[i] == s[i]);
        lemma_day_value_none(s.drop_last(), d);
    }
}

/// A day aggregate's value contributes no more than the sums of any range
/// that contains its day.
pub proof fn lemma_day_value_le_sum(s: Seq<MonitorDay>, d: int, lo: int, hi: int)
    requires
        lo <= d <= hi,
    ensures
        day_value(s, d) matches Some(v) ==> v.0 <= spec_sum_days(s, lo, hi).0 && v.1
            <= spec_sum_days(s, lo, hi).1,
    decreases s.len(),
{
    if s.len() > 0 {
        lemma_sum_days_subrange(s.drop_last(), lo, hi, lo, hi);
        lemma_day_value_le_sum(s.drop_last(), d, lo, hi);
    }
}

/// `pre` is a baseline the store can offer for the next delta: the newest
/// sample that was really sampled, or nothing when none exists.
pub open spec fn baseline_ok(seconds: Seq<MonitorSecond>, pre: Option<MonitorSecond>) -> bool {
    match pre {
        Some(e) => {
            &&& exists|i: int| 0 <= i < seconds.len() && #[trigger] seconds[i] == e
            &&& !e.is_corrected
            &&& forall|i: int|
                0 <= i < seconds.len() && !(#[trigger] seconds[i]).is_corrected ==> second_index(
                    seconds[i].end_time,
                ) <= second_index(e.end_time)
        },
        None => forall|i: int| 0 <= i < seconds.len() ==> (#[trigger] seconds[i]).is_corrected,
    }
}

/// The in-memory monitor store.
#[derive(Clone, Debug)]
pub struct MonitorStore {
    pub seconds: Vec<MonitorSecond>,
    pub hours: Vec<MonitorHour>,
    pub days: Vec<MonitorDay>,
}

impl MonitorStore {
    /// Every row carries real dates and times, and the aggregate tables
    /// hold at most one row per key.
    pub open spec fn wf(self) -> bool {
        &&& forall|i: int|
            0 <= i < self.seconds@.len() ==> valid_datetime(#[trigger] self.seconds@[i].start_time)
                && valid_datetime(self.seconds@[i].end_time)
        &&& forall|i: int|
            0 <= i < self.hours@.len() ==> valid_date(#[trigger] self.hours@[i].day)
                && self.hours@[i].hour < 24
        &&& forall|i: int| 0 <= i < self.days@.len() ==> valid_date(#[trigger] self.days@[i].day)
        &&& forall|i: int, j: int|
            0 <= i < j < self.hours@.len() ==> !(day_index(#[trigger] self.hours@[i].day)
                == day_index(#[trigger] self.hours@[j].day) && self.hours@[i].hour
                == self.hours@[j].hour)
        &&& forall|i: int, j: int|
            0 <= i < j < self.days@.len() ==> day_index(#[trigger] self.days@[i].day) != day_index(
                #[trigger] self.days@[j].day,
            )
    }

    /// An empty store.
    pub fn new() -> (r: MonitorStore)
        ensures
            r.wf(),
            r.seconds@.len() == 0,
            r.hours@.len() == 0,
            r.days@.len() == 0,
    {
        MonitorStore { seconds: Vec::new(), hours: Vec::new(), days: Vec::new() }
    }

    /// Appends one sample row.
    pub fn create_second(&mut self, entity: MonitorSecond)
        requires
            old(self).wf(),
            valid_datetime(entity.start_time),
            valid_datetime(entity.end_time),
        ensures
            final(self).wf(),
            final(self).seconds@ == old(self).seconds@.push(entity),
            final(self).hours@ == old(self).hours@,
            final(self).days@ == old(self).days@,
    {
        self.seconds.push(entity);
    }

    /// The newest sample that was really sampled (not entered by hand): the
    /// baseline for the next delta. Nothing when no such sample exists.
    pub fn get_pre_data(&self) -> (r: Option<MonitorSecond>)
        requires
            self.wf(),
        ensures
            baseline_ok(self.seconds@, r),
    {
        let mut best: Option<MonitorSecond> = None;
        let mut i: usize = 0;
        while i < self.seconds.len()
            invariant
                self.wf(),
                i <= self.seconds@.len(),
                match best {
                    Some(e) => {
                        &&& exists|j: int|
                            0 <= j < i && #[trigger] self.seconds@[j] == e
                        &&& valid_datetime(e.start_time)
                        &&& valid_datetime(e.end_time)
                        &&& !e.is_corrected
                        &&& forall|j: int|
                            0 <= j < i && !(#[trigger] self.seconds@[j]).is_corrected
                                ==> second_index(self.seconds@[j].end_time) <= second_index(
                                e.end_time,
                            )
                    },
                    None => forall|j: int|
                        0 <= j < i ==> (#[trigger] self.seconds@[j]).is_corrected,
                },
            decreases self.seconds@.len() - i,
        {
            let row = self.seconds[i];
            proof {
                assert(valid_datetime(self.seconds@[i as int].start_time));
            }
            if !row.is_corrected {
                match &best {
                    Some(e) => {
                        if e.end_time.is_before(&row.end_time) {
                            best = Some(row);
                        }
                    },
                    None => {
                        best = Some(row);
                    },
                }
            }
            i = i + 1;
        }
        best
    }

    /// Sums the samples whose start time lies in `start ..< end`. Nothing
    /// when no sample does.
    pub fn sum_timerange_data(&self, start: DateTime, end: DateTime) -> (r: Option<(u64, u64)>)
        requires
            self.wf(),
            valid_datetime(start),
            valid_datetime(end),
            spec_sum_seconds(self.seconds@, second_index(start), second_index(end)).0 <= u64::MAX,
            spec_sum_seconds(self.seconds@, second_index(start), second_index(end)).1 <= u64::MAX,
        ensures
            ({
                let lo = second_index(start);
                let hi = second_index(end);
                match r {
                    Some(v) => (exists|i: int|
                        0 <= i < self.seconds@.len() && second_in_range(
                            #[trigger] self.seconds@[i],
                            lo,
                            hi,
                        )) && v.0 == spec_sum_seconds(self.seconds@, lo, hi).0 && v.1
                        == spec_sum_seconds(self.seconds@, lo, hi).1,
                    None => forall|i: int|
                        0 <= i < self.seconds@.len() ==> !second_in_range(
                            #[trigger] self.seconds@[i],
                            lo,
                            hi,
                        ),
                }
            }),
    {
        let ghost lo = second_index(start);
        let ghost hi = second_index(end);
        let slo: u64 = start.seconds();
        let shi: u64 = end.seconds();
        let mut up: u64 = 0;
        let mut down: u64 = 0;
        let mut found: bool = false;
        let mut i: usize = 0;
        proof {
            assert(self.seconds@.take(0int) =~= Seq::<MonitorSecond>::empty());
        }
        while i < self.seconds.len()
            invariant
                self.wf(),
                i <= self.seconds@.len(),
                slo == lo,
                shi == hi,
                spec_sum_seconds(self.seconds@, lo, hi).0 <= u64::MAX,
                spec_sum_seconds(self.seconds@, lo, hi).1 <= u64::MAX,
                up == spec_sum_seconds(self.seconds@.take(i as int), lo, hi).0,
                down == spec_sum_seconds(self.seconds@.take(i as int), lo, hi).1,
                found <==> exists|j: int|
                    0 <= j < i && second_in_range(#[trigger] self.seconds@[j], lo, hi),
            decreases self.seconds@.len() - i,
        {
            let row = self.seconds[i];
            proof {
                assert(self.seconds@.take(i + 1).drop_last() =~= self.seconds@.take(i as int));
                assert(self.seconds@.take(i + 1).last() == self.seconds@[i as int]);
                lemma_sum_seconds_prefix(self.seconds@, lo, hi, i + 1);
            }
            let st: u64 = row.start_time.seconds();
            if slo <= st && st < shi {
                up = up + row.uplink_traffic_usage;
                down = down + row.downlink_traffic_usage;
                found = true;
            }
            i = i + 1;
        }
        proof {
            assert(self.seconds@.take(self.seconds@.len() as int) =~= self.seconds@);
        }
        if found {
            Some((up, down))
        } else {
            None
        }
    }

    /// Sums the hour aggregates of `day`. Nothing when the day has none.
    pub fn sum_day_data(&self, day: Date) -> (r: Option<(u64, u64)>)
        requires
            self.wf(),
            valid_date(day),
            spec_sum_hours(self.hours@, day_index(day)).0 <= u64::MAX,
            spec_sum_hours(self.hours@, day_index(day)).1 <= u64::MAX,
        ensures
            ({
                let d = day_index(day);
                match r {
                    Some(v) => (exists|i: int|
                        0 <= i < self.hours@.len() && hour_on_day(#[trigger] self.hours@[i], d))
                        && v.0 == spec_sum_hours(self.hours@, d).0 && v.1 == spec_sum_hours(
                        self.hours@,
                        d,
                    ).1,
                    None => forall|i: int|
                        0 <= i < self.hours@.len() ==> !hour_on_day(#[trigger] self.hours@[i], d),
                }
            }),
    {
        let ghost d = day_index(day);
        let di: u64 = day.index();
        let mut up: u64 = 0;
        let mut down: u64 = 0;
        let mut found: bool = false;
        let mut i: usize = 0;
        proof {
            assert(self.hours@.take(0int) =~= Seq::<MonitorHour>::empty());
        }
        while i < self.hours.len()
            invariant
                self.wf(),
                i <= self.hours@.len(),
                di == d,
                spec_sum_hours(self.hours@, d).0 <= u64::MAX,
                spec_sum_hours(self.hours@, d).1 <= u64::MAX,
                up == spec_sum_hours(self.hours@.take(i as int), d).0,
                down == spec_sum_hours(self.hours@.take(i as int), d).1,
                found <==> exists|j: int|
                    0 <= j < i && hour_on_day(#[trigger] self.hours@[j], d),
            decreases self.hours@.len() - i,
        {
            let row = self.hours[i];
            proof {
                assert(self.hours@.take(i + 1).drop_last() =~= self.hours@.take(i as int));
                assert(self.hours@.take(i + 1).last() == self.hours@[i as int]);
                lemma_sum_hours_prefix(self.hours@, d, i + 1);
            }
            if row.day.index() == di {
                up = up + row.uplink_traffic_usage;
                down = down + row.downlink_traffic_usage;
                found = true;
            }
            i = i + 1;
        }
        proof {
            assert(self.hours@.take(self.hours@.len() as int) =~= self.hours@);
        }
        if found {
            Some((up, down))
        } else {
            None
        }
    }

    /// Sums the day aggregates with day in `start ..= end`. Nothing when
    /// none lies in the range.
    pub fn sum_daterange_data(&self, start: Date, end: Date) -> (r: Option<(u64, u64)>)
        requires
            self.wf(),
            valid_date(start),
            valid_date(end),
            spec_sum_days(self.days@, day_index(start), day_index(end)).0 <= u64::MAX,
            spec_sum_days(self.days@, day_index(start), day_index(end)).1 <= u64::MAX,
        ensures
            ({
                let lo = day_index(start);
                let hi = day_index(end);
                match r {
                    Some(v) => (exists|i: int|
                        0 <= i < self.days@.len() && day_in_range(#[trigger] self.days@[i], lo, hi))
                        && v.0 == spec_sum_days(self.days@, lo, hi).0 && v.1 == spec_sum_days(
                        self.days@,
                        lo,
                        hi,
                    ).1,
                    None => forall|i: int|
                        0 <= i < self.days@.len() ==> !day_in_range(
                            #[trigger] self.days@[i],
                            lo,
                            hi,
                        ),
                }
            }),
    {
        let ghost lo = day_index(start);
        let ghost hi = day_index(end);
        let dlo: u64 = start.index();
        let dhi: u64 = end.index();
        let mut up: u64 = 0;
        let mut down: u64 = 0;
        let mut found: bool = false;
        let mut i: usize = 0;
        proof {
            assert(self.days@.take(0int) =~= Seq::<MonitorDay>::empty());
        }
        while i < self.days.len()
            invariant
                self.wf(),
                i <= self.days@.len(),
                dlo == lo,
                dhi == hi,
                spec_sum_days(self.days@, lo, hi).0 <= u64::MAX,
                spec_sum_days(self.days@, lo, hi).1 <= u64::MAX,
                up == spec_sum_days(self.days@.take(i as int), lo, hi).0,
                down == spec_sum_days(self.days@.take(i as int), lo, hi).1,
                found <==> exists|j: int|
                    0 <= j < i && day_in_range(#[trigger] self.days@[j], lo, hi),
            decreases self.days@.len() - i,
        {
            let row = self.days[i];
            proof {
                assert(self.days@.take(i + 1).drop_last() =~= self.days@.take(i as int));
                assert(self.days@.take(i + 1).last() == self.days@[i as int]);
                lemma_sum_days_prefix(self.days@, lo, hi, i + 1);
            }
            let ri: u64 = row.day.index();
            if dlo <= ri && ri <= dhi {
                up = up + row.uplink_traffic_usage;
                down = down + row.downlink_traffic_usage;
                found = true;
            }
            i = i + 1;
        }
        proof {
            assert(self.days@.take(self.days@.len() as int) =~= self.days@);
        }
        if found {
            Some((up, down))
        } else {
            None
        }
    }

    /// The day aggregate row of `day`, if one exists.
    pub fn get_day_data(&self, day: Date) -> (r: Option<MonitorDay>)
        requires
            self.wf(),
            valid_date(day),
        ensures
            match r {
                Some(row) => day_value(self.days@, day_index(day)) == Some(
                    (row.uplink_traffic_usage as int, row.downlink_traffic_usage as int),
                ) && day_index(row.day) == day_index(day) && valid_date(row.day),
                None => day_value(self.days@, day_index(day)) is None,
            },
    {
        let di: u64 = day.index();
        let mut i: usize = 0;
        while i < self.days.len()
            invariant
                self.wf(),
                i <= self.days@.len(),
                di == day_index(day),
                valid_date(day),
                forall|j: int| 0 <= j < i ==> day_index(#[trigger] self.days@[j].day) != day_index(day),
            decreases self.days@.len() - i,
        {
            proof {
                assert(valid_date(self.days@[i as int].day));
            }
            if self.days[i].day.index() == di {
                proof {
                    lemma_day_value_at(self.days@, i as int, day_index(day));
                }
                return Some(self.days[i]);
            }
            i = i + 1;
        }
        proof {
            lemma_day_value_none(self.days@, day_index(day));
        }
        None
    }

    /// Writes the hour aggregate for `(day, hour)`: the existing row is
    /// replaced in place, otherwise a row is appended. Other keys keep
    /// their values.
    pub fn upsert_hour(&mut self, day: Date, hour: u64, up: u64, down: u64)
        requires
            old(self).wf(),
            valid_date(day),
            hour < 24,
        ensures
            final(self).wf(),
            final(self).seconds@ == old(self).seconds@,
            final(self).days@ == old(self).days@,
            hour_value(final(self).hours@, day_index(day), hour as int) == Some(
                (up as int, down as int),
            ),
            forall|d: int, h: int|
                !(d == day_index(day) && h == hour) ==> #[trigger] hour_value(
                    final(self).hours@,
                    d,
                    h,
                ) == hour_value(old(self).hours@, d, h),
            spec_sum_hours_all(final(self).hours@).0 <= spec_sum_hours_all(old(self).hours@).0
                + up,
            spec_sum_hours_all(final(self).hours@).1 <= spec_sum_hours_all(old(self).hours@).1
                + down,
    {
        let row = MonitorHour { day, hour, uplink_traffic_usage: up, downlink_traffic_usage: down };
        let di: u64 = day.index();
        let mut i: usize = 0;
        while i < self.hours.len()
            invariant
                *self == *old(self),
                self.wf(),
                i <= self.hours@.len(),
                di == day_index(day),
                valid_date(day),
                hour < 24,
                row == (MonitorHour {
                    day,
                    hour,
                    uplink_traffic_usage: up,
                    downlink_traffic_usage: down,
                }),
                forall|j: int|
                    0 <= j < i ==> !hour_has_key(
                        #[trigger] self.hours@[j],
                        day_index(day),
                        hour as int,
                    ),
            decreases self.hours@.len() - i,
        {
            proof {
                assert(valid_date(self.hours@[i as int].day));
            }
            if self.hours[i].day.index() == di && self.hours[i].hour == hour {
                let ghost before = self.hours@;
                self.hours.set(i, row);
                proof {
                    crate::date::lemma_day_index_injective(before[i as int].day, day);
                    lemma_hour_value_update(before, i as int, row);
                    lemma_sum_hours_all_update(before, i as int, row);
                    assert forall|l: int|
                        0 <= l < self.hours@.len() implies valid_date(#[trigger] self.hours@[l].day)
                        && self.hours@[l].hour < 24 by {
                        if l != i {
                            assert(self.hours@[l] == before[l]);
                        }
                    }
                    assert forall|i1: int, i2: int|
                        0 <= i1 < i2 < self.hours@.len() implies !(day_index(
                        #[trigger] self.hours@[i1].day,
                    ) == day_index(#[trigger] self.hours@[i2].day) && self.hours@[i1].hour
                        == self.hours@[i2].hour) by {
                        assert(day_index(self.hours@[i1].day) == day_index(before[i1].day)
                            && self.hours@[i1].hour == before[i1].hour);
                        assert(day_index(self.hours@[i2].day) == day_index(before[i2].day)
                            && self.hours@[i2].hour == before[i2].hour);
                    }
                }
                return ;
            }
            i = i + 1;
        }
        let ghost before = self.hours@;
        self.hours.push(row);
        proof {
            assert(self.hours@.drop_last() =~= before);
            assert(self.hours@.last() == row);
            assert forall|d: int, h: int| !(d == day_index(day) && h == hour) implies
                #[trigger] hour_value(self.hours@, d, h) == hour_value(before, d, h) by {
                assert(hour_value(self.hours@, d, h) == hour_value(self.hours@.drop_last(), d, h));
            }
        }
    }

    /// Writes the day aggregate for `day`: the existing row is replaced in
    /// place, otherwise a row is appended. Other days keep their values.
    pub fn upsert_day(&mut self, day: Date, up: u64, down: u64)
        requires
            old(self).wf(),
            valid_date(day),
        ensures
            final(self).wf(),
            final(self).seconds@ == old(self).seconds@,
            final(self).hours@ == old(self).hours@,
            day_value(final(self).days@, day_index(day)) == Some((up as int, down as int)),
            forall|d: int|
                d != day_index(day) ==> #[trigger] day_value(final(self).days@, d) == day_value(
                    old(self).days@,
                    d,
                ),
            spec_sum_days(final(self).days@, 0, crate::date::max_day_index()).0 <= spec_sum_days(
                old(self).days@,
                0,
                crate::date::max_day_index(),
            ).0 + up,
            spec_sum_days(final(self).days@, 0, crate::date::max_day_index()).1 <= spec_sum_days(
                old(self).days@,
                0,
                crate::date::max_day_index(),
            ).1 + down,
    {
        let row = MonitorDay { day, uplink_traffic_usage: up, downlink_traffic_usage: down };
        let di: u64 = day.index();
        let mut i: usize = 0;
        while i < self.days.len()
            invariant
                *self == *old(self),
                self.wf(),
                i <= self.days@.len(),
                di == day_index(day),
                valid_date(day),
                row == (MonitorDay { day, uplink_traffic_usage: up, downlink_traffic_usage: down }),
                forall|j: int| 0 <= j < i ==> day_index(#[trigger] self.days@[j].day) != day_index(day),
            decreases self.days@.len() - i,
        {
            proof {
                assert(valid_date(self.days@[i as int].day));
            }
            if self.days[i].day.index() == di {
                let ghost before = self.days@;
                self.days.set(i, row);
                proof {
                    lemma_day_value_update(before, i as int, row);
                    crate::date::lemma_day_index_range(before[i as int].day);
                    crate::date::lemma_day_index_range(day);
                    lemma_sum_days_update(before, i as int, row, 0, crate::date::max_day_index());
                    assert forall|l: int| 0 <= l < self.days@.len() implies valid_date(
                        #[trigger] self.days@[l].day,
                    ) by {
                        if l != i {
                            assert(self.days@[l] == before[l]);
                        }
                    }
                    assert forall|i1: int, i2: int|
                        0 <= i1 < i2 < self.days@.len() implies day_index(
                        #[trigger] self.days@[i1].day,
                    ) != day_index(#[trigger] self.days@[i2].day) by {
                        assert(day_index(self.days@[i1].day) == day_index(before[i1].day));
                        assert(day_index(self.days@[i2].day) == day_index(before[i2].day));
                    }
                }
                return ;
            }
            i = i + 1;
        }
        let ghost before = self.days@;
        self.days.push(row);
        proof {
            assert(self.days@.drop_last() =~= before);
            assert(self.days@.last() == row);
            crate::date::lemma_day_index_range(day);
            assert forall|d: int| d != day_index(day) implies #[trigger] day_value(self.days@, d)
                == day_value(before, d) by {
                assert(day_value(self.days@, d) == day_value(self.days@.drop_last(), d));
            }
        }
    }

    /// Deletes every sample that ended before `cutoff`; aggregates stay.
    pub fn delete_by_date(&mut self, cutoff: DateTime)
        requires
            old(self).wf(),
            valid_datetime(cutoff),
        ensures
            final(self).wf(),
            final(self).seconds@ == seconds_kept(old(self).seconds@, second_index(cutoff)),
            final(self).hours@ == old(self).hours@,
            final(self).days@ == old(self).days@,
    {
        let ghost c = second_index(cutoff);
        let cs: u64 = cutoff.seconds();
        let mut kept: Vec<MonitorSecond> = Vec::new();
        let mut i: usize = 0;
        proof {
            assert(self.seconds@.take(0int) =~= Seq::<MonitorSecond>::empty());
        }
        while i < self.seconds.len()
            invariant
                self.wf(),
                i <= self.seconds@.len(),
                cs == c,
                kept@ == seconds_kept(self.seconds@.take(i as int), c),
                forall|j: int|
                    0 <= j < kept@.len() ==> valid_datetime(#[trigger] kept@[j].start_time)
                        && valid_datetime(kept@[j].end_time),
            decreases self.seconds@.len() - i,
        {
            let row = self.seconds[i];
            proof {
                assert(valid_datetime(self.seconds@[i as int].start_time));
                assert(self.seconds@.take(i + 1).drop_last() =~= self.seconds@.take(i as int));
                assert(self.seconds@.take(i + 1).last() == self.seconds@[i as int]);
            }
            if row.end_time.seconds() >= cs {
                kept.push(row);
            }
            i = i + 1;
        }
        proof {
            assert(self.seconds@.take(self.seconds@.len() as int) =~= self.seconds@);
        }
        self.seconds = kept;
    }

    /// The samples whose start time lies in `start ..< end`, in store order.
    pub fn list_timerange_data(&self, start: DateTime, end: DateTime) -> (r: Vec<MonitorSecond>)
        requires
            self.wf(),
            valid_datetime(start),
            valid_datetime(end),
        ensures
            r@ == seconds_listed(self.seconds@, second_index(start), second_index(end)),
    {
        let ghost lo = second_index(start);
        let ghost hi = second_index(end);
        let slo: u64 = start.seconds();
        let shi: u64 = end.seconds();
        let mut out: Vec<MonitorSecond> = Vec::new();
        let mut i: usize = 0;
        proof {
            assert(self.seconds@.take(0int) =~= Seq::<MonitorSecond>::empty());
        }
        while i < self.seconds.len()
            invariant
                self.wf(),
                i <= self.seconds@.len(),
                slo == lo,
                shi == hi,
                out@ == seconds_listed(self.seconds@.take(i as int), lo, hi),
            decreases self.seconds@.len() - i,
        {
            let row = self.seconds[i];
            proof {
                assert(valid_datetime(self.seconds@[i as int].start_time));
                assert(self.seconds@.take(i + 1).drop_last() =~= self.seconds@.take(i as int));
                assert(self.seconds@.take(i + 1).last() == self.seconds@[i as int]);
            }
            let st: u64 = row.start_time.seconds();
            if slo <= st && st < shi {
                out.push(row);
            }
            i = i + 1;
        }
        proof {
            assert(self.seconds@.take(self.seconds@.len() as int) =~= self.seconds@);
        }
        out
    }

    /// The hour aggregates whose hour starts in `start ..< end`, in store
    /// order.
    pub fn list_hour_data(&self, start: DateTime, end: DateTime) -> (r: Vec<MonitorHour>)
        requires
            self.wf(),
            valid_datetime(start),
            valid_datetime(end),
        ensures
            r@ == hours_listed(self.hours@, second_index(start), second_index(end)),
    {
        let ghost lo = second_index(start);
        let ghost hi = second_index(end);
        let slo: u64 = start.seconds();
        let shi: u64 = end.seconds();
        let mut out: Vec<MonitorHour> = Vec::new();
        let mut i: usize = 0;
        proof {
            assert(self.hours@.take(0int) =~= Seq::<MonitorHour>::empty());
        }
        while i < self.hours.len()
            invariant
                self.wf(),
                i <= self.hours@.len(),
                slo == lo,
                shi == hi,
                out@ == hours_listed(self.hours@.take(i as int), lo, hi),
            decreases self.hours@.len() - i,
        {
            let row = self.hours[i];
            proof {
                assert(valid_date(self.hours@[i as int].day));
                assert(self.hours@.take(i + 1).drop_last() =~= self.hours@.take(i as int));
                assert(self.hours@.take(i + 1).last() == self.hours@[i as int]);
            }
            let t = DateTime::new(row.day, row.hour, 0, 0);
            let ts: u64 = t.seconds();
            if slo <= ts && ts < shi {
                out.push(row);
            }
            i = i + 1;
        }
        proof {
            assert(self.hours@.take(self.hours@.len() as int) =~= self.hours@);
        }
        out
    }

    /// The day aggregates with day in `start ..= end`, in store order.
    pub fn list_daterange_data(&self, start: Date, end: Date) -> (r: Vec<MonitorDay>)
        requires
            self.wf(),
            valid_date(start),
            valid_date(end),
        ensures
            r@ == days_listed(self.days@, day_index(start), day_index(end)),
    {
        let ghost lo = day_index(start);
        let ghost hi = day_index(end);
        let dlo: u64 = start.index();
        let dhi: u64 = end.index();
        let mut out: Vec<MonitorDay> = Vec::new();
        let mut i: usize = 0;
        proof {
            assert(self.days@.take(0int) =~= Seq::<MonitorDay>::empty());
        }
        while i < self.days.len()
            invariant
                self.wf(),
                i <= self.days@.len(),
                dlo == lo,
                dhi == hi,
                out@ == days_listed(self.days@.take(i as int), lo, hi),
            decreases self.days@.len() - i,
        {
            let row = self.days[i];
            proof {
                assert(valid_date(self.days@[i as int].day));
                assert(self.days@.take(i + 1).drop_last() =~= self.days@.take(i as int));
                assert(self.days@.take(i + 1).last() == self.days@[i as int]);
            }
            let ri: u64 = row.day.index();
            if dlo <= ri && ri <= dhi {
                out.push(row);
            }
            i = i + 1;
        }
        proof {
            assert(self.days@.take(self.days@.len() as int) =~= self.days@);
        }
        out
    }
}

} // verus!
